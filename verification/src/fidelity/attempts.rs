//! Which converter's document is kept.

use vstd::prelude::*;
use crate::cx::CxV;
use crate::engine;
use crate::engine::Attempt;
use crate::error::ErrorV;
use crate::ir::DocumentV;
use crate::registry;
use crate::registry::{Converter, Entry};
use crate::stream_info;
use crate::stream_info::StreamInfoV;

verus! {

/// The attempt on guess `a` with converter `b` comes from `(g, k)` on and before
/// `(i, j)`.
pub open spec fn is_between(g: int, k: int, a: int, b: int, i: int, j: int) -> bool {
    (g < a || g == a && k <= b) && (a < i || a == i && b < j)
}

/// Every converter that accepts its guess in between has failed on it.
pub open spec fn all_between_failed<C: Converter>(
    entries: Seq<Entry<C>>,
    bytes: Seq<u8>,
    guesses: Seq<StreamInfoV>,
    g: int,
    k: int,
    i: int,
    j: int,
) -> bool {
    forall|a: int, b: int|
        #![trigger is_between(g, k, a, b, i, j)]
        is_between(g, k, a, b, i, j) && 0 <= a < guesses.len() && 0 <= b < entries.len()
            && entries[b].converter.takes(stream_info::spec_probe(bytes), guesses[a])
            ==> engine::fails_on(entries[b].converter, bytes, guesses[a])
}

/// A document comes from the first converter that could make one: every converter that
/// accepts an earlier guess, or the same guess and stands before it, has failed.
pub proof fn earlier_converters_have_failed<C: Converter>(
    entries: Seq<Entry<C>>,
    bytes: Seq<u8>,
    guesses: Seq<StreamInfoV>,
    g: int,
    k: int,
    last: Option<ErrorV>,
    c: CxV,
    post: CxV,
    d: DocumentV,
    name: Seq<char>,
    i: int,
) -> (j: int)
    requires
        0 <= g,
        0 <= k,
        engine::attempts_from(
            entries,
            bytes,
            guesses,
            g,
            k,
            last,
            c,
            post,
            Ok::<Attempt, ErrorV>((d, name, i)),
        ),
    ensures
        0 <= i < guesses.len(),
        0 <= j < entries.len(),
        g < i || g == i && k <= j,
        entries[j].converter.named() == name,
        entries[j].converter.takes(stream_info::spec_probe(bytes), guesses[i]),
        all_between_failed(entries, bytes, guesses, g, k, i, j),
    decreases guesses.len() - g, entries.len() - k,
{
    let r = Ok::<Attempt, ErrorV>((d, name, i));
    if k >= entries.len() {
        let j = earlier_converters_have_failed(
            entries,
            bytes,
            guesses,
            g + 1,
            0,
            last,
            c,
            post,
            d,
            name,
            i,
        );
        assert forall|a: int, b: int|
            #![trigger is_between(g, k, a, b, i, j)]
            is_between(g, k, a, b, i, j) && 0 <= a < guesses.len() && 0 <= b < entries.len()
                && entries[b].converter.takes(
                stream_info::spec_probe(bytes),
                guesses[a],
            ) implies engine::fails_on(entries[b].converter, bytes, guesses[a]) by {
            assert(is_between(g + 1, 0, a, b, i, j));
        }
        j
    } else if !entries[k].converter.takes(stream_info::spec_probe(bytes), guesses[g]) {
        let j = earlier_converters_have_failed(
            entries,
            bytes,
            guesses,
            g,
            k + 1,
            last,
            c,
            post,
            d,
            name,
            i,
        );
        assert forall|a: int, b: int|
            #![trigger is_between(g, k, a, b, i, j)]
            is_between(g, k, a, b, i, j) && 0 <= a < guesses.len() && 0 <= b < entries.len()
                && entries[b].converter.takes(
                stream_info::spec_probe(bytes),
                guesses[a],
            ) implies engine::fails_on(entries[b].converter, bytes, guesses[a]) by {
            assert(is_between(g, k + 1, a, b, i, j));
        }
        j
    } else {
        let (mid, out) = choose|mid: CxV, out: Result<DocumentV, ErrorV>|
            c.grows_to(mid) && #[trigger] entries[k].converter.converts(
                bytes,
                guesses[g],
                c,
                mid,
                out,
            ) && (match out {
                Ok(d) => post == mid && r == Ok::<Attempt, ErrorV>(
                    (d, entries[k].converter.named(), g),
                ),
                Err(f) => if registry::is_limit(out) {
                    post == mid && r == Err::<Attempt, ErrorV>(f)
                } else {
                    engine::attempts_from(
                        entries,
                        bytes,
                        guesses,
                        g,
                        k + 1,
                        Some(f),
                        mid,
                        post,
                        r,
                    )
                },
            });
        match out {
            Ok(_) => k,
            Err(f) => {
                let j = earlier_converters_have_failed(
                    entries,
                    bytes,
                    guesses,
                    g,
                    k + 1,
                    Some(f),
                    mid,
                    post,
                    d,
                    name,
                    i,
                );
                assert(engine::fails_on(entries[k].converter, bytes, guesses[g])) by {
                    assert(entries[k].converter.converts(
                        bytes,
                        guesses[g],
                        c,
                        mid,
                        Err::<DocumentV, ErrorV>(f),
                    ));
                }
                assert forall|a: int, b: int|
                    #![trigger is_between(g, k, a, b, i, j)]
                    is_between(g, k, a, b, i, j) && 0 <= a < guesses.len() && 0 <= b
                        < entries.len() && entries[b].converter.takes(
                        stream_info::spec_probe(bytes),
                        guesses[a],
                    ) implies engine::fails_on(entries[b].converter, bytes, guesses[a]) by {
                    if !(a == g && b == k) {
                        assert(is_between(g, k + 1, a, b, i, j));
                    }
                }
                j
            },
        }
    }
}

/// A registration adds one converter and leaves the others as they stand.
pub proof fn registration_keeps_the_others<C>(s: Seq<Entry<C>>, e: Entry<C>)
    requires
        registry::in_order(s),
    ensures
        ({
            let t = registry::inserted(s, e);
            let k = registry::rank_of(s, e);
            &&& 0 <= k < t.len()
            &&& t[k] == e
            &&& t.remove(k) == s
        }),
{
    registry::registration_keeps_order(s, e);
    let t = registry::inserted(s, e);
    let k = registry::rank_of(s, e);
    registry::lemma_rank(s, e);
    assert(t.remove(k) =~= s);
}

/// Every converter that is kept by name stays.
pub proof fn kept_converters_stay<C: Converter>(s: Seq<Entry<C>>, keep: Seq<Seq<char>>, i: int)
    requires
        0 <= i < s.len(),
        keep.contains(s[i].converter.named()),
    ensures
        registry::retained(s, keep).contains(s[i]),
    decreases s.len(),
{
    let t = registry::retained(s.drop_last(), keep);
    let r = registry::retained(s, keep);
    if i == s.len() - 1 {
        assert(r.last() == s[i]);
        assert(r[r.len() - 1] == s[i]);
    } else {
        assert(s.drop_last()[i] == s[i]);
        kept_converters_stay(s.drop_last(), keep, i);
        let j = t.index_of(s[i]);
        assert(t[j] == s[i]);
        assert(r[j] == t[j]);
    }
}

} // verus!

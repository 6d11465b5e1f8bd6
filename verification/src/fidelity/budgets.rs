//! What reading an input costs.

use vstd::prelude::*;
use crate::archive;
use crate::bytes;
use crate::chars;
use crate::converters::ooxml;
use crate::converters::pdf;
use crate::converters::pdf::PagesV;
use crate::converters::sheet;
use crate::converters::sheet::CellV;
use crate::cx::CxV;
use crate::error::ErrorV;

verus! {

/// One byte more is read than the budget still allows, so that going beyond it shows.
pub proof fn one_byte_more_is_read(c: CxV)
    requires
        c.limits.max_expanded_bytes < u64::MAX,
    ensures
        c.expanded <= c.limits.max_expanded_bytes ==> ooxml::read_limit(c)
            == c.limits.max_expanded_bytes - c.expanded + 1,
        c.expanded > c.limits.max_expanded_bytes ==> ooxml::read_limit(c) == 1,
{
}

/// A part of a container is charged by its bytes; one that is missing or cannot be read
/// costs nothing, and one that goes beyond the budget is refused.
pub proof fn parts_are_charged(bytes: Seq<u8>, name: Seq<char>, c: CxV, data: Seq<u8>)
    requires
        c.expanded + data.len() <= u64::MAX,
    ensures
        ({
            let r = ooxml::spec_read_part(bytes, name, c);
            let got = archive::archive_part(bytes, name, ooxml::read_limit(c));
            &&& got is None ==> r.0 == Ok::<Option<Seq<char>>, ErrorV>(None) && r.1 == c
            &&& got matches Some(Err(m)) ==> r.0 is Err && r.1 == c
            &&& got == Some(Ok::<Seq<u8>, Seq<char>>(data)) ==> {
                &&& r.1.expanded == c.expanded + data.len()
                &&& r.1.embedded == c.embedded && r.1.depth == c.depth && r.1.limits == c.limits
                &&& c.expanded + data.len() <= c.limits.max_expanded_bytes ==> r.0 == Ok::<
                    Option<Seq<char>>,
                    ErrorV,
                >(Some(bytes::lossy(data)))
                &&& c.expanded + data.len() > c.limits.max_expanded_bytes ==> (r.0 matches Err(e)
                    && e is LimitExceeded)
            }
        }),
{
}

/// How many bytes the pages from the `i`-th on take.
pub open spec fn bytes_from(pages: Seq<Seq<char>>, i: int) -> nat
    decreases pages.len() - i,
{
    if i < 0 || i >= pages.len() {
        0
    } else {
        chars::byte_len(pages[i]) + bytes_from(pages, i + 1)
    }
}

/// The pages of a file are charged by their bytes: they are read where all of them fit
/// into the budget, and else the file is refused.
pub proof fn pages_are_charged(pages: Seq<Seq<char>>, i: int, s: PagesV, c: CxV)
    requires
        c.expanded + bytes_from(pages, i) <= u64::MAX,
        c.expanded <= c.limits.max_expanded_bytes,
    ensures
        ({
            let r = pdf::pages_from(pages, i, s, c);
            &&& c.expanded + bytes_from(pages, i) <= c.limits.max_expanded_bytes ==> r.0 is Ok
                && r.1.expanded == c.expanded + bytes_from(pages, i)
            &&& c.expanded + bytes_from(pages, i) > c.limits.max_expanded_bytes ==> (r.0 matches
                Err(e) && e is LimitExceeded)
        }),
    decreases pages.len() - i,
{
    if 0 <= i < pages.len() {
        let n = chars::byte_len(pages[i]) as u64;
        assert(n == chars::byte_len(pages[i]));
        let after = c.with_budget(c.budget().expand(n));
        assert(after.expanded == c.expanded + n);
        if !c.budget().expand_fails(n) {
            let p = pdf::spec_page_blocks(pages[i], s.fired);
            pages_are_charged(
                pages,
                i + 1,
                PagesV { empty: s.empty.push((i + 1) as usize), ..s },
                after,
            );
            pages_are_charged(
                pages,
                i + 1,
                PagesV { doc: s.doc.extended(p.blocks), fired: p.fired, ..s },
                after,
            );
        }
    }
}

/// A sheet is charged by its cells: its rows times the cells of its first.
pub proof fn sheets_are_charged_by_their_cells(cells: Seq<Seq<CellV>>)
    requires
        cells.len() > 0,
        cells.len() * cells[0].len() <= u64::MAX,
    ensures
        sheet::cell_count(cells) == cells.len() * cells[0].len(),
{
}

} // verus!

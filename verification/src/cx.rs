//! Limits, and the budget that one conversion spends against them.

use std::time::{Duration, Instant};
use vstd::prelude::*;
use crate::error::{ConvertError, ErrorV};

verus! {

/// `std::time::Instant`, carried through as an opaque value.
#[verifier::external_type_specification]
#[verifier::external_body]
pub struct ExInstant(Instant);

/// `Instant::now`: the current time. Nothing is claimed of the result.
pub assume_specification[ Instant::now ]() -> (r: Instant);

/// `Instant::elapsed`: the time since the instant. Nothing is claimed of the
/// result.
pub assume_specification[ Instant::elapsed ](t: &Instant) -> (r: Duration);

/// `Duration::as_nanos`: the duration in nanoseconds. As the duration itself
/// is a reading of the clock, nothing is claimed of the number.
pub assume_specification[ Duration::as_nanos ](d: &Duration) -> (r: u128);

/// What one conversion may consume.
#[derive(Debug, PartialEq, Eq)]
pub struct Limits {
    /// Largest accepted input.
    pub max_input_bytes: u64,
    /// Largest Markdown output; reaching it truncates.
    pub max_output_bytes: u64,
    /// Cumulative decompressed bytes over the whole tree of containers.
    pub max_expanded_bytes: u64,
    /// How deeply containers may nest.
    pub max_depth: u32,
    /// Container members converted over the whole tree.
    pub max_embedded_documents: u32,
    /// Wall-clock budget.
    pub timeout_ms: u64,
    /// Rows rendered per table.
    pub max_table_rows: u32,
}

impl Clone for Limits {
    fn clone(&self) -> (r: Self)
        ensures
            r == *self,
    {
        Limits {
            max_input_bytes: self.max_input_bytes,
            max_output_bytes: self.max_output_bytes,
            max_expanded_bytes: self.max_expanded_bytes,
            max_depth: self.max_depth,
            max_embedded_documents: self.max_embedded_documents,
            timeout_ms: self.timeout_ms,
            max_table_rows: self.max_table_rows,
        }
    }
}

/// The limits that hold when nothing else is asked for.
pub open spec fn default_limits() -> Limits {
    Limits {
        max_input_bytes: 20971520,
        max_output_bytes: 4194304,
        max_expanded_bytes: 209715200,
        max_depth: 3,
        max_embedded_documents: 64,
        timeout_ms: 30000,
        max_table_rows: 5000,
    }
}

impl Default for Limits {
    fn default() -> (r: Self)
        ensures
            r == default_limits(),
    {
        Limits {
            max_input_bytes: 20 * 1024 * 1024,
            max_output_bytes: 4 * 1024 * 1024,
            max_expanded_bytes: 200 * 1024 * 1024,
            max_depth: 3,
            max_embedded_documents: 64,
            timeout_ms: 30_000,
            max_table_rows: 5_000,
        }
    }
}

/// The value of a [`Budget`]: what has been spent, against which limits.
pub struct BudgetV {
    pub limits: Limits,
    pub expanded: u64,
    pub embedded: u64,
}

/// The value of a [`ConvertCx`].
pub struct CxV {
    pub limits: Limits,
    pub expanded: u64,
    pub embedded: u64,
    pub depth: u32,
}

pub open spec fn sat_add(a: u64, b: u64) -> u64 {
    if a + b > u64::MAX {
        u64::MAX
    } else {
        (a + b) as u64
    }
}

pub open spec fn limit_error(limit: Seq<char>, actual: u64, allowed: u64) -> ErrorV {
    ErrorV::LimitExceeded { limit, actual, allowed }
}

impl BudgetV {
    /// After `bytes` more decompressed bytes.
    pub open spec fn expand(self, bytes: u64) -> BudgetV {
        BudgetV { expanded: sat_add(self.expanded, bytes), ..self }
    }

    /// After one more container member.
    pub open spec fn embed(self) -> BudgetV {
        BudgetV { embedded: sat_add(self.embedded, 1), ..self }
    }

    pub open spec fn expand_fails(self, bytes: u64) -> bool {
        self.expand(bytes).expanded > self.limits.max_expanded_bytes
    }

    pub open spec fn embed_fails(self) -> bool {
        self.embed().embedded > self.limits.max_embedded_documents
    }
}

/// What one conversion tree has consumed so far.
///
/// The counters saturate, so a charge can never wrap round and make room.
#[derive(Debug)]
pub struct Budget {
    limits: Limits,
    expanded: u64,
    embedded: u64,
    started: Instant,
}

impl View for Budget {
    type V = BudgetV;

    closed spec fn view(&self) -> BudgetV {
        BudgetV { limits: self.limits, expanded: self.expanded, embedded: self.embedded }
    }
}

/// Nanoseconds in whole milliseconds, as far as they can be counted.
pub open spec fn millis(nanos: u128) -> u64 {
    if nanos / 1_000_000 > u64::MAX {
        u64::MAX
    } else {
        (nanos / 1_000_000) as u64
    }
}

/// The verdict on `nanos` nanoseconds against a limit of `timeout_ms`
/// milliseconds.
pub fn deadline(nanos: u128, timeout_ms: u64) -> (r: Result<(), ConvertError>)
    ensures
        r is Ok <==> nanos <= timeout_ms * 1_000_000,
        r matches Err(e) ==> e@ == limit_error("timeout_ms"@, millis(nanos), timeout_ms),
{
    if nanos > timeout_ms as u128 * 1_000_000 {
        let ms: u128 = nanos / 1_000_000;
        let actual: u64 = if ms > u64::MAX as u128 {
            u64::MAX
        } else {
            ms as u64
        };
        return Err(
            ConvertError::LimitExceeded { limit: "timeout_ms", actual, allowed: timeout_ms },
        );
    }
    Ok(())
}

/// The error is the one that an exhausted clock gives.
pub open spec fn timed_out(e: ErrorV, limits: Limits) -> bool {
    &&& e matches ErrorV::LimitExceeded { limit, actual, allowed }
    &&& limit == "timeout_ms"@
    &&& allowed == limits.timeout_ms
    &&& actual >= allowed
}

impl Budget {
    /// When the clock was started.
    pub closed spec fn start(self) -> Instant {
        self.started
    }

    #[must_use]
    pub fn new(limits: Limits) -> (r: Self)
        ensures
            r@ == (BudgetV { limits, expanded: 0, embedded: 0 }),
    {
        Budget { limits, expanded: 0, embedded: 0, started: Instant::now() }
    }

    #[must_use]
    pub fn limits(&self) -> (r: &Limits)
        ensures
            *r == self@.limits,
    {
        &self.limits
    }

    /// Records `bytes` more decompressed bytes.
    pub fn charge_expanded(&mut self, bytes: u64) -> (r: Result<(), ConvertError>)
        ensures
            final(self)@ == old(self)@.expand(bytes),
            final(self).start() == old(self).start(),
            r is Err <==> old(self)@.expand_fails(bytes),
            r matches Err(e) ==> e@ == limit_error(
                "max_expanded_bytes"@,
                final(self)@.expanded,
                old(self)@.limits.max_expanded_bytes,
            ),
    {
        let total: u64 = self.expanded.saturating_add(bytes);
        self.expanded = total;
        if total > self.limits.max_expanded_bytes {
            return Err(
                ConvertError::LimitExceeded {
                    limit: "max_expanded_bytes",
                    actual: total,
                    allowed: self.limits.max_expanded_bytes,
                },
            );
        }
        Ok(())
    }

    /// Records one more container member.
    pub fn charge_embedded(&mut self) -> (r: Result<(), ConvertError>)
        ensures
            final(self)@ == old(self)@.embed(),
            final(self).start() == old(self).start(),
            r is Err <==> old(self)@.embed_fails(),
            r matches Err(e) ==> e@ == limit_error(
                "max_embedded_documents"@,
                final(self)@.embedded,
                old(self)@.limits.max_embedded_documents as u64,
            ),
    {
        let n: u64 = self.embedded.saturating_add(1);
        self.embedded = n;
        if n > self.limits.max_embedded_documents as u64 {
            return Err(
                ConvertError::LimitExceeded {
                    limit: "max_embedded_documents",
                    actual: n,
                    allowed: self.limits.max_embedded_documents as u64,
                },
            );
        }
        Ok(())
    }

    /// Fails once the clock has run past `timeout_ms`; see [`deadline`].
    pub fn check_deadline(&self) -> (r: Result<(), ConvertError>)
        ensures
            r matches Err(e) ==> timed_out(e@, self@.limits),
    {
        let d = self.started.elapsed();
        deadline(d.as_nanos(), self.limits.timeout_ms)
    }

    /// Fails exactly when the input is larger than `max_input_bytes`.
    pub fn check_input_size(&self, bytes: u64) -> (r: Result<(), ConvertError>)
        ensures
            r is Err <==> bytes > self@.limits.max_input_bytes,
            r matches Err(e) ==> e@ == limit_error(
                "max_input_bytes"@,
                bytes,
                self@.limits.max_input_bytes,
            ),
    {
        if bytes > self.limits.max_input_bytes {
            return Err(
                ConvertError::LimitExceeded {
                    limit: "max_input_bytes",
                    actual: bytes,
                    allowed: self.limits.max_input_bytes,
                },
            );
        }
        Ok(())
    }

    #[must_use]
    pub fn expanded_bytes(&self) -> (r: u64)
        ensures
            r == self@.expanded,
    {
        self.expanded
    }

    /// The time since the budget was opened.
    #[must_use]
    pub fn elapsed(&self) -> Duration {
        self.started.elapsed()
    }
}

/// What a converter gets to see of the conversion it takes part in.
pub struct ConvertCx<'a> {
    pub budget: &'a mut Budget,
    pub depth: u32,
}

impl<'a> View for ConvertCx<'a> {
    type V = CxV;

    open spec fn view(&self) -> CxV {
        CxV {
            limits: self.budget@.limits,
            expanded: self.budget@.expanded,
            embedded: self.budget@.embedded,
            depth: self.depth,
        }
    }
}

impl CxV {
    pub open spec fn budget(self) -> BudgetV {
        BudgetV { limits: self.limits, expanded: self.expanded, embedded: self.embedded }
    }

    pub open spec fn with_budget(self, b: BudgetV) -> CxV {
        CxV { limits: b.limits, expanded: b.expanded, embedded: b.embedded, depth: self.depth }
    }

    /// What a descent may leave behind: the same limits and depth, and
    /// counters that have only grown.
    pub open spec fn grows_to(self, later: CxV) -> bool {
        &&& later.limits == self.limits
        &&& later.depth == self.depth
        &&& self.expanded <= later.expanded
        &&& self.embedded <= later.embedded
    }

    pub open spec fn child(self) -> CxV {
        CxV { depth: (self.depth + 1) as u32, ..self }
    }
}

impl<'a> ConvertCx<'a> {
    /// When the clock of the conversion was started.
    pub open spec fn start(self) -> Instant {
        self.budget.start()
    }

    #[must_use]
    pub fn new(budget: &'a mut Budget) -> (r: Self)
        ensures
            r@ == (CxV {
                limits: old(budget)@.limits,
                expanded: old(budget)@.expanded,
                embedded: old(budget)@.embedded,
                depth: 0,
            }),
            r.start() == old(budget).start(),
            *final(budget) == *final(r.budget),
    {
        ConvertCx { budget, depth: 0 }
    }

    #[must_use]
    pub fn budget(&self) -> (r: &Budget)
        ensures
            r@ == self@.budget(),
            r.start() == self.start(),
    {
        &*self.budget
    }

    #[must_use]
    pub fn limits(&self) -> (r: &Limits)
        ensures
            *r == self@.limits,
    {
        self.budget.limits()
    }

    #[must_use]
    pub fn depth(&self) -> (r: u32)
        ensures
            r == self@.depth,
    {
        self.depth
    }

    /// See [`Budget::charge_expanded`].
    pub fn charge_expanded(&mut self, bytes: u64) -> (r: Result<(), ConvertError>)
        ensures
            final(self)@ == old(self)@.with_budget(old(self)@.budget().expand(bytes)),
            final(self).start() == old(self).start(),
            *final(final(self).budget) == *final(old(self).budget),
            r is Err <==> old(self)@.budget().expand_fails(bytes),
            r matches Err(e) ==> e@ == limit_error(
                "max_expanded_bytes"@,
                final(self)@.expanded,
                old(self)@.limits.max_expanded_bytes,
            ),
    {
        self.budget.charge_expanded(bytes)
    }

    /// See [`Budget::charge_embedded`].
    pub fn charge_embedded(&mut self) -> (r: Result<(), ConvertError>)
        ensures
            final(self)@ == old(self)@.with_budget(old(self)@.budget().embed()),
            final(self).start() == old(self).start(),
            *final(final(self).budget) == *final(old(self).budget),
            r is Err <==> old(self)@.budget().embed_fails(),
            r matches Err(e) ==> e@ == limit_error(
                "max_embedded_documents"@,
                final(self)@.embedded,
                old(self)@.limits.max_embedded_documents as u64,
            ),
    {
        self.budget.charge_embedded()
    }

    /// The context of a container member, one level further down, on the same
    /// budget.
    pub fn descend(&mut self) -> (r: Result<ConvertCx<'_>, ConvertError>)
        ensures
            r is Ok <==> old(self)@.depth < old(self)@.limits.max_depth,
            r matches Ok(c) ==> {
                &&& c@ == old(self)@.child()
                &&& c.start() == old(self).start()
                &&& *final(self).budget == *final(c.budget)
                &&& final(self).depth == old(self).depth
                &&& *final(final(self).budget) == *final(old(self).budget)
            },
            r matches Err(e) ==> {
                &&& e@ == limit_error(
                    "max_depth"@,
                    (old(self)@.depth + 1) as u64,
                    old(self)@.limits.max_depth as u64,
                )
                &&& final(self)@ == old(self)@
                &&& final(self).start() == old(self).start()
                &&& *final(final(self).budget) == *final(old(self).budget)
            },
    {
        let allowed: u32 = self.budget.limits().max_depth;
        if self.depth >= allowed {
            return Err(
                ConvertError::LimitExceeded {
                    limit: "max_depth",
                    actual: self.depth as u64 + 1,
                    allowed: allowed as u64,
                },
            );
        }
        Ok(ConvertCx { budget: &mut *self.budget, depth: self.depth + 1 })
    }
}

/// A refused charge stays refused: whatever is charged later, the counter is
/// still over its limit.
pub proof fn expanded_stays_exhausted(b: BudgetV, bytes: u64, more: u64)
    requires
        b.expand_fails(bytes),
    ensures
        b.expand(bytes).expand_fails(more),
        b.expand(bytes).expanded >= b.expanded,
{
}

/// The member counter stays exhausted as well.
pub proof fn embedded_stays_exhausted(b: BudgetV)
    requires
        b.embed_fails(),
    ensures
        b.embed().embed_fails(),
{
}

/// Two charges that both pass leave what their sum would leave, within the
/// limit: the budget is cumulative, not per member.
pub proof fn expanded_is_cumulative(b: BudgetV, x: u64, y: u64)
    requires
        !b.expand_fails(x),
        !b.expand(x).expand_fails(y),
        b.limits.max_expanded_bytes < u64::MAX,
    ensures
        b.expand(x).expand(y).expanded == b.expanded + x + y,
        b.expanded + x + y <= b.limits.max_expanded_bytes,
{
}

} // verus!

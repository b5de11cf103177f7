//! The bounded generator: a double-ended producer of sequential counters over
//! the half-open interval `[current, end)`, advancing the start cursor
//! forward via increment and the end cursor backward via decrement.

use crate::counter::{counter_lt, ByteCounter, CounterModel, IDENTIFIER_SIZE};
use crate::numeric::{dec_bytes, inc_bytes, lemma_lex_lt_irreflexive, zeros};
use crate::timestamp::Timestamp;
use vstd::prelude::*;

verus! {

/// Two cursors over a shrinking interval of counters. A forward step returns
/// the start cursor and increments it; a backward step decrements the end
/// cursor and returns it; the run is exhausted once the start cursor is no
/// longer strictly below the end cursor.
#[derive(Debug)]
pub struct Generator {
    current: ByteCounter,
    end: ByteCounter,
}

impl Generator {
    /// The model of the forward cursor: the next value to be produced.
    pub closed spec fn start_model(&self) -> CounterModel {
        self.current.model()
    }

    /// The model of the backward cursor: one past the last remaining value.
    pub closed spec fn end_model(&self) -> CounterModel {
        self.end.model()
    }

    /// Well-formed: both cursors carry full-width counters.
    pub closed spec fn wf(&self) -> bool {
        self.current.wf() && self.end.wf()
    }

    /// An empty run: both cursors at the all-zero counter without a prefix.
    pub fn new() -> (r: Self)
        ensures
            r.wf(),
            r.start_model() == r.end_model(),
            r.start_model().prefix is None,
            r.start_model().bytes == zeros(IDENTIFIER_SIZE as nat),
    {
        let c = ByteCounter::new();
        let e = c.clone();
        Generator { current: c, end: e }
    }

    /// An empty run: both cursors at the all-zero counter under the given
    /// prefix.
    pub fn new_with_prefix(prefix: String) -> (r: Self)
        ensures
            r.wf(),
            r.start_model() == r.end_model(),
            r.start_model().prefix == Some(prefix@),
            r.start_model().bytes == zeros(IDENTIFIER_SIZE as nat),
    {
        let c = ByteCounter::new_with_prefix(prefix);
        let e = c.clone();
        Generator { current: c, end: e }
    }

    /// A run over the explicit half-open interval `[start, end)`.
    pub fn new_with_bounds(start: ByteCounter, end: ByteCounter) -> (r: Self)
        requires
            start.wf(),
            end.wf(),
        ensures
            r.wf(),
            r.start_model() == start.model(),
            r.end_model() == end.model(),
    {
        Generator { current: start, end }
    }

    /// The forward step with an explicit timestamp for the advanced cursor:
    /// while the start cursor is strictly below the end cursor, it returns the
    /// start cursor and replaces it with its increment; otherwise the run is
    /// exhausted and nothing is produced.
    pub fn next_at(&mut self, ts: Timestamp) -> (r: Option<ByteCounter>)
        requires
            old(self).wf(),
        ensures
            final(self).wf(),
            r is Some <==> counter_lt(old(self).start_model(), old(self).end_model()),
            r is Some ==> r.unwrap().wf() && r.unwrap().model() == old(self).start_model(),
            r is Some ==> final(self).start_model().bytes == inc_bytes(
                old(self).start_model().bytes,
            ),
            r is Some ==> final(self).start_model().prefix == old(self).start_model().prefix,
            r is Some ==> final(self).start_model().timestamp == ts.0,
            r is Some ==> final(self).start_model().valid,
            r is None ==> final(self).start_model() == old(self).start_model(),
            final(self).end_model() == old(self).end_model(),
    {
        if self.current.lt(&self.end) {
            let result = self.current.clone();
            let stepped = self.current.next_at(ts);
            self.current = stepped;
            Some(result)
        } else {
            None
        }
    }

    /// The forward step, stamping the advanced cursor now.
    pub fn next(&mut self) -> (r: Option<ByteCounter>)
        requires
            old(self).wf(),
        ensures
            final(self).wf(),
            r is Some <==> counter_lt(old(self).start_model(), old(self).end_model()),
            r is Some ==> r.unwrap().wf() && r.unwrap().model() == old(self).start_model(),
            r is Some ==> final(self).start_model().bytes == inc_bytes(
                old(self).start_model().bytes,
            ),
            r is Some ==> final(self).start_model().prefix == old(self).start_model().prefix,
            r is Some ==> final(self).start_model().valid,
            r is None ==> final(self).start_model() == old(self).start_model(),
            final(self).end_model() == old(self).end_model(),
    {
        self.next_at(Timestamp::new())
    }

    /// The backward step with an explicit timestamp for the retreated cursor:
    /// while the start cursor is strictly below the end cursor, the end
    /// cursor is replaced with its decrement and a copy of the new end cursor
    /// is returned; otherwise nothing is produced.
    pub fn next_back_at(&mut self, ts: Timestamp) -> (r: Option<ByteCounter>)
        requires
            old(self).wf(),
        ensures
            final(self).wf(),
            r is Some <==> counter_lt(old(self).start_model(), old(self).end_model()),
            r is Some ==> r.unwrap().wf() && r.unwrap().model() == final(self).end_model(),
            r is Some ==> final(self).end_model().bytes == dec_bytes(old(self).end_model().bytes),
            r is Some ==> final(self).end_model().prefix == old(self).end_model().prefix,
            r is Some ==> final(self).end_model().timestamp == ts.0,
            r is Some ==> final(self).end_model().valid,
            r is None ==> final(self).end_model() == old(self).end_model(),
            final(self).start_model() == old(self).start_model(),
    {
        if self.current.lt(&self.end) {
            let stepped = self.end.prev_at(ts);
            self.end = stepped;
            let result = self.end.clone();
            Some(result)
        } else {
            None
        }
    }

    /// The backward step, stamping the retreated cursor now.
    pub fn next_back(&mut self) -> (r: Option<ByteCounter>)
        requires
            old(self).wf(),
        ensures
            final(self).wf(),
            r is Some <==> counter_lt(old(self).start_model(), old(self).end_model()),
            r is Some ==> r.unwrap().wf() && r.unwrap().model() == final(self).end_model(),
            r is Some ==> final(self).end_model().bytes == dec_bytes(old(self).end_model().bytes),
            r is Some ==> final(self).end_model().prefix == old(self).end_model().prefix,
            r is Some ==> final(self).end_model().valid,
            r is None ==> final(self).end_model() == old(self).end_model(),
            final(self).start_model() == old(self).start_model(),
    {
        self.next_back_at(Timestamp::new())
    }
}

impl Default for Generator {
    /// An empty run: both cursors at the all-zero counter without a prefix.
    fn default() -> (r: Self)
        ensures
            r.wf(),
            r.start_model() == r.end_model(),
            r.start_model().prefix is None,
            r.start_model().bytes == zeros(IDENTIFIER_SIZE as nat),
    {
        Generator::new()
    }
}

/// A generator whose two cursors hold one value is exhausted: the strict
/// order is irreflexive, so neither a forward nor a backward step produces an
/// element.
pub proof fn lemma_equal_bounds_exhausted(m: CounterModel)
    ensures
        !counter_lt(m, m),
{
    lemma_lex_lt_irreflexive(m.bytes);
}

} // verus!

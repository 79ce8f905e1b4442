use crate::types::WidgetForDisplay;
use vstd::prelude::*;

verus! {

/// Priority order of the display scheduler: earlier
/// `time_stamp_general` first, ties broken by the smaller `id` so that
/// draining is deterministic.
pub open spec fn key_le(a: WidgetForDisplay, b: WidgetForDisplay) -> bool {
    a.time_stamp_general < b.time_stamp_general || (a.time_stamp_general == b.time_stamp_general
        && a.id <= b.id)
}

/// Strict form of `key_le`.
pub open spec fn key_lt(a: WidgetForDisplay, b: WidgetForDisplay) -> bool {
    a.time_stamp_general < b.time_stamp_general || (a.time_stamp_general == b.time_stamp_general
        && a.id < b.id)
}

/// A sequence that ascends in priority order.
pub open spec fn sorted_by_key(s: Seq<WidgetForDisplay>) -> bool {
    forall|i: int, j: int| #![trigger s[i], s[j]] 0 <= i < j < s.len() ==> key_le(s[i], s[j])
}

/// A min-priority queue over display entries, ordered by
/// `time_stamp_general` ascending. Its view is the sequence of entries
/// in the order `pop` will yield them.
pub struct WidgetForDisplayHeap {
    heap: Vec<WidgetForDisplay>,
}

impl WidgetForDisplayHeap {
    /// The entries still queued, first to be popped first.
    pub closed spec fn entries(&self) -> Seq<WidgetForDisplay> {
        self.heap@
    }

    /// The queue invariant: the view ascends in priority order.
    /// Every constructor establishes it and every operation keeps it.
    pub open spec fn wf(&self) -> bool {
        sorted_by_key(self.entries())
    }

    pub fn new() -> (h: Self)
        ensures
            h.entries() == Seq::<WidgetForDisplay>::empty(),
            h.wf(),
    {
        Self { heap: Vec::new() }
    }

    /// Enqueues one entry at its place in the priority order.
    pub fn push(&mut self, widget: WidgetForDisplay)
        ensures
            exists|p: int|
                0 <= p <= old(self).entries().len()
                    && final(self).entries() == old(self).entries().insert(p, widget)
                    && (forall|q: int|
                    #![trigger old(self).entries()[q]]
                    p <= q < old(self).entries().len() ==> key_lt(widget, old(self).entries()[q]))
                    && (p > 0 ==> !key_lt(widget, old(self).entries()[p - 1])),
            old(self).wf() ==> final(self).wf(),
    {
        let mut p: usize = self.heap.len();
        loop
            invariant
                p <= self.heap.len(),
                forall|j: int|
                    #![trigger self.heap@[j]]
                    p <= j < self.heap@.len() ==> key_lt(widget, self.heap@[j]),
            ensures
                p == 0 || !key_lt(widget, self.heap@[p - 1]),
            decreases p,
        {
            if p == 0 {
                break ;
            }
            let prev = &self.heap[p - 1];
            let moves = widget.time_stamp_general < prev.time_stamp_general
                || (widget.time_stamp_general == prev.time_stamp_general && widget.id < prev.id);
            if !moves {
                break ;
            }
            p -= 1;
        }
        let ghost s_old = self.heap@;
        let ghost pos = p as int;
        self.heap.insert(p, widget);
        proof {
            assert(self.heap@ =~= s_old.insert(pos, widget));
            assert(self.heap@ == old(self).entries().insert(pos, widget));
            if sorted_by_key(s_old) {
                assert forall|i: int, j: int|
                    0 <= i < j < self.heap@.len() implies key_le(
                    #[trigger] self.heap@[i],
                    #[trigger] self.heap@[j],
                ) by {
                    assert(self.heap@ == s_old.insert(pos, widget));
                    if i < pos {
                        assert(self.heap@[i] == s_old[i]);
                    }
                    if i == pos {
                        assert(self.heap@[i] == widget);
                    }
                    if i > pos {
                        assert(self.heap@[i] == s_old[i - 1]);
                    }
                    if j < pos {
                        assert(self.heap@[j] == s_old[j]);
                    }
                    if j == pos {
                        assert(self.heap@[j] == widget);
                    }
                    if j > pos {
                        assert(self.heap@[j] == s_old[j - 1]);
                    }
                }
            }
        }
    }

    /// Removes and returns the entry with the smallest key, the head of
    /// the view; on a well-formed queue it is no later than anything left.
    pub fn pop(&mut self) -> (r: Option<WidgetForDisplay>)
        ensures
            old(self).entries().len() == 0 ==> r is None
                && final(self).entries() == old(self).entries(),
            old(self).entries().len() > 0 ==> r == Option::Some(old(self).entries()[0])
                && final(self).entries() == old(self).entries().subrange(
                1,
                old(self).entries().len() as int,
            ),
            old(self).wf() ==> final(self).wf(),
            (old(self).wf() && old(self).entries().len() > 0) ==> forall|j: int|
                #![trigger final(self).entries()[j]]
                0 <= j < final(self).entries().len() ==> key_le(
                    old(self).entries()[0],
                    final(self).entries()[j],
                ),
    {
        if self.heap.len() == 0 {
            return Option::None;
        }
        let w = self.heap.remove(0);
        proof {
            assert(self.heap@ =~= old(self).heap@.subrange(1, old(self).heap@.len() as int));
        }
        Option::Some(w)
    }

    /// The entry `pop` would return, left in place.
    pub fn peek(&self) -> (r: Option<&WidgetForDisplay>)
        ensures
            self.entries().len() == 0 ==> r is None,
            self.entries().len() > 0 ==> (r matches Option::Some(w) && *w == self.entries()[0]),
    {
        if self.heap.len() == 0 {
            Option::None
        } else {
            Option::Some(&self.heap[0])
        }
    }

    pub fn is_empty(&self) -> (r: bool)
        ensures
            r == (self.entries().len() == 0),
    {
        self.heap.len() == 0
    }
}

impl Default for WidgetForDisplayHeap {
    /// Same queue as `new`: empty and well-formed.
    fn default() -> (h: Self)
        ensures
            h.entries() == Seq::<WidgetForDisplay>::empty(),
            h.wf(),
    {
        Self::new()
    }
}

/// Min-heap correctness: whatever order entries were pushed in, a
/// well-formed queue is drained in non-decreasing `time_stamp_general`
/// order, since `pop` always removes the head of the view and the view
/// stays sorted.
pub proof fn lemma_pop_order(h: WidgetForDisplayHeap)
    requires
        h.wf(),
    ensures
        forall|i: int, j: int|
            #![trigger h.entries()[i], h.entries()[j]]
            0 <= i <= j < h.entries().len() ==> h.entries()[i].time_stamp_general
                <= h.entries()[j].time_stamp_general,
{
    assert forall|i: int, j: int|
        0 <= i <= j < h.entries().len() implies #[trigger] h.entries()[i].time_stamp_general
        <= #[trigger] h.entries()[j].time_stamp_general by {
        if i < j {
            assert(key_le(h.entries()[i], h.entries()[j]));
        }
    }
}

} // verus!

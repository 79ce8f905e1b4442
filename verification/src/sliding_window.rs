use vstd::prelude::*;

verus! {

/// A backing sequence of time-sorted entries together with two
/// forward-only cursors. `end` counts the entries that have become
/// relevant so far; `start` counts the entries at the front that are
/// relevant no longer. Both only ever move toward the back, which turns
/// the per-tick "what is active now" question into amortized constant
/// work.
pub struct SlidingWindow<T> {
    vec: Vec<T>,
    start: usize,
    end: usize,
}

impl<T> SlidingWindow<T> {
    /// The backing sequence.
    pub closed spec fn entries(&self) -> Seq<T> {
        self.vec@
    }

    /// The start cursor.
    pub closed spec fn start_ix(&self) -> int {
        self.start as int
    }

    /// The end cursor.
    pub closed spec fn end_ix(&self) -> int {
        self.end as int
    }

    /// The window invariant: cursors in order and inside the sequence.
    pub open spec fn wf(&self) -> bool {
        0 <= self.start_ix() && self.start_ix() <= self.end_ix() && self.end_ix()
            <= self.entries().len()
    }

    /// True once the start cursor has reached the last index: the session
    /// has nothing left to show.
    pub open spec fn exhausted(&self) -> bool {
        self.start_ix() + 1 >= self.entries().len()
    }

    /// The active range, present only when it holds at least two entries;
    /// a thinner window counts as empty so that one look-ahead slot always
    /// stands before the first truly active entry.
    pub open spec fn active_range(&self) -> Option<(int, int)> {
        if self.end_ix() <= self.start_ix() + 1 {
            Option::None
        } else if self.end_ix() > self.entries().len() {
            Option::None
        } else {
            Option::Some((self.start_ix(), self.end_ix()))
        }
    }

    /// An empty window whose end cursor already grants the look-ahead slot.
    pub fn new() -> (w: Self)
        ensures
            w.entries() == Seq::<T>::empty(),
            w.start_ix() == 0,
            w.end_ix() == 1,
    {
        Self { vec: Vec::new(), start: 0, end: 1 }
    }

    /// Appends one entry at the back; the cursors stay put.
    pub fn push(&mut self, data: T)
        ensures
            final(self).entries() == old(self).entries().push(data),
            final(self).start_ix() == old(self).start_ix(),
            final(self).end_ix() == old(self).end_ix(),
    {
        self.vec.push(data);
    }

    /// Wraps an already time-sorted sequence, both cursors at the front.
    pub fn build(data_vec: Vec<T>) -> (w: Self)
        ensures
            w.entries() == data_vec@,
            w.start_ix() == 0,
            w.end_ix() == 0,
            w.wf(),
    {
        Self { vec: data_vec, start: 0, end: 0 }
    }

    /// The bounds of the current active range, or nothing while the window
    /// holds fewer than two entries.
    pub fn as_slice(&self) -> (r: Option<(usize, usize)>)
        ensures
            match r {
                Option::Some((a, b)) => self.active_range() == Option::Some((a as int, b as int)),
                Option::None => self.active_range() is None,
            },
    {
        if self.end <= self.start || self.end - self.start <= 1 {
            return Option::None;
        }
        if self.end > self.vec.len() {
            return Option::None;
        }
        Option::Some((self.start, self.end))
    }

    /// Reads the entry at one index of the backing sequence.
    pub fn get(&self, i: usize) -> (r: &T)
        requires
            i < self.entries().len(),
        ensures
            *r == self.entries()[i as int],
    {
        &self.vec[i]
    }

    /// Overwrites the entry at one index; length and cursors stay put.
    pub fn set(&mut self, i: usize, v: T)
        requires
            i < old(self).entries().len(),
        ensures
            final(self).entries() == old(self).entries().update(i as int, v),
            final(self).start_ix() == old(self).start_ix(),
            final(self).end_ix() == old(self).end_ix(),
    {
        self.vec[i] = v;
    }

    /// Advances the start cursor while the predicate accepts the front
    /// entry, never past the entry just before the end cursor: the window
    /// keeps its look-ahead slot. A predicate that refuses at once leaves
    /// the window untouched, and the cursor never moves backward.
    pub fn start_move_while<F: Fn(&T) -> bool>(&mut self, f: F)
        requires
            forall|i: int|
                #![trigger old(self).entries()[i]]
                0 <= i < old(self).entries().len() ==> call_requires(
                    f,
                    (&old(self).entries()[i],),
                ),
        ensures
            final(self).entries() == old(self).entries(),
            final(self).end_ix() == old(self).end_ix(),
            old(self).start_ix() <= final(self).start_ix(),
            final(self).start_ix() == old(self).start_ix() || final(self).start_ix() < old(
                self,
            ).end_ix(),
            forall|i: int|
                #![trigger old(self).entries()[i]]
                old(self).start_ix() <= i < final(self).start_ix() ==> i + 1 < old(self).end_ix()
                    && i < old(self).entries().len() && call_ensures(
                    f,
                    (&old(self).entries()[i],),
                    true,
                ),
            (final(self).start_ix() + 1 < old(self).end_ix() && final(self).start_ix() < old(
                self,
            ).entries().len()) ==> call_ensures(
                f,
                (&old(self).entries()[final(self).start_ix()],),
                false,
            ),
            old(self).wf() ==> final(self).wf(),
            old(self).exhausted() ==> final(self).exhausted(),
    {
        loop
            invariant
                forall|i: int|
                    #![trigger old(self).entries()[i]]
                    0 <= i < old(self).entries().len() ==> call_requires(
                        f,
                        (&old(self).entries()[i],),
                    ),
                self.vec@ == old(self).vec@,
                self.end == old(self).end,
                old(self).start <= self.start,
                self.start == old(self).start || self.start < self.end,
                self.start == old(self).start || self.start <= self.vec.len(),
                forall|i: int|
                    #![trigger old(self).entries()[i]]
                    old(self).start_ix() <= i < self.start_ix() ==> i + 1 < old(self).end_ix() && i
                        < old(self).entries().len() && call_ensures(
                        f,
                        (&old(self).entries()[i],),
                        true,
                    ),
            ensures
                (self.start_ix() + 1 < self.end_ix() && self.start_ix() < self.entries().len())
                    ==> call_ensures(f, (&old(self).entries()[self.start_ix()],), false),
            decreases self.vec.len() - self.start,
        {
            if !(self.start < self.vec.len()) {
                break ;
            }
            if !(self.start + 1 < self.end) {
                break ;
            }
            proof {
                assert(old(self).entries()[self.start as int] == self.vec@[self.start as int]);
            }
            let keep_moving = f(&self.vec[self.start]);
            if !keep_moving {
                break ;
            }
            self.start += 1;
        }
    }

    /// Advances the end cursor while it is inside the sequence and the
    /// predicate accepts the entry it points at. A predicate that refuses
    /// at once leaves the window untouched, and the cursor never moves
    /// backward.
    pub fn end_move_while<F: Fn(&T) -> bool>(&mut self, f: F)
        requires
            forall|i: int|
                #![trigger old(self).entries()[i]]
                0 <= i < old(self).entries().len() ==> call_requires(
                    f,
                    (&old(self).entries()[i],),
                ),
        ensures
            final(self).entries() == old(self).entries(),
            final(self).start_ix() == old(self).start_ix(),
            old(self).end_ix() <= final(self).end_ix(),
            final(self).end_ix() == old(self).end_ix() || final(self).end_ix() <= old(
                self,
            ).entries().len(),
            forall|i: int|
                #![trigger old(self).entries()[i]]
                old(self).end_ix() <= i < final(self).end_ix() ==> i < old(self).entries().len()
                    && call_ensures(f, (&old(self).entries()[i],), true),
            final(self).end_ix() < old(self).entries().len() ==> call_ensures(
                f,
                (&old(self).entries()[final(self).end_ix()],),
                false,
            ),
            old(self).wf() ==> final(self).wf(),
            old(self).exhausted() ==> final(self).exhausted(),
    {
        loop
            invariant
                forall|i: int|
                    #![trigger old(self).entries()[i]]
                    0 <= i < old(self).entries().len() ==> call_requires(
                        f,
                        (&old(self).entries()[i],),
                    ),
                self.vec@ == old(self).vec@,
                self.start == old(self).start,
                old(self).end <= self.end,
                self.end == old(self).end || self.end <= self.vec.len(),
                forall|i: int|
                    #![trigger old(self).entries()[i]]
                    old(self).end_ix() <= i < self.end_ix() ==> i < old(self).entries().len()
                        && call_ensures(f, (&old(self).entries()[i],), true),
            ensures
                self.end_ix() < self.entries().len() ==> call_ensures(
                    f,
                    (&old(self).entries()[self.end_ix()],),
                    false,
                ),
            decreases self.vec.len() - self.end,
        {
            if !(self.end < self.vec.len()) {
                break ;
            }
            proof {
                assert(old(self).entries()[self.end as int] == self.vec@[self.end as int]);
            }
            let keep_moving = f(&self.vec[self.end]);
            if !keep_moving {
                break ;
            }
            self.end += 1;
        }
    }

    /// Whether the start cursor stands at (or past) the last index.
    /// An empty backing sequence has no last index, so it is ruled out.
    pub fn is_end(&self) -> (r: bool)
        requires
            self.entries().len() >= 1,
        ensures
            r == self.exhausted(),
    {
        self.start >= self.vec.len() - 1
    }
}

impl<T> Default for SlidingWindow<T> {
    /// Same window as `new`: empty sequence, look-ahead slot granted.
    fn default() -> (w: Self)
        ensures
            w.entries() == Seq::<T>::empty(),
            w.start_ix() == 0,
            w.end_ix() == 1,
    {
        Self::new()
    }
}

/// Exhaustion is stable: a window whose start cursor reached the last
/// index stays exhausted under every operation that neither shrinks the
/// cursor nor lengthens the sequence — and no operation of this type does
/// either, once the backing sequence is loaded.
pub proof fn lemma_exhaustion_monotone<T>(w1: SlidingWindow<T>, w2: SlidingWindow<T>)
    requires
        w1.exhausted(),
        w1.start_ix() <= w2.start_ix(),
        w2.entries().len() == w1.entries().len(),
    ensures
        w2.exhausted(),
{
}

} // verus!

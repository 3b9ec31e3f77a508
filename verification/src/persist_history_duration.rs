//! The most recent persistence durations.
use vstd::prelude::*;

verus! {

/// The history always holds fewer entries than this.
pub const MAX_DATA_LEN: usize = 120;

/// The last `n` elements of `s`, or all of `s` when it is shorter.
pub open spec fn keep_last<T>(s: Seq<T>, n: nat) -> Seq<T> {
    if s.len() > n {
        s.subrange(s.len() - n, s.len() as int)
    } else {
        s
    }
}

pub struct PersistHistoryDuration {
    data: Vec<usize>,
}

impl View for PersistHistoryDuration {
    type V = Seq<usize>;

    closed spec fn view(&self) -> Seq<usize> {
        self.data@
    }
}

impl PersistHistoryDuration {
    pub fn new() -> (r: Self)
        ensures
            r@ == Seq::<usize>::empty(),
    {
        Self { data: Vec::new() }
    }

    /// Appends a duration, dropping the oldest ones so that fewer than
    /// `MAX_DATA_LEN` remain.
    pub fn add(&mut self, duration: usize)
        ensures
            final(self)@ == keep_last(old(self)@.push(duration), (MAX_DATA_LEN - 1) as nat),
            final(self)@.len() < MAX_DATA_LEN,
            final(self)@.last() == duration,
    {
        self.data.push(duration);
        let ghost pushed = self.data@;
        while self.data.len() >= MAX_DATA_LEN
            invariant
                pushed == old(self)@.push(duration),
                self.data@.len() >= MAX_DATA_LEN - 1 ==> self.data@ == pushed.subrange(
                    pushed.len() - self.data@.len(),
                    pushed.len() as int,
                ),
                self.data@.len() <= pushed.len(),
                pushed.len() < MAX_DATA_LEN ==> self.data@ == pushed,
                pushed.len() >= MAX_DATA_LEN ==> self.data@.len() >= MAX_DATA_LEN - 1,
            decreases self.data@.len(),
        {
            self.data.remove(0);
        }
        proof {
            if pushed.len() >= MAX_DATA_LEN {
                assert(self.data@.len() == MAX_DATA_LEN - 1);
            }
        }
    }

    /// A copy of the durations, oldest first.
    pub fn get(&self) -> (r: Vec<usize>)
        ensures
            r@ == self@,
    {
        let mut result: Vec<usize> = Vec::with_capacity(self.data.len());
        let mut i: usize = 0;
        while i < self.data.len()
            invariant
                i <= self.data@.len(),
                result@ == self.data@.subrange(0, i as int),
            decreases self.data@.len() - i,
        {
            result.push(self.data[i]);
            i = i + 1;
            assert(result@ =~= self.data@.subrange(0, i as int));
        }
        assert(result@ =~= self.data@);
        result
    }
}

} // verus!

use vstd::prelude::*;

verus! {

/// A replay source built from no value at all.
#[derive(Debug, Clone, Copy, PartialEq, Eq, Structural)]
pub enum ReplayError {
    EmptyRandomSource,
}

/// A recorded sequence of draws, handed out in order and from the start
/// again once exhausted, for reproducible runs.
pub struct RandReader<T> {
    rand_list: Vec<T>,
    index: usize,
}

impl<T: Copy> RandReader<T> {
    /// The recorded draws.
    pub closed spec fn values(&self) -> Seq<T> {
        self.rand_list@
    }

    /// Where the next draw is read.
    pub closed spec fn position(&self) -> int {
        self.index as int
    }

    pub open spec fn wf(&self) -> bool {
        0 <= self.position() < self.values().len()
    }

    /// A source that starts at the first of `rand_list`; none without values.
    pub fn from_values(rand_list: Vec<T>) -> (r: Result<RandReader<T>, ReplayError>)
        ensures
            r is Err <==> rand_list@.len() == 0,
            r matches Ok(g) ==> g.wf() && g.values() == rand_list@ && g.position() == 0,
    {
        if rand_list.len() == 0 {
            return Err(ReplayError::EmptyRandomSource);
        }
        Ok(RandReader { rand_list, index: 0 })
    }

    /// The draw at the current position; the position then moves on, back to
    /// the first draw after the last one.
    pub fn next_random(&mut self) -> (r: T)
        requires
            old(self).wf(),
        ensures
            final(self).wf(),
            r == old(self).values()[old(self).position()],
            final(self).values() == old(self).values(),
            final(self).position() == (old(self).position() + 1) % (old(self).values().len() as int),
    {
        let next: T = self.rand_list[self.index];
        let count: usize = self.rand_list.len();
        proof {
            let i = self.index as int;
            if i + 1 == count {
                assert((i + 1) % (count as int) == 0) by (nonlinear_arith)
                    requires
                        i + 1 == count,
                        count > 0,
                ;
            } else {
                assert((i + 1) % (count as int) == i + 1) by (nonlinear_arith)
                    requires
                        0 <= i + 1 < count,
                ;
            }
        }
        self.index = if self.index + 1 == count {
            0
        } else {
            self.index + 1
        };
        next
    }
}

} // verus!

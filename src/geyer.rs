use vstd::prelude::*;

verus! {

/// The walk over paired lags `(s+1, s+2)`, `s = 1, 3, 5, ...`, that turns
/// the autocorrelations of chains of effective length `n` into Geyer's
/// initial positive sequence, then into his initial monotone sequence.
///
/// The walk stops at the latest when `s + 4 >= n`, so that the last pair of
/// autocorrelations is left over as a bias-correcting tail term. Every lag
/// that it hands out is below `n`.
pub struct LagWalk {
    n: usize,
    s: usize,
}

impl LagWalk {
    /// The effective length of the chains that the walk runs over.
    pub closed spec fn len(&self) -> nat {
        self.n as nat
    }

    /// The current lag index `s`.
    pub closed spec fn lag(&self) -> nat {
        self.s as nat
    }

    /// `s` is odd and leaves room for the pair after it and the tail term.
    pub closed spec fn wf(&self) -> bool {
        &&& self.s % 2 == 1
        &&& self.s + 3 <= self.n
    }

    /// A walk at `s = 1` over chains of effective length `n`.
    pub fn new(n: usize) -> (r: LagWalk)
        requires
            n >= 4,
        ensures
            r.wf(),
            r.len() == n,
            r.lag() == 1,
    {
        LagWalk { n, s: 1 }
    }

    /// Whether another pair of lags lies before the tail: `s + 4 < n`.
    pub fn is_open(&self) -> (r: bool)
        requires
            self.wf(),
        ensures
            r == (self.lag() + 4 < self.len()),
    {
        self.s < self.n - 4
    }

    /// The current lag index `s`.
    pub fn position(&self) -> (r: usize)
        ensures
            r == self.lag(),
    {
        self.s
    }

    /// The next pair of lags, `(s+1, s+2)`.
    pub fn pair(&self) -> (r: (usize, usize))
        requires
            self.wf(),
            self.lag() + 4 < self.len(),
        ensures
            r.0 == self.lag() + 1,
            r.1 == self.lag() + 2,
            r.1 < self.len(),
    {
        (self.s + 1, self.s + 2)
    }

    /// Moves past the current pair: `s` grows by two.
    pub fn advance(&mut self)
        requires
            old(self).wf(),
            old(self).lag() + 4 < old(self).len(),
        ensures
            final(self).wf(),
            final(self).len() == old(self).len(),
            final(self).lag() == old(self).lag() + 2,
    {
        self.s = self.s + 2;
    }

    /// The lag of the tail term, `s + 1`, where `s` is where the walk stopped.
    pub fn tail(&self) -> (r: usize)
        requires
            self.wf(),
        ensures
            r == self.lag() + 1,
            r < self.len(),
    {
        self.s + 1
    }

    /// The lag indices `s = 1, 3, ..., max_s - 3` at which the monotone pass
    /// compares the pair `(s+1, s+2)` with the pair `(s-1, s)`, where `max_s`
    /// is where the walk stopped. Every index that those pairs reach is below
    /// `max_s`.
    pub fn monotone_lags(&self) -> (r: Vec<usize>)
        requires
            self.wf(),
        ensures
            r.len() == (if self.lag() >= 3 { (self.lag() - 3) / 2 } else { 0 }),
            forall|k: int| 0 <= k < r.len() ==> #[trigger] r[k] == 2 * k + 1,
            forall|k: int| 0 <= k < r.len() ==> #[trigger] r[k] + 2 < self.lag(),
    {
        let mut r: Vec<usize> = Vec::new();
        if self.s < 3 {
            return r;
        }
        let mut t: usize = 1;
        while t <= self.s - 3
            invariant
                self.wf(),
                self.s >= 3,
                t % 2 == 1,
                t <= self.s - 1,
                r.len() == (t - 1) / 2,
                forall|k: int| 0 <= k < r.len() ==> #[trigger] r[k] == 2 * k + 1,
                forall|k: int| 0 <= k < r.len() ==> #[trigger] r[k] + 2 < self.s,
            decreases self.s - t,
        {
            r.push(t);
            t = t + 2;
        }
        r
    }
}

} // verus!

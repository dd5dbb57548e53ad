//! Bounded history of recent trade prices, for charts and indicators.
//!
//! Once `max_samples` samples are held, recording a new one evicts the
//! oldest. All statistics are integer: the average truncates toward zero.
use crate::credits::{trunc_div, Credits};
use std::collections::VecDeque;
use vstd::prelude::*;

verus! {

/// Sum of the prices (in cents) of a sequence of samples.
pub open spec fn sum_cents(s: Seq<(u64, Credits)>) -> int
    decreases s.len(),
{
    if s.len() == 0 {
        0
    } else {
        sum_cents(s.drop_last()) + s.last().1@
    }
}

/// The lowest price (in cents) among the first `n` samples.
pub open spec fn min_cents(s: Seq<(u64, Credits)>, n: int) -> i64
    decreases n,
{
    if n <= 1 {
        s[0].1@
    } else {
        let m = min_cents(s, n - 1);
        if s[n - 1].1@ < m {
            s[n - 1].1@
        } else {
            m
        }
    }
}

/// The highest price (in cents) among the first `n` samples.
pub open spec fn max_cents(s: Seq<(u64, Credits)>, n: int) -> i64
    decreases n,
{
    if n <= 1 {
        s[0].1@
    } else {
        let m = max_cents(s, n - 1);
        if s[n - 1].1@ > m {
            s[n - 1].1@
        } else {
            m
        }
    }
}

/// The samples after recording one more into a window of `max` samples.
pub open spec fn recorded(s: Seq<(u64, Credits)>, max: int, sample: (u64, Credits)) -> Seq<(u64, Credits)> {
    if s.len() >= max && s.len() > 0 {
        s.drop_first().push(sample)
    } else {
        s.push(sample)
    }
}

/// Ring buffer of `(tick, price)` samples, oldest first.
#[derive(Clone, Debug)]
pub struct PriceHistory {
    /// Samples in insertion order, oldest at the front.
    pub samples: VecDeque<(u64, Credits)>,
    /// Cap on the number of samples kept.
    pub max_samples: usize,
}

impl PriceHistory {
    /// The window invariant: a positive cap that the buffer never exceeds.
    pub open spec fn wf(&self) -> bool {
        &&& self.max_samples >= 1
        &&& self.samples@.len() <= self.max_samples
    }

    /// An empty history holding at most `max_samples` (at least one) samples.
    pub fn new(max_samples: usize) -> (h: PriceHistory)
        ensures
            h.samples@ == Seq::<(u64, Credits)>::empty(),
            h.max_samples == (if max_samples >= 1 { max_samples } else { 1 }),
            h.wf(),
    {
        PriceHistory {
            samples: VecDeque::with_capacity(max_samples),
            max_samples: if max_samples >= 1 {
                max_samples
            } else {
                1
            },
        }
    }

    /// Appends a sample, evicting the oldest one when the window is full.
    pub fn record(&mut self, tick: u64, price: Credits)
        ensures
            final(self).samples@ == recorded(old(self).samples@, old(self).max_samples as int, (tick, price)),
            final(self).max_samples == old(self).max_samples,
    {
        if self.samples.len() >= self.max_samples {
            let _ = self.samples.pop_front();
        }
        self.samples.push_back((tick, price));
        proof {
            let s = old(self).samples@;
            if s.len() >= old(self).max_samples && s.len() > 0 {
                assert(s.subrange(1, s.len() as int) =~= s.drop_first());
            }
        }
    }

    /// The most recent price, if any.
    pub fn latest(&self) -> (r: Option<Credits>)
        ensures
            r == (if self.samples@.len() == 0 {
                None
            } else {
                Some(self.samples@.last().1)
            }),
    {
        let n = self.samples.len();
        if n == 0 {
            None
        } else {
            Some(self.samples[n - 1].1)
        }
    }

    /// Mean price, truncated toward zero to the cent. `None` when empty.
    pub fn avg(&self) -> (r: Option<Credits>)
        ensures
            match r {
                None => self.samples@.len() == 0,
                Some(c) => self.samples@.len() > 0 && c@ == trunc_div(
                    sum_cents(self.samples@),
                    self.samples@.len() as int,
                ),
            },
    {
        let n = self.samples.len();
        if n == 0 {
            return None;
        }
        let mut sum: i128 = 0;
        let mut i: usize = 0;
        while i < n
            invariant
                n == self.samples@.len(),
                0 <= i <= n,
                sum == sum_cents(self.samples@.subrange(0, i as int)),
                -(i as int) * 0x8000_0000_0000_0000 <= sum <= (i as int) * 0x7fff_ffff_ffff_ffff,
            decreases n - i,
        {
            let p = self.samples[i].1.cents();
            proof {
                let s = self.samples@;
                assert(s.subrange(0, i + 1).drop_last() =~= s.subrange(0, i as int));
                assert(n <= usize::MAX);
                assert((i + 1) * 0x8000_0000_0000_0000 <= 0x8000_0000_0000_0000 * 0x1_0000_0000_0000_0000) by (nonlinear_arith)
                    requires i + 1 <= 0x1_0000_0000_0000_0000;
            }
            sum = sum + p as i128;
            i = i + 1;
        }
        proof {
            assert(self.samples@.subrange(0, n as int) =~= self.samples@);
        }
        let len: i128 = n as i128;
        let q: i128 = if sum >= 0 {
            sum / len
        } else {
            -((-sum) / len)
        };
        proof {
            assert(-(n as int) * 0x8000_0000_0000_0000 <= sum <= (n as int) * 0x7fff_ffff_ffff_ffff);
            if sum >= 0 {
                assert(sum / len <= 0x7fff_ffff_ffff_ffff) by (nonlinear_arith)
                    requires
                        sum >= 0,
                        len >= 1,
                        sum <= len * 0x7fff_ffff_ffff_ffff,
                ;
            } else {
                assert((-(sum as int)) / (len as int) <= 0x8000_0000_0000_0000) by (nonlinear_arith)
                    requires
                        sum < 0,
                        len >= 1,
                        -sum <= len * 0x8000_0000_0000_0000,
                ;
            }
        }
        Some(Credits::from_cents(q as i64))
    }

    /// `(lowest, highest)` price in the window. `None` when empty.
    pub fn min_max(&self) -> (r: Option<(Credits, Credits)>)
        ensures
            match r {
                None => self.samples@.len() == 0,
                Some((lo, hi)) => {
                    &&& self.samples@.len() > 0
                    &&& lo@ == min_cents(self.samples@, self.samples@.len() as int)
                    &&& hi@ == max_cents(self.samples@, self.samples@.len() as int)
                },
            },
    {
        let n = self.samples.len();
        if n == 0 {
            return None;
        }
        let first = self.samples[0].1;
        let mut lo = first;
        let mut hi = first;
        let mut i: usize = 1;
        while i < n
            invariant
                n == self.samples@.len(),
                1 <= i <= n,
                lo@ == min_cents(self.samples@, i as int),
                hi@ == max_cents(self.samples@, i as int),
            decreases n - i,
        {
            let p = self.samples[i].1;
            if p.lt(lo) {
                lo = p;
            }
            if hi.lt(p) {
                hi = p;
            }
            i = i + 1;
        }
        Some((lo, hi))
    }

    /// Number of samples held.
    pub fn len(&self) -> (r: usize)
        ensures
            r == self.samples@.len(),
    {
        self.samples.len()
    }

    /// True when no sample is held.
    pub fn is_empty(&self) -> (r: bool)
        ensures
            r == (self.samples@.len() == 0),
    {
        self.samples.len() == 0
    }
}

impl Default for PriceHistory {
    /// A window of 256 samples.
    fn default() -> (h: PriceHistory)
        ensures
            h.samples@ == Seq::<(u64, Credits)>::empty(),
            h.max_samples == 256,
    {
        PriceHistory::new(256)
    }
}

/// Recording keeps the window invariant: the buffer never outgrows its cap.
pub proof fn lemma_record_keeps_window(s: Seq<(u64, Credits)>, max: int, sample: (u64, Credits))
    requires
        max >= 1,
        s.len() <= max,
    ensures
        recorded(s, max, sample).len() <= max,
        recorded(s, max, sample).last() == sample,
{
}

} // verus!

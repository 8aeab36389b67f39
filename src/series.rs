use std::collections::VecDeque;
use vstd::prelude::*;

verus! {

/// One stored sample: a timestamp in milliseconds and an integer value in the
/// channel's unit (milli-degrees, milli-percent, kHz, MHz), or `None` for a
/// tick on which no data was available.
#[derive(Clone, Copy, Debug, PartialEq, Eq, Structural)]
pub struct Point {
    pub t: u64,
    pub value: Option<i64>,
}

/// Timestamps never decrease along the sequence.
pub open spec fn time_ordered(s: Seq<Point>) -> bool {
    forall|i: int, j: int| 0 <= i <= j < s.len() ==> s[i].t <= s[j].t
}

/// The last `n` entries of `s` (all of them when there are fewer).
pub open spec fn keep_last(s: Seq<Point>, n: nat) -> Seq<Point> {
    if s.len() <= n {
        s
    } else {
        s.subrange(s.len() - n, s.len() as int)
    }
}

/// What a series holds after appending `p` with capacity `cap`.
pub open spec fn pushed(s: Seq<Point>, p: Point, cap: nat) -> Seq<Point> {
    keep_last(s.push(p), cap)
}

/// The entries of `s` whose timestamp is at least `x_min`, in their order.
pub open spec fn at_or_after(s: Seq<Point>, x_min: u64) -> Seq<Point>
    decreases s.len(),
{
    if s.len() == 0 {
        s
    } else {
        let rest = at_or_after(s.drop_last(), x_min);
        if s.last().t >= x_min {
            rest.push(s.last())
        } else {
            rest
        }
    }
}

/// `p` with its value divided by `div`, truncating toward zero.
pub open spec fn scaled_point(p: Point, div: i64) -> Point {
    Point {
        t: p.t,
        value: match p.value {
            Some(v) => Some(trunc_div(v as int, div as int) as i64),
            None => None,
        },
    }
}

/// Integer division rounding toward zero.
pub open spec fn trunc_div(a: int, b: int) -> int
    recommends
        b > 0,
{
    if a >= 0 {
        a / b
    } else {
        -((-a) / b)
    }
}

/// Entry `i` of `s` lies in the window `[lo, hi]` and carries a value.
pub open spec fn counts_in(s: Seq<Point>, i: int, lo: u64, hi: u64) -> bool {
    lo <= s[i].t <= hi && s[i].value is Some
}

/// A fixed-capacity history of samples: once full, each new sample evicts the
/// oldest one.
pub struct RollingSeries {
    buf: VecDeque<Point>,
    cap: usize,
}

impl View for RollingSeries {
    type V = Seq<Point>;

    closed spec fn view(&self) -> Seq<Point> {
        self.buf@
    }
}

impl RollingSeries {
    pub closed spec fn capacity(&self) -> nat {
        self.cap as nat
    }

    pub closed spec fn wf(&self) -> bool {
        &&& self.buf@.len() <= self.cap
        &&& time_ordered(self.buf@)
    }

    /// An empty series that keeps at most `cap` samples.
    pub fn new(cap: usize) -> (r: Self)
        ensures
            r.wf(),
            r@ == Seq::<Point>::empty(),
            r.capacity() == cap,
    {
        RollingSeries { buf: VecDeque::new(), cap }
    }

    pub fn capacity_exec(&self) -> (r: usize)
        ensures
            r == self.capacity(),
    {
        self.cap
    }

    pub fn len(&self) -> (r: usize)
        ensures
            r == self@.len(),
    {
        self.buf.len()
    }

    /// The timestamp of the newest sample, if any.
    pub fn last_time(&self) -> (r: Option<u64>)
        ensures
            r == (if self@.len() == 0 {
                None::<u64>
            } else {
                Some(self@.last().t)
            }),
    {
        let n = self.buf.len();
        if n == 0 {
            None
        } else {
            Some(self.buf[n - 1].t)
        }
    }

    /// Appends a sample, evicting the oldest one first when the series is full.
    pub fn push(&mut self, t: u64, value: Option<i64>)
        requires
            old(self).wf(),
            old(self)@.len() > 0 ==> old(self)@.last().t <= t,
        ensures
            final(self).wf(),
            final(self).capacity() == old(self).capacity(),
            final(self)@ == pushed(old(self)@, Point { t, value }, old(self).capacity()),
            final(self)@.len() == (if old(self)@.len() < old(self).capacity() {
                old(self)@.len() + 1nat
            } else {
                old(self).capacity()
            }),
            old(self).capacity() > 0 ==> final(self)@.last() == (Point { t, value }),
    {
        let p = Point { t, value };
        let ghost s0 = self.buf@;
        if self.cap == 0 {
            assert(keep_last(s0.push(p), 0) =~= Seq::<Point>::empty());
            self.buf.clear();
            return;
        }
        if self.buf.len() == self.cap {
            self.buf.pop_front();
        }
        self.buf.push_back(p);
        assert(self.buf@ =~= keep_last(s0.push(p), self.cap as nat));
    }

    /// The samples at or after `x_min`, oldest first.
    pub fn points_after(&self, x_min: u64) -> (r: Vec<Point>)
        ensures
            r@ == at_or_after(self@, x_min),
    {
        let mut out: Vec<Point> = Vec::new();
        let n = self.buf.len();
        let mut i: usize = 0;
        while i < n
            invariant
                n == self@.len(),
                i <= n,
                out@ == at_or_after(self@.subrange(0, i as int), x_min),
            decreases n - i,
        {
            let p = self.buf[i];
            assert(self@.subrange(0, i + 1).drop_last() =~= self@.subrange(0, i as int));
            if p.t >= x_min {
                out.push(p);
            }
            i = i + 1;
        }
        assert(self@.subrange(0, n as int) =~= self@);
        out
    }

    /// As `points_after`, with every value divided by `div` (toward zero).
    pub fn points_after_scaled(&self, x_min: u64, div: i64) -> (r: Vec<Point>)
        requires
            div > 0,
        ensures
            r@ == at_or_after(self@, x_min).map_values(|p: Point| scaled_point(p, div)),
    {
        let pts = self.points_after(x_min);
        let mut out: Vec<Point> = Vec::new();
        let mut i: usize = 0;
        while i < pts.len()
            invariant
                div > 0,
                i <= pts@.len(),
                out@ =~= pts@.subrange(0, i as int).map_values(|p: Point| scaled_point(p, div)),
            decreases pts@.len() - i,
        {
            let p = pts[i];
            let v = match p.value {
                Some(y) => Some(scale_value(y, div)),
                None => None,
            };
            out.push(Point { t: p.t, value: v });
            i = i + 1;
        }
        out
    }

    /// The smallest and largest value among samples with a timestamp in
    /// `[x_min, x_max]`; `None` when no sample there carries a value.
    pub fn min_max_y(&self, x_min: u64, x_max: u64) -> (r: Option<(i64, i64)>)
        ensures
            r is None <==> !exists|i: int| 0 <= i < self@.len() && counts_in(self@, i, x_min, x_max),
            r matches Some((lo, hi)) ==> {
                &&& exists|i: int| 0 <= i < self@.len() && counts_in(self@, i, x_min, x_max)
                    && self@[i].value == Some(lo)
                &&& exists|i: int| 0 <= i < self@.len() && counts_in(self@, i, x_min, x_max)
                    && self@[i].value == Some(hi)
                &&& forall|i: int| 0 <= i < self@.len() && counts_in(self@, i, x_min, x_max)
                    ==> lo <= self@[i].value->0 <= hi
            },
    {
        let mut best: Option<(i64, i64)> = None;
        let n = self.buf.len();
        let mut i: usize = 0;
        while i < n
            invariant
                n == self@.len(),
                i <= n,
                best is None <==> !exists|k: int| 0 <= k < i && counts_in(self@, k, x_min, x_max),
                best matches Some((lo, hi)) ==> {
                    &&& exists|k: int| 0 <= k < i && counts_in(self@, k, x_min, x_max)
                        && self@[k].value == Some(lo)
                    &&& exists|k: int| 0 <= k < i && counts_in(self@, k, x_min, x_max)
                        && self@[k].value == Some(hi)
                    &&& forall|k: int| 0 <= k < i && counts_in(self@, k, x_min, x_max)
                        ==> lo <= self@[k].value->0 <= hi
                },
            decreases n - i,
        {
            let p = self.buf[i];
            let ghost prev = best;
            if x_min <= p.t && p.t <= x_max {
                if let Some(y) = p.value {
                    best = match best {
                        None => Some((y, y)),
                        Some((lo, hi)) => Some((if y < lo { y } else { lo }, if y > hi { y } else { hi })),
                    };
                }
            }
            proof {
                let ii = i as int;
                assert(counts_in(self@, ii, x_min, x_max) <==> (x_min <= p.t <= x_max && p.value is Some));
                if counts_in(self@, ii, x_min, x_max) {
                    assert(best is Some);
                    let bb = best->0;
                    assert forall|k: int| 0 <= k < ii + 1 && counts_in(self@, k, x_min, x_max) implies
                        bb.0 <= self@[k].value->0 <= bb.1 by {
                        if k < ii {
                            assert(prev is Some);
                        }
                    }
                    if prev is None {
                        assert(bb.0 == p.value->0);
                    } else {
                        let pp = prev->0;
                        let lo = pp.0;
                        let hi = pp.1;
                        if p.value->0 < lo {
                            assert(counts_in(self@, ii, x_min, x_max) && self@[ii].value == Some(bb.0));
                        } else {
                            let k0 = choose|k: int| 0 <= k < ii && counts_in(self@, k, x_min, x_max) && self@[k].value == Some(lo);
                            assert(0 <= k0 < ii + 1 && counts_in(self@, k0, x_min, x_max) && self@[k0].value == Some(bb.0));
                        }
                        if p.value->0 > hi {
                            assert(counts_in(self@, ii, x_min, x_max) && self@[ii].value == Some(bb.1));
                        } else {
                            let k1 = choose|k: int| 0 <= k < ii && counts_in(self@, k, x_min, x_max) && self@[k].value == Some(hi);
                            assert(0 <= k1 < ii + 1 && counts_in(self@, k1, x_min, x_max) && self@[k1].value == Some(bb.1));
                        }
                    }
                } else {
                    assert(best == prev);
                    assert forall|k: int| 0 <= k < ii + 1 && counts_in(self@, k, x_min, x_max) implies k < ii by {}
                }
            }
            i = i + 1;
        }
        best
    }

    /// The value of the newest sample; `None` when the series is empty or the
    /// newest sample carries no data.
    pub fn last_y(&self) -> (r: Option<i64>)
        ensures
            r == (if self@.len() == 0 {
                None::<i64>
            } else {
                self@.last().value
            }),
    {
        let n = self.buf.len();
        if n == 0 {
            None
        } else {
            self.buf[n - 1].value
        }
    }
}

/// No sample of `s` is later than `t`.
pub open spec fn times_upto(s: Seq<Point>, t: u64) -> bool {
    forall|i: int| 0 <= i < s.len() ==> s[i].t <= t
}

/// Pushing a sample stamped `t` onto samples no later than `t` leaves all
/// samples no later than `t`.
pub proof fn lemma_pushed_times(s: Seq<Point>, p: Point, cap: nat, t: u64)
    requires
        times_upto(s, t),
        p.t <= t,
    ensures
        times_upto(pushed(s, p, cap), t),
{
    let q = s.push(p);
    assert(times_upto(q, t));
}

/// What a series holding `s` holds after `ps` is pushed, in order, with
/// capacity `cap`.
pub open spec fn pushed_all(s: Seq<Point>, ps: Seq<Point>, cap: nat) -> Seq<Point>
    decreases ps.len(),
{
    if ps.len() == 0 {
        s
    } else {
        pushed(pushed_all(s, ps.drop_last(), cap), ps.last(), cap)
    }
}

proof fn lemma_pushed_all_keeps_last(s: Seq<Point>, ps: Seq<Point>, cap: nat)
    requires
        s.len() <= cap,
    ensures
        pushed_all(s, ps, cap) == keep_last(s + ps, cap),
    decreases ps.len(),
{
    if ps.len() == 0 {
        assert(s + ps =~= s);
    } else {
        lemma_pushed_all_keeps_last(s, ps.drop_last(), cap);
        let all = s + ps;
        assert(all.drop_last() =~= s + ps.drop_last());
        assert(all.drop_last().push(ps.last()) =~= all);
        assert(keep_last(keep_last(all.drop_last(), cap).push(ps.last()), cap) =~= keep_last(all, cap));
    }
}

/// Eviction is first-in first-out: once more samples than the capacity have
/// been pushed, a series holds exactly the last `capacity` of them, in the
/// order they were pushed, whatever it held before.
pub proof fn lemma_fifo_eviction(s: Seq<Point>, ps: Seq<Point>, cap: nat)
    requires
        s.len() <= cap,
        ps.len() > cap,
    ensures
        pushed_all(s, ps, cap).len() == cap,
        pushed_all(s, ps, cap) == ps.subrange(ps.len() - cap, ps.len() as int),
{
    lemma_pushed_all_keeps_last(s, ps, cap);
    assert((s + ps).subrange((s + ps).len() - cap, (s + ps).len() as int)
        =~= ps.subrange(ps.len() - cap, ps.len() as int));
}

/// On a time-ordered series the samples at or after `x_min` are time-ordered,
/// all at or after `x_min`, and form one unbroken run that ends with the newest
/// sample: nothing is invented and nothing inside the run is skipped.
pub proof fn lemma_points_after_window(s: Seq<Point>, x_min: u64)
    requires
        time_ordered(s),
    ensures
        time_ordered(at_or_after(s, x_min)),
        forall|i: int| 0 <= i < at_or_after(s, x_min).len() ==> at_or_after(s, x_min)[i].t >= x_min,
        exists|k: int| 0 <= k <= s.len() && at_or_after(s, x_min) == s.subrange(k, s.len() as int),
    decreases s.len(),
{
    let n = s.len() as int;
    if n == 0 {
        assert(at_or_after(s, x_min) == s.subrange(0, 0));
    } else {
        let d = s.drop_last();
        assert(time_ordered(d));
        lemma_points_after_window(d, x_min);
        let k0 = choose|k: int| 0 <= k <= d.len() && at_or_after(d, x_min) == d.subrange(k, d.len() as int);
        if s.last().t >= x_min {
            assert(d.subrange(k0, n - 1).push(s.last()) =~= s.subrange(k0, n));
            assert(at_or_after(s, x_min) == s.subrange(k0, n));
        } else {
            if k0 < n - 1 {
                assert(at_or_after(d, x_min)[0] == s[k0]);
                assert(s[k0].t <= s[n - 1].t);
            }
            assert(at_or_after(s, x_min) =~= s.subrange(n, n));
        }
    }
}

fn scale_value(y: i64, div: i64) -> (r: i64)
    requires
        div > 0,
    ensures
        r == trunc_div(y as int, div as int),
{
    let a = y as i128;
    let d = div as i128;
    if a >= 0 {
        (a / d) as i64
    } else {
        let na = -a;
        let q = na / d;
        assert(q <= na) by (nonlinear_arith)
            requires d >= 1, na >= 0, q == na / d;
        (-q) as i64
    }
}

} // verus!

use crate::series::{lemma_pushed_times, pushed, times_upto, Point, RollingSeries};
use vstd::prelude::*;

verus! {

/// Everything read from the host for one tick. Utilization values are in
/// milli-percent, frequencies in kHz, raw temperatures as the sensor gives
/// them, accelerator temperature in milli-degrees and clocks in MHz. `None`
/// marks a read that failed.
pub struct TickInput {
    pub core_usage: Vec<u32>,
    pub mem_used: u64,
    pub mem_total: u64,
    pub freq_khz: Vec<Option<i64>>,
    pub temps_raw: Vec<Option<i64>>,
    pub gpu_metrics: Option<(i64, i64, i64)>,
    pub gpu_clocks: Option<(i64, i64, i64, i64)>,
}

/// The sum of a sequence of readings.
pub open spec fn total(s: Seq<u32>) -> int
    decreases s.len(),
{
    if s.len() == 0 {
        0
    } else {
        total(s.drop_last()) + s.last()
    }
}

/// The mean utilization over all cores, rounded down; `None` without cores.
pub open spec fn mean_usage(s: Seq<u32>) -> Option<i64> {
    if s.len() == 0 {
        None
    } else {
        Some((total(s) / (s.len() as int)) as i64)
    }
}

/// Memory in use as milli-percent of the total, with use capped at the total;
/// zero when the total is zero.
pub open spec fn mem_milli_percent(used: u64, tot: u64) -> i64 {
    if tot == 0 {
        0
    } else {
        ((if used <= tot { used as int } else { tot as int }) * 100_000 / (tot as int)) as i64
    }
}

/// A raw temperature in milli-degrees: values above one thousand are already
/// milli-degrees, others whole degrees. `None` where the product overflows.
pub open spec fn temp_milli(raw: i64) -> Option<i64> {
    if raw > 1000 {
        Some(raw)
    } else if raw * 1000 >= i64::MIN {
        Some((raw * 1000) as i64)
    } else {
        None
    }
}

/// What the `k`-th series of a list holds after a tick that read `v` for it.
pub open spec fn after_read(s: RollingSeries, v: Option<i64>, t: u64) -> Seq<Point> {
    match v {
        Some(x) => pushed(s@, Point { t, value: Some(x) }, s.capacity()),
        None => s@,
    }
}

/// `s` with a sample of value `v` stamped `t` pushed, when there is a value.
pub open spec fn push_opt(s: Seq<Point>, v: Option<i64>, t: u64, cap: nat) -> Seq<Point> {
    match v {
        Some(x) => pushed(s, Point { t, value: Some(x) }, cap),
        None => s,
    }
}

/// The accelerator temperature that temperature channel `k` receives: the
/// one read, when `k` is the accelerator's channel and a reading came.
pub open spec fn accel_temp_for(k: int, slot: Option<usize>, metrics: Option<(i64, i64, i64)>) -> Option<i64> {
    match (slot, metrics) {
        (Some(i), Some(m)) => if i as int == k { Some(m.2) } else { None },
        _ => None,
    }
}

/// The entry `k` of `v`, or `None` past its end.
pub open spec fn entry(v: Seq<Option<i64>>, k: int) -> Option<i64> {
    if 0 <= k < v.len() {
        v[k]
    } else {
        None
    }
}

/// The raw temperature at `k` of `v`, normalized to milli-degrees.
pub open spec fn temp_entry(v: Seq<Option<i64>>, k: int) -> Option<i64> {
    match entry(v, k) {
        Some(raw) => temp_milli(raw),
        None => None,
    }
}

fn mean_exec(s: &Vec<u32>) -> (r: Option<i64>)
    ensures
        r == mean_usage(s@),
{
    let n = s.len();
    if n == 0 {
        return None;
    }
    let mut sum: u128 = 0;
    let mut i: usize = 0;
    while i < n
        invariant
            n == s@.len(),
            i <= n,
            sum == total(s@.subrange(0, i as int)),
            sum <= i * 0xffff_ffff,
        decreases n - i,
    {
        assert(s@.subrange(0, i + 1).drop_last() =~= s@.subrange(0, i as int));
        sum = sum + s[i] as u128;
        i = i + 1;
    }
    assert(s@.subrange(0, n as int) =~= s@);
    let d = n as u128;
    let m = sum / d;
    assert(m <= 0xffff_ffff) by (nonlinear_arith)
        requires m == sum / d, sum <= d * 0xffff_ffff, d > 0;
    Some(m as i64)
}

fn mem_exec(used: u64, tot: u64) -> (r: i64)
    ensures
        r == mem_milli_percent(used, tot),
{
    if tot == 0 {
        return 0;
    }
    let u: u128 = if used <= tot { used as u128 } else { tot as u128 };
    let d = tot as u128;
    let q = u * 100_000 / d;
    assert(q <= 100_000) by (nonlinear_arith)
        requires q == (u * 100_000) / (d as int), u <= d, d > 0;
    q as i64
}

/// A raw temperature in milli-degrees (see `temp_milli`).
pub fn normalize_temp(raw: i64) -> (r: Option<i64>)
    ensures
        r == temp_milli(raw),
{
    if raw > 1000 {
        Some(raw)
    } else if raw >= i64::MIN / 1000 {
        Some(raw * 1000)
    } else {
        None
    }
}

/// The sampling engine: a virtual clock that advances by a fixed period on
/// every tick, and the series that each tick feeds.
pub struct Telemetry {
    period_ms: u64,
    elapsed_ms: u64,
    ticks: u64,
    cpu_util: RollingSeries,
    ram_util: RollingSeries,
    gpu_util: RollingSeries,
    vram_util: RollingSeries,
    gpu_temp_idx: Option<usize>,
    freq: Vec<RollingSeries>,
    temps: Vec<RollingSeries>,
    gpu_clk_graphics: RollingSeries,
    gpu_clk_sm: RollingSeries,
    gpu_clk_mem: RollingSeries,
    gpu_clk_video: RollingSeries,
}

/// A series that is well formed and holds nothing later than `t`.
pub open spec fn series_ok(s: RollingSeries, t: u64) -> bool {
    s.wf() && times_upto(s@, t)
}

impl Telemetry {
    pub closed spec fn period(&self) -> u64 {
        self.period_ms
    }

    pub closed spec fn now(&self) -> u64 {
        self.elapsed_ms
    }

    pub closed spec fn tick_count(&self) -> nat {
        self.ticks as nat
    }

    pub closed spec fn cpu(&self) -> RollingSeries {
        self.cpu_util
    }

    pub closed spec fn ram(&self) -> RollingSeries {
        self.ram_util
    }

    pub closed spec fn gpu(&self) -> RollingSeries {
        self.gpu_util
    }

    pub closed spec fn vram(&self) -> RollingSeries {
        self.vram_util
    }

    /// The temperature channel that receives the accelerator's temperature.
    pub closed spec fn gpu_temp_slot(&self) -> Option<usize> {
        self.gpu_temp_idx
    }

    pub closed spec fn clocks(&self) -> Seq<RollingSeries> {
        seq![self.gpu_clk_graphics, self.gpu_clk_sm, self.gpu_clk_mem, self.gpu_clk_video]
    }

    pub closed spec fn freqs(&self) -> Seq<RollingSeries> {
        self.freq@
    }

    pub closed spec fn temperatures(&self) -> Seq<RollingSeries> {
        self.temps@
    }

    pub closed spec fn wf(&self) -> bool {
        let t = self.elapsed_ms;
        &&& self.period_ms > 0
        &&& self.elapsed_ms == self.ticks * self.period_ms
        &&& series_ok(self.cpu_util, t)
        &&& series_ok(self.ram_util, t)
        &&& series_ok(self.gpu_util, t)
        &&& series_ok(self.vram_util, t)
        &&& series_ok(self.gpu_clk_graphics, t)
        &&& series_ok(self.gpu_clk_sm, t)
        &&& series_ok(self.gpu_clk_mem, t)
        &&& series_ok(self.gpu_clk_video, t)
        &&& forall|k: int| 0 <= k < self.freq@.len() ==> series_ok(#[trigger] self.freq@[k], t)
        &&& forall|k: int| 0 <= k < self.temps@.len() ==> series_ok(#[trigger] self.temps@[k], t)
    }

    /// An engine with `n_freq` frequency and `n_temp` temperature channels,
    /// each series keeping `cap` samples, ticking every `period_ms`; the
    /// accelerator's temperature goes to temperature channel `gpu_temp_idx`.
    pub fn new(cap: usize, period_ms: u64, n_freq: usize, n_temp: usize, gpu_temp_idx: Option<usize>) -> (r: Self)
        requires
            period_ms > 0,
        ensures
            r.wf(),
            r.period() == period_ms,
            r.now() == 0,
            r.tick_count() == 0,
            r.freqs().len() == n_freq,
            r.temperatures().len() == n_temp,
            r.cpu()@.len() == 0,
            r.ram()@.len() == 0,
            r.gpu()@.len() == 0,
            r.vram()@.len() == 0,
            r.gpu_temp_slot() == gpu_temp_idx,
            forall|k: int| 0 <= k < 4 ==> (#[trigger] r.clocks()[k])@.len() == 0,
            forall|k: int| 0 <= k < n_freq ==> (#[trigger] r.freqs()[k])@.len() == 0,
            forall|k: int| 0 <= k < n_temp ==> (#[trigger] r.temperatures()[k])@.len() == 0,
            r.cpu().capacity() == cap,
            r.ram().capacity() == cap,
            r.gpu().capacity() == cap,
            r.vram().capacity() == cap,
            forall|k: int| 0 <= k < 4 ==> (#[trigger] r.clocks()[k]).capacity() == cap,
            forall|k: int| 0 <= k < n_freq ==> (#[trigger] r.freqs()[k]).capacity() == cap,
            forall|k: int| 0 <= k < n_temp ==> (#[trigger] r.temperatures()[k]).capacity() == cap,
    {
        let freq = empty_series(cap, n_freq);
        let temps = empty_series(cap, n_temp);
        Telemetry {
            period_ms,
            elapsed_ms: 0,
            ticks: 0,
            cpu_util: RollingSeries::new(cap),
            ram_util: RollingSeries::new(cap),
            gpu_util: RollingSeries::new(cap),
            vram_util: RollingSeries::new(cap),
            gpu_temp_idx,
            freq,
            temps,
            gpu_clk_graphics: RollingSeries::new(cap),
            gpu_clk_sm: RollingSeries::new(cap),
            gpu_clk_mem: RollingSeries::new(cap),
            gpu_clk_video: RollingSeries::new(cap),
        }
    }

    /// The time of the last tick, in milliseconds.
    pub fn now_ms(&self) -> (r: u64)
        ensures
            r == self.now(),
    {
        self.elapsed_ms
    }

    /// The number of ticks so far.
    pub fn ticks(&self) -> (r: u64)
        ensures
            r == self.tick_count(),
    {
        self.ticks
    }

    /// Whether one more tick keeps the clock within `u64`.
    pub fn can_tick(&self) -> (r: bool)
        ensures
            r == (self.now() + self.period() <= u64::MAX),
    {
        self.elapsed_ms <= u64::MAX - self.period_ms
    }

    pub fn cpu_util(&self) -> (r: &RollingSeries)
        ensures
            *r == self.cpu(),
    {
        &self.cpu_util
    }

    pub fn ram_util(&self) -> (r: &RollingSeries)
        ensures
            *r == self.ram(),
    {
        &self.ram_util
    }

    pub fn gpu_util(&self) -> (r: &RollingSeries)
        ensures
            *r == self.gpu(),
    {
        &self.gpu_util
    }

    pub fn vram_util(&self) -> (r: &RollingSeries)
        ensures
            *r == self.vram(),
    {
        &self.vram_util
    }

    /// The temperature channel that receives the accelerator's temperature.
    pub fn gpu_temp_index(&self) -> (r: Option<usize>)
        ensures
            r == self.gpu_temp_slot(),
    {
        self.gpu_temp_idx
    }

    /// The accelerator clock series: 0 graphics, 1 streaming, 2 memory, 3 video.
    pub fn gpu_clock(&self, k: usize) -> (r: &RollingSeries)
        requires
            k < 4,
        ensures
            *r == self.clocks()[k as int],
    {
        if k == 0 {
            &self.gpu_clk_graphics
        } else if k == 1 {
            &self.gpu_clk_sm
        } else if k == 2 {
            &self.gpu_clk_mem
        } else {
            &self.gpu_clk_video
        }
    }

    pub fn freq_count(&self) -> (r: usize)
        ensures
            r == self.freqs().len(),
    {
        self.freq.len()
    }

    pub fn freq_series(&self, k: usize) -> (r: &RollingSeries)
        requires
            k < self.freqs().len(),
        ensures
            *r == self.freqs()[k as int],
    {
        &self.freq[k]
    }

    pub fn temp_count(&self) -> (r: usize)
        ensures
            r == self.temperatures().len(),
    {
        self.temps.len()
    }

    pub fn temp_series(&self, k: usize) -> (r: &RollingSeries)
        requires
            k < self.temperatures().len(),
        ensures
            *r == self.temperatures()[k as int],
    {
        &self.temps[k]
    }

    /// One sampling step. The clock advances by exactly one period; CPU and
    /// memory utilization are pushed; each frequency and temperature channel
    /// whose read succeeded gets its value (a failed read leaves the channel
    /// as it was); the accelerator's utilization channels get its readings, or
    /// a no-data sample when it gave none, its temperature goes to the
    /// accelerator's temperature channel, and its clocks get theirs, when it
    /// gave them.
    pub fn tick(&mut self, input: &TickInput)
        requires
            old(self).wf(),
            old(self).now() + old(self).period() <= u64::MAX,
        ensures
            final(self).wf(),
            final(self).period() == old(self).period(),
            final(self).now() == old(self).now() + old(self).period(),
            final(self).tick_count() == old(self).tick_count() + 1,
            final(self).now() == final(self).tick_count() * final(self).period(),
            final(self).cpu()@ == pushed(
                old(self).cpu()@,
                Point { t: final(self).now(), value: mean_usage(input.core_usage@) },
                old(self).cpu().capacity(),
            ),
            final(self).cpu().capacity() == old(self).cpu().capacity(),
            final(self).ram()@ == pushed(
                old(self).ram()@,
                Point { t: final(self).now(), value: Some(mem_milli_percent(input.mem_used, input.mem_total)) },
                old(self).ram().capacity(),
            ),
            final(self).ram().capacity() == old(self).ram().capacity(),
            final(self).freqs().len() == old(self).freqs().len(),
            forall|k: int|
                0 <= k < old(self).freqs().len() ==> (#[trigger] final(self).freqs()[k])@ == after_read(
                    old(self).freqs()[k],
                    entry(input.freq_khz@, k),
                    final(self).now(),
                ) && final(self).freqs()[k].capacity() == old(self).freqs()[k].capacity(),
            final(self).temperatures().len() == old(self).temperatures().len(),
            forall|k: int|
                0 <= k < old(self).temperatures().len() ==> (#[trigger] final(self).temperatures()[k])@
                    == push_opt(
                    after_read(old(self).temperatures()[k], temp_entry(input.temps_raw@, k), final(self).now()),
                    accel_temp_for(k, old(self).gpu_temp_slot(), input.gpu_metrics),
                    final(self).now(),
                    old(self).temperatures()[k].capacity(),
                ) && final(self).temperatures()[k].capacity() == old(self).temperatures()[k].capacity(),
            final(self).gpu_temp_slot() == old(self).gpu_temp_slot(),
            final(self).gpu()@ == pushed(
                old(self).gpu()@,
                Point {
                    t: final(self).now(),
                    value: match input.gpu_metrics {
                        Some(m) => Some(m.0),
                        None => None,
                    },
                },
                old(self).gpu().capacity(),
            ),
            final(self).gpu().capacity() == old(self).gpu().capacity(),
            final(self).vram()@ == pushed(
                old(self).vram()@,
                Point {
                    t: final(self).now(),
                    value: match input.gpu_metrics {
                        Some(m) => Some(m.1),
                        None => None,
                    },
                },
                old(self).vram().capacity(),
            ),
            final(self).vram().capacity() == old(self).vram().capacity(),
            forall|k: int|
                0 <= k < 4 ==> (#[trigger] final(self).clocks()[k])@ == after_read(
                    old(self).clocks()[k],
                    match input.gpu_clocks {
                        Some(c) => Some(if k == 0 { c.0 } else if k == 1 { c.1 } else if k == 2 { c.2 } else { c.3 }),
                        None => None,
                    },
                    final(self).now(),
                ) && final(self).clocks()[k].capacity() == old(self).clocks()[k].capacity(),
    {
        let t0 = self.elapsed_ms;
        self.elapsed_ms = self.elapsed_ms + self.period_ms;
        let ghost n0 = self.ticks;
        assert((n0 + 1) * self.period_ms == n0 * self.period_ms + self.period_ms) by (nonlinear_arith);
        assert(n0 < u64::MAX) by (nonlinear_arith)
            requires
                n0 * self.period_ms + self.period_ms <= u64::MAX,
                self.period_ms > 0;
        self.ticks = self.ticks + 1;
        let t = self.elapsed_ms;

        push_ok(&mut self.cpu_util, t0, t, mean_exec(&input.core_usage));
        push_ok(&mut self.ram_util, t0, t, Some(mem_exec(input.mem_used, input.mem_total)));

        push_each(&mut self.freq, t0, t, &input.freq_khz, false);
        push_each(&mut self.temps, t0, t, &input.temps_raw, true);

        match input.gpu_metrics {
            Some((u, m, temp)) => {
                push_ok(&mut self.gpu_util, t0, t, Some(u));
                push_ok(&mut self.vram_util, t0, t, Some(m));
                if let Some(k) = self.gpu_temp_idx {
                    if k < self.temps.len() {
                        push_at(&mut self.temps, k, t, temp);
                    }
                }
            },
            None => {
                push_ok(&mut self.gpu_util, t0, t, None);
                push_ok(&mut self.vram_util, t0, t, None);
            },
        }
        match input.gpu_clocks {
            Some((g, sm, m, v)) => {
                push_ok(&mut self.gpu_clk_graphics, t0, t, Some(g));
                push_ok(&mut self.gpu_clk_sm, t0, t, Some(sm));
                push_ok(&mut self.gpu_clk_mem, t0, t, Some(m));
                push_ok(&mut self.gpu_clk_video, t0, t, Some(v));
            },
            None => {
                proof {
                    raise_bound(&self.gpu_clk_graphics, t0, t);
                }
                proof {
                    raise_bound(&self.gpu_clk_sm, t0, t);
                }
                proof {
                    raise_bound(&self.gpu_clk_mem, t0, t);
                }
                proof {
                    raise_bound(&self.gpu_clk_video, t0, t);
                }
            },
        }
    }
}

/// Pushes `x` stamped `t` onto the series at `k`.
fn push_at(v: &mut Vec<RollingSeries>, k: usize, t: u64, x: i64)
    requires
        k < old(v)@.len(),
        forall|j: int| 0 <= j < old(v)@.len() ==> series_ok(#[trigger] old(v)@[j], t),
    ensures
        final(v)@.len() == old(v)@.len(),
        forall|j: int| 0 <= j < final(v)@.len() ==> series_ok(#[trigger] final(v)@[j], t),
        forall|j: int|
            0 <= j < old(v)@.len() ==> (#[trigger] final(v)@[j])@ == (if j == k {
                pushed(old(v)@[j]@, Point { t, value: Some(x) }, old(v)@[j].capacity())
            } else {
                old(v)@[j]@
            }) && final(v)@[j].capacity() == old(v)@[j].capacity(),
{
    let ghost before = v@;
    let mut s = v.remove(k);
    push_ok(&mut s, t, t, Some(x));
    v.insert(k, s);
    assert(v@ =~= before.update(k as int, s));
}

fn empty_series(cap: usize, n: usize) -> (r: Vec<RollingSeries>)
    ensures
        r@.len() == n,
        forall|k: int| 0 <= k < n ==> series_ok(#[trigger] r@[k], 0),
        forall|k: int| 0 <= k < n ==> (#[trigger] r@[k])@.len() == 0 && r@[k].capacity() == cap,
{
    let mut r: Vec<RollingSeries> = Vec::new();
    let mut i: usize = 0;
    while i < n
        invariant
            i <= n,
            r@.len() == i,
            forall|k: int| 0 <= k < i ==> series_ok(#[trigger] r@[k], 0),
            forall|k: int| 0 <= k < i ==> (#[trigger] r@[k])@.len() == 0 && r@[k].capacity() == cap,
        decreases n - i,
    {
        r.push(RollingSeries::new(cap));
        i = i + 1;
    }
    r
}

proof fn raise_bound(s: &RollingSeries, t0: u64, t: u64)
    requires
        series_ok(*s, t0),
        t0 <= t,
    ensures
        series_ok(*s, t),
{
}

fn push_ok(s: &mut RollingSeries, t0: u64, t: u64, v: Option<i64>)
    requires
        series_ok(*old(s), t0),
        t0 <= t,
    ensures
        series_ok(*final(s), t),
        final(s)@ == pushed(old(s)@, Point { t, value: v }, old(s).capacity()),
        final(s).capacity() == old(s).capacity(),
{
    proof {
        if s@.len() > 0 {
            assert(s@.last().t <= t0);
        }
        lemma_pushed_times(s@, Point { t, value: v }, s.capacity(), t);
    }
    s.push(t, v);
}

/// Pushes the reading at each position of `vals` (normalized as a temperature
/// when `as_temp`) onto the series at the same position, where it is present.
fn push_each(v: &mut Vec<RollingSeries>, t0: u64, t: u64, vals: &Vec<Option<i64>>, as_temp: bool)
    requires
        forall|k: int| 0 <= k < old(v)@.len() ==> series_ok(#[trigger] old(v)@[k], t0),
        t0 <= t,
    ensures
        final(v)@.len() == old(v)@.len(),
        forall|k: int| 0 <= k < final(v)@.len() ==> series_ok(#[trigger] final(v)@[k], t),
        forall|k: int|
            0 <= k < old(v)@.len() ==> (#[trigger] final(v)@[k])@ == after_read(
                old(v)@[k],
                if as_temp { temp_entry(vals@, k) } else { entry(vals@, k) },
                t,
            ) && final(v)@[k].capacity() == old(v)@[k].capacity(),
{
    let n = v.len();
    let ghost orig = v@;
    let mut i: usize = 0;
    while i < n
        invariant
            n == v@.len(),
            n == orig.len(),
            t0 <= t,
            i <= n,
            forall|k: int| 0 <= k < i ==> series_ok(#[trigger] v@[k], t),
            forall|k: int| i <= k < n ==> #[trigger] v@[k] == orig[k],
            forall|k: int| 0 <= k < n ==> series_ok(#[trigger] orig[k], t0),
            forall|k: int|
                0 <= k < i ==> (#[trigger] v@[k])@ == after_read(
                    orig[k],
                    if as_temp { temp_entry(vals@, k) } else { entry(vals@, k) },
                    t,
                ) && v@[k].capacity() == orig[k].capacity(),
        decreases n - i,
    {
        let raw: Option<i64> = if i < vals.len() { vals[i] } else { None };
        let reading = if as_temp {
            match raw {
                Some(x) => normalize_temp(x),
                None => None,
            }
        } else {
            raw
        };
        let ghost before = v@;
        let mut s = v.remove(i);
        assert(s == orig[i as int]);
        match reading {
            Some(x) => push_ok(&mut s, t0, t, Some(x)),
            None => {
                proof {
                    raise_bound(&s, t0, t);
                }
            },
        }
        v.insert(i, s);
        assert(v@ =~= before.update(i as int, s));
        i = i + 1;
    }
}

} // verus!

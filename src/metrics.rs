use metrics_util::AtomicBucket;
use vstd::multiset::Multiset;
use vstd::prelude::*;

verus! {

/// The sum of two `u64` values, taken modulo `2^64`.
pub open spec fn wrapped_add(a: u64, b: u64) -> u64 {
    if a + b <= u64::MAX {
        (a + b) as u64
    } else {
        (a + b - (u64::MAX + 1)) as u64
    }
}

/// The difference of two `u64` values, taken modulo `2^64`.
pub open spec fn wrapped_sub(a: u64, b: u64) -> u64 {
    if a >= b {
        (a - b) as u64
    } else {
        (a - b + (u64::MAX + 1)) as u64
    }
}

fn add_wrapping(a: u64, b: u64) -> (r: u64)
    ensures
        r == wrapped_add(a, b),
{
    if b <= u64::MAX - a {
        a + b
    } else {
        b - (u64::MAX - a) - 1
    }
}

fn sub_wrapping(a: u64, b: u64) -> (r: u64)
    ensures
        r == wrapped_sub(a, b),
{
    if a >= b {
        a - b
    } else {
        u64::MAX - (b - a) + 1
    }
}

/// A monotonically increasing counter.
pub struct Counter {
    value: u64,
}

impl View for Counter {
    type V = u64;

    closed spec fn view(&self) -> u64 {
        self.value
    }
}

impl Counter {
    /// A counter that starts at zero.
    pub fn new() -> (r: Counter)
        ensures
            r@ == 0,
    {
        Counter { value: 0 }
    }

    /// Increases the counter by `val`, wrapping around at `u64::MAX`.
    pub fn increment(&mut self, val: u64)
        ensures
            final(self)@ == wrapped_add(old(self)@, val),
    {
        self.value = add_wrapping(self.value, val);
    }

    /// The current value of the counter.
    pub fn read(&self) -> (r: u64)
        ensures
            r == self@,
    {
        self.value
    }
}

/// A gauge of whole numbers that can be set, increased and decreased.
pub struct DiscreteGauge {
    value: u64,
}

impl View for DiscreteGauge {
    type V = u64;

    closed spec fn view(&self) -> u64 {
        self.value
    }
}

impl DiscreteGauge {
    /// A gauge that starts at zero.
    pub fn new() -> (r: DiscreteGauge)
        ensures
            r@ == 0,
    {
        DiscreteGauge { value: 0 }
    }

    /// Overwrites the value of the gauge.
    pub fn set(&mut self, val: u64)
        ensures
            final(self)@ == val,
    {
        self.value = val;
    }

    /// Increases the gauge by `val`, wrapping around at `u64::MAX`.
    pub fn increase(&mut self, val: u64)
        ensures
            final(self)@ == wrapped_add(old(self)@, val),
    {
        self.value = add_wrapping(self.value, val);
    }

    /// Decreases the gauge by `val`, wrapping around below zero.
    pub fn decrease(&mut self, val: u64)
        ensures
            final(self)@ == wrapped_sub(old(self)@, val),
    {
        self.value = sub_wrapping(self.value, val);
    }

    /// The current value of the gauge.
    pub fn read(&self) -> (r: u64)
        ensures
            r == self@,
    {
        self.value
    }
}

/// A gauge of real numbers, held as the bit pattern of an IEEE 754 double.
pub struct Gauge {
    bits: u64,
}

impl View for Gauge {
    type V = u64;

    closed spec fn view(&self) -> u64 {
        self.bits
    }
}

impl Gauge {
    /// A gauge that starts at the bit pattern of `0.0`, which is all zeros.
    pub fn new() -> (r: Gauge)
        ensures
            r@ == 0,
    {
        Gauge { bits: 0 }
    }

    /// Overwrites the bit pattern held by the gauge.
    pub fn store(&mut self, bits: u64)
        ensures
            final(self)@ == bits,
    {
        self.bits = bits;
    }

    /// The bit pattern currently held by the gauge.
    pub fn read(&self) -> (r: u64)
        ensures
            r == self@,
    {
        self.bits
    }
}

#[verifier::external_type_specification]
#[verifier::external_body]
#[verifier::reject_recursive_types(T)]
pub struct ExAtomicBucket<T>(AtomicBucket<T>);

/// The samples held by a bucket; the bucket hands them out in no fixed order.
pub uninterp spec fn bucket_items(b: AtomicBucket<u64>) -> Multiset<u64>;

/// Relies on `AtomicBucket::new`: a new bucket holds no sample.
#[verifier::external_body]
fn bucket_new() -> (r: AtomicBucket<u64>)
    ensures
        bucket_items(r) =~= Multiset::empty(),
{
    AtomicBucket::new()
}

/// Relies on `AtomicBucket::push`: the value is added to the samples.
#[verifier::external_body]
fn bucket_push(b: &mut AtomicBucket<u64>, value: u64)
    ensures
        bucket_items(*final(b)) =~= bucket_items(*old(b)).insert(value),
{
    b.push(value)
}

/// Relies on `AtomicBucket::clear`: every sample is dropped.
#[verifier::external_body]
fn bucket_clear(b: &mut AtomicBucket<u64>)
    ensures
        bucket_items(*final(b)) =~= Multiset::empty(),
{
    b.clear()
}

/// Relies on `AtomicBucket::data`: a copy of every sample, once each.
#[verifier::external_body]
fn bucket_data(b: &AtomicBucket<u64>) -> (r: Vec<u64>)
    ensures
        r@.to_multiset() =~= bucket_items(*b),
{
    b.data()
}

/// What a histogram holds: its retention window in seconds, the second at
/// which the current window started, and the samples of that window.
pub ghost struct HistogramView {
    pub retention: u64,
    pub started: u64,
    pub samples: Multiset<u64>,
}

/// Whether the window of `h` has run out at second `now`.
pub open spec fn window_expired(h: HistogramView, now: u64) -> bool {
    now >= h.started && now - h.started >= h.retention
}

/// The histogram after the expiry check made at second `now`: an expired
/// window is dropped and a new one starts at `now`.
pub open spec fn after_expiry_check(h: HistogramView, now: u64) -> HistogramView {
    if window_expired(h, now) {
        HistogramView { retention: h.retention, started: now, samples: Multiset::empty() }
    } else {
        h
    }
}

/// The histogram after `sample` was inserted at second `now`.
pub open spec fn after_insert(h: HistogramView, sample: u64, now: u64) -> HistogramView {
    let c = after_expiry_check(h, now);
    HistogramView { retention: c.retention, started: c.started, samples: c.samples.insert(sample) }
}

/// A sample inserted once the retention window has run out since an earlier
/// one is alone in the histogram afterwards: where `first` was inserted at
/// second `t0` and `second` at a second `t1` at least a full, non-empty window
/// later, a read at `t1` holds `second` only. Time is taken not to run
/// backwards from the window's start.
pub proof fn lemma_window_rollover(h: HistogramView, first: u64, second: u64, t0: u64, t1: u64)
    requires
        h.started <= t0,
        t0 + h.retention <= t1,
        h.retention > 0,
    ensures
        after_expiry_check(after_insert(after_insert(h, first, t0), second, t1), t1).samples
            =~= Multiset::singleton(second),
{
    let a = after_insert(h, first, t0);
    assert(a.started <= t0);
    assert(window_expired(a, t1));
    let b = after_insert(a, second, t1);
    assert(b.samples =~= Multiset::empty().insert(second));
    assert(!window_expired(b, t1));
}

/// A histogram of samples kept for a retention window. Samples are the bit
/// patterns of IEEE 754 doubles. The window is checked lazily, whenever the
/// histogram is written or read, against the time handed in by the caller.
pub struct Histogram {
    retention: u64,
    started: u64,
    bucket: AtomicBucket<u64>,
}

impl View for Histogram {
    type V = HistogramView;

    closed spec fn view(&self) -> HistogramView {
        HistogramView {
            retention: self.retention,
            started: self.started,
            samples: bucket_items(self.bucket),
        }
    }
}

impl Histogram {
    /// An empty histogram whose window lasts `retention` seconds and has
    /// started at second zero.
    pub fn new(retention: u64) -> (r: Histogram)
        ensures
            r@ == (HistogramView { retention, started: 0, samples: Multiset::empty() }),
    {
        Histogram { retention, started: 0, bucket: bucket_new() }
    }

    /// The retention window, in seconds.
    pub fn retention(&self) -> (r: u64)
        ensures
            r == self@.retention,
    {
        self.retention
    }

    fn clear_if_timeout(&mut self, now: u64)
        ensures
            final(self)@ == after_expiry_check(old(self)@, now),
    {
        if now >= self.started && now - self.started >= self.retention {
            self.started = now;
            bucket_clear(&mut self.bucket);
        }
    }

    /// Adds a sample at second `now`, first dropping an expired window.
    pub fn insert(&mut self, sample: u64, now: u64)
        ensures
            final(self)@ == after_insert(old(self)@, sample, now),
    {
        self.clear_if_timeout(now);
        bucket_push(&mut self.bucket, sample);
    }

    /// The samples of the window current at second `now`, first dropping an
    /// expired window.
    pub fn read(&mut self, now: u64) -> (r: Vec<u64>)
        ensures
            final(self)@ == after_expiry_check(old(self)@, now),
            r@.to_multiset() == final(self)@.samples,
    {
        self.clear_if_timeout(now);
        bucket_data(&self.bucket)
    }
}

} // verus!

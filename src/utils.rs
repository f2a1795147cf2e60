use vstd::prelude::*;

verus! {

/// Samples at least this old, in nanoseconds, leave the window (ten seconds).
pub const WINDOW_NANOS: u64 = 10_000_000_000;

/// Nanoseconds in one second.
pub const NANOS_PER_SEC: u64 = 1_000_000_000;

#[verifier::external_type_specification]
#[verifier::external_body]
pub struct ExInstant(std::time::Instant);

/// Relies on Instant::now: reads the monotonic clock; nothing is known of the value.
pub assume_specification[ std::time::Instant::now ]() -> std::time::Instant;

/// Relies on Instant::elapsed: the time since the instant; nothing is known of
/// the value.
pub assume_specification[ std::time::Instant::elapsed ](
    instant: &std::time::Instant,
) -> std::time::Duration;

/// Relies on Duration::as_nanos: the whole duration in nanoseconds; nothing is
/// known of the value.
pub assume_specification[ core::time::Duration::as_nanos ](d: &core::time::Duration) -> u128;

/// Nanoseconds since `origin` by the monotonic clock, capped at u64::MAX.
fn nanos_since(origin: &std::time::Instant) -> u64 {
    let n = origin.elapsed().as_nanos();
    if n > u64::MAX as u128 {
        u64::MAX
    } else {
        n as u64
    }
}

/// How long ago, in nanoseconds, a sample taken at `at` was taken, seen at
/// `now`; a sample from the future counts as taken now.
pub open spec fn age(at: u64, now: u64) -> nat {
    if at <= now {
        (now - at) as nat
    } else {
        0
    }
}

/// Whether a sample `(at, bytes)` is still inside the window at `now`.
pub open spec fn is_fresh(s: (u64, u64), now: u64) -> bool {
    age(s.0, now) < WINDOW_NANOS
}

/// The samples of `s` that are still inside the window at `now`, in order.
pub open spec fn retained(s: Seq<(u64, u64)>, now: u64) -> Seq<(u64, u64)>
    decreases s.len(),
{
    if s.len() == 0 {
        s
    } else {
        let r = retained(s.drop_last(), now);
        if is_fresh(s.last(), now) {
            r.push(s.last())
        } else {
            r
        }
    }
}

/// Whether the samples are ordered by timestamp, oldest first.
pub open spec fn is_time_ordered(s: Seq<(u64, u64)>) -> bool {
    forall|i: int, j: int| 0 <= i < j < s.len() ==> #[trigger] s[i].0 <= #[trigger] s[j].0
}

/// The timestamp under which a sample read at `now` is recorded: `now`, raised
/// to the newest timestamp of `s` if that is later, so that order is kept.
pub open spec fn stamp_for(s: Seq<(u64, u64)>, now: u64) -> u64 {
    if s.len() > 0 && s.last().0 > now {
        s.last().0
    } else {
        now
    }
}

proof fn lemma_retained_ordered(s: Seq<(u64, u64)>, now: u64)
    requires
        is_time_ordered(s),
    ensures
        is_time_ordered(retained(s, now)),
        forall|k: int|
            0 <= k < retained(s, now).len() ==> exists|j: int|
                0 <= j < s.len() && s[j] == #[trigger] retained(s, now)[k],
    decreases s.len(),
{
    if s.len() > 0 {
        let d = s.drop_last();
        assert(is_time_ordered(d)) by {
            assert forall|i: int, j: int| 0 <= i < j < d.len() implies #[trigger] d[i].0
                <= #[trigger] d[j].0 by {
                assert(d[i] == s[i] && d[j] == s[j]);
            }
        }
        lemma_retained_ordered(d, now);
        let r = retained(d, now);
        assert forall|k: int| 0 <= k < r.len() implies exists|j: int|
            0 <= j < s.len() && s[j] == #[trigger] r[k] by {
            let j = choose|j: int| 0 <= j < d.len() && d[j] == r[k];
            assert(s[j] == d[j]);
        }
        if is_fresh(s.last(), now) {
            let r2 = r.push(s.last());
            assert forall|i: int, j: int| 0 <= i < j < r2.len() implies #[trigger] r2[i].0
                <= #[trigger] r2[j].0 by {
                if j == r.len() {
                    let m = choose|m: int| 0 <= m < s.len() && s[m] == r[i];
                    if m < s.len() - 1 {
                        assert(s[m].0 <= s[s.len() - 1].0);
                    }
                } else {
                    assert(r2[i] == r[i] && r2[j] == r[j]);
                }
            }
            assert forall|k: int| 0 <= k < r2.len() implies exists|j: int|
                0 <= j < s.len() && s[j] == #[trigger] r2[k] by {
                if k == r.len() {
                    assert(s[s.len() - 1] == r2[k]);
                } else {
                    assert(r2[k] == r[k]);
                }
            }
        }
    }
}

/// Sum of the byte counts of the samples.
pub open spec fn sum_bytes(s: Seq<(u64, u64)>) -> nat
    decreases s.len(),
{
    if s.len() == 0 {
        0
    } else {
        sum_bytes(s.drop_last()) + s.last().1 as nat
    }
}

/// Time between the first and the last sample, in nanoseconds (none if the
/// last is not later than the first).
pub open spec fn span(s: Seq<(u64, u64)>) -> nat {
    if s.len() == 0 {
        0
    } else {
        age(s[0].0, s.last().0)
    }
}

/// Bytes seen over a stretch of time: the ratio is a throughput.
#[derive(Clone, Copy, Debug, PartialEq, Eq)]
pub struct Throughput {
    pub bytes: u128,
    pub nanos: u64,
}

/// Whether `bytes` over `nanos` is strictly faster than `mib` MiB/s. With no elapsed time the
/// rate is taken as zero.
pub open spec fn rate_above(bytes: nat, nanos: nat, mib: nat) -> bool {
    nanos > 0 && bytes * NANOS_PER_SEC > mib * 1048576 * nanos
}

/// Whether `bytes` over `nanos` is strictly slower than `mib` MiB/s. With no elapsed time the
/// rate is taken as zero.
pub open spec fn rate_below(bytes: nat, nanos: nat, mib: nat) -> bool {
    nanos == 0 || bytes * NANOS_PER_SEC < mib * 1048576 * nanos
}

impl Throughput {
    /// Whether this throughput is strictly faster than `mib` MiB/s.
    pub fn is_above(&self, mib: u32) -> (r: bool)
        ensures
            r == rate_above(self.bytes as nat, self.nanos as nat, mib as nat),
    {
        if self.nanos == 0 {
            false
        } else if self.bytes >= 0x1_0000_0000_0000_0000_0000_0000u128 {
            assert(self.bytes * NANOS_PER_SEC > mib * 1048576 * self.nanos) by (nonlinear_arith)
                requires
                    self.bytes >= 0x1_0000_0000_0000_0000_0000_0000u128,
                    mib <= 0xFFFF_FFFFu32,
                    self.nanos <= 0xFFFF_FFFF_FFFF_FFFFu64,
            ;
            true
        } else {
            assert(self.bytes * NANOS_PER_SEC < 0x1_0000_0000_0000_0000_0000_0000_0000_0000)
                by (nonlinear_arith)
                requires
                    self.bytes < 0x1_0000_0000_0000_0000_0000_0000u128,
            ;
            assert(mib * 1048576 * self.nanos < 0x1_0000_0000_0000_0000_0000_0000_0000_0000)
                by (nonlinear_arith)
                requires
                    mib <= 0xFFFF_FFFFu32,
                    self.nanos <= 0xFFFF_FFFF_FFFF_FFFFu64,
            ;
            self.bytes * (NANOS_PER_SEC as u128) > (mib as u128) * 1048576 * (self.nanos as u128)
        }
    }

    /// Whether this throughput is strictly slower than `mib` MiB/s.
    pub fn is_below(&self, mib: u32) -> (r: bool)
        ensures
            r == rate_below(self.bytes as nat, self.nanos as nat, mib as nat),
    {
        if self.nanos == 0 {
            true
        } else if self.bytes >= 0x1_0000_0000_0000_0000_0000_0000u128 {
            assert(self.bytes * NANOS_PER_SEC > mib * 1048576 * self.nanos) by (nonlinear_arith)
                requires
                    self.bytes >= 0x1_0000_0000_0000_0000_0000_0000u128,
                    mib <= 0xFFFF_FFFFu32,
                    self.nanos <= 0xFFFF_FFFF_FFFF_FFFFu64,
            ;
            false
        } else {
            assert(self.bytes * NANOS_PER_SEC < 0x1_0000_0000_0000_0000_0000_0000_0000_0000)
                by (nonlinear_arith)
                requires
                    self.bytes < 0x1_0000_0000_0000_0000_0000_0000u128,
            ;
            assert(mib * 1048576 * self.nanos < 0x1_0000_0000_0000_0000_0000_0000_0000_0000)
                by (nonlinear_arith)
                requires
                    mib <= 0xFFFF_FFFFu32,
                    self.nanos <= 0xFFFF_FFFF_FFFF_FFFFu64,
            ;
            self.bytes * (NANOS_PER_SEC as u128) < (mib as u128) * 1048576 * (self.nanos as u128)
        }
    }
}

/// The cumulative counter after adding `bytes` to `total`, saturating at u64::MAX.
pub open spec fn counter_after(total: nat, bytes: u64) -> nat {
    if total + bytes <= u64::MAX {
        total + bytes as nat
    } else {
        u64::MAX as nat
    }
}

/// Cumulative byte counter plus the samples of the last ten seconds, from which
/// the current throughput is estimated. Timestamps are nanoseconds since the
/// monitor was made.
pub struct BandwidthMonitor {
    bytes_transferred: u64,
    samples: Vec<(u64, u64)>,
    origin: std::time::Instant,
}

impl BandwidthMonitor {
    /// Every byte recorded so far (saturating at u64::MAX).
    pub closed spec fn total(&self) -> nat {
        self.bytes_transferred as nat
    }

    /// The retained samples `(timestamp, bytes)`, oldest first.
    pub closed spec fn window(&self) -> Seq<(u64, u64)> {
        self.samples@
    }

    /// The window is ordered by timestamp, oldest first.
    pub closed spec fn wf(&self) -> bool {
        is_time_ordered(self.samples@)
    }

    pub fn new() -> (r: Self)
        ensures
            r.wf(),
            r.total() == 0,
            r.window().len() == 0,
    {
        BandwidthMonitor {
            bytes_transferred: 0,
            samples: Vec::new(),
            origin: std::time::Instant::now(),
        }
    }

    /// Every byte recorded so far.
    pub fn bytes_transferred(&self) -> (r: u64)
        ensures
            r == self.total(),
    {
        self.bytes_transferred
    }

    /// Records `bytes` received at `now` (nanoseconds since the monitor was
    /// made; raised to the newest retained timestamp if that is later): adds
    /// them to the counter, appends the sample, then drops every sample ten
    /// seconds or more older than it.
    pub fn record_bytes_at(&mut self, now: u64, bytes: u64)
        requires
            old(self).wf(),
        ensures
            final(self).wf(),
            final(self).total() == counter_after(old(self).total(), bytes),
            final(self).window() == retained(
                old(self).window().push((stamp_for(old(self).window(), now), bytes)),
                stamp_for(old(self).window(), now),
            ),
            final(self).window().len() > 0,
            final(self).window().last() == (stamp_for(old(self).window(), now), bytes),
            forall|k: int|
                0 <= k < final(self).window().len() ==> is_fresh(
                    #[trigger] final(self).window()[k],
                    stamp_for(old(self).window(), now),
                ),
    {
        let len = self.samples.len();
        let now = if len > 0 && self.samples[len - 1].0 > now {
            self.samples[len - 1].0
        } else {
            now
        };
        self.bytes_transferred = self.bytes_transferred.saturating_add(bytes);
        let ghost before = self.samples@;
        self.samples.push((now, bytes));
        let ghost all = self.samples@;
        assert(is_time_ordered(all)) by {
            assert forall|i: int, j: int| 0 <= i < j < all.len() implies #[trigger] all[i].0
                <= #[trigger] all[j].0 by {
                if j == all.len() - 1 && i < before.len() {
                    assert(before[i].0 <= before[before.len() - 1].0 || i == before.len() - 1);
                } else if j < before.len() {
                    assert(all[i] == before[i] && all[j] == before[j]);
                }
            }
        }
        proof {
            lemma_retained_ordered(all, now);
            assert(all.drop_last() =~= before);
        }
        let mut kept: Vec<(u64, u64)> = Vec::new();
        let mut i: usize = 0;
        while i < self.samples.len()
            invariant
                self.samples@ == all,
                0 <= i <= all.len(),
                kept@ == retained(all.take(i as int), now),
                forall|k: int| 0 <= k < kept@.len() ==> is_fresh(#[trigger] kept@[k], now),
            decreases all.len() - i,
        {
            let s = self.samples[i];
            assert(all.take(i + 1).drop_last() =~= all.take(i as int));
            let fresh = if s.0 <= now {
                now - s.0 < WINDOW_NANOS
            } else {
                true
            };
            if fresh {
                kept.push(s);
            }
            i = i + 1;
        }
        assert(all.take(all.len() as int) =~= all);
        self.samples = kept;
    }

    /// Records `bytes` received now; see `record_bytes_at`.
    pub fn record_bytes(&mut self, bytes: u64)
        requires
            old(self).wf(),
        ensures
            final(self).wf(),
            final(self).total() == counter_after(old(self).total(), bytes),
            exists|now: u64|
                final(self).window() == retained(
                    old(self).window().push((stamp_for(old(self).window(), now), bytes)),
                    stamp_for(old(self).window(), now),
                ),
    {
        let now = nanos_since(&self.origin);
        self.record_bytes_at(now, bytes);
    }

    /// Bytes held in the window and the time between its oldest and newest
    /// sample. An empty window gives zero bytes over zero time.
    pub fn throughput(&self) -> (r: Throughput)
        ensures
            r.bytes == sum_bytes(self.window()),
            r.nanos == span(self.window()),
    {
        let n = self.samples.len();
        let mut acc: u128 = 0;
        let mut i: usize = 0;
        while i < n
            invariant
                n == self.samples@.len(),
                0 <= i <= n,
                acc == sum_bytes(self.samples@.take(i as int)),
                acc <= i * 0xFFFF_FFFF_FFFF_FFFFu64,
            decreases n - i,
        {
            let b = self.samples[i].1;
            assert(self.samples@.take(i + 1).drop_last() =~= self.samples@.take(i as int));
            assert(acc + b <= (i + 1) * 0xFFFF_FFFF_FFFF_FFFFu64);
            assert((i + 1) * 0xFFFF_FFFF_FFFF_FFFFu64 <= 0xFFFF_FFFF_FFFF_FFFF_FFFF_FFFF_FFFF_FFFFu128)
                by (nonlinear_arith)
                requires
                    i + 1 <= 0xFFFF_FFFF_FFFF_FFFFu64,
            ;
            acc = acc + b as u128;
            i = i + 1;
        }
        assert(self.samples@.take(n as int) =~= self.samples@);
        let nanos = if n == 0 {
            0
        } else {
            let first = self.samples[0].0;
            let last = self.samples[n - 1].0;
            if first <= last {
                last - first
            } else {
                0
            }
        };
        Throughput { bytes: acc, nanos }
    }
}

/// The last `/`-separated segment of the path of `url` parsed as an absolute
/// URL; none when it does not parse or cannot be a base.
pub uninterp spec fn url_last_segment(url: Seq<char>) -> Option<Seq<char>>;

/// The text held by an optional string.
pub open spec fn opt_text(o: Option<String>) -> Option<Seq<char>> {
    match o {
        Some(x) => Some(x@),
        None => None,
    }
}

/// The file name that a last path segment gives: none for a missing or empty
/// segment.
pub open spec fn filename_of(segment: Option<Seq<char>>) -> Option<Seq<char>> {
    match segment {
        Some(s) => if s.len() == 0 {
            None
        } else {
            Some(s)
        },
        None => None,
    }
}

/// Relies on url::Url::parse, Url::path_segments and the segment iterator's
/// next_back: the last path segment of the URL, if it parses and can be a base.
#[verifier::external_body]
fn last_path_segment(url: &str) -> (r: Option<String>)
    ensures
        opt_text(r) == url_last_segment(url@),
{
    match url::Url::parse(url) {
        Ok(u) => match u.path_segments() {
            Some(mut segments) => segments.next_back().map(|s| s.to_string()),
            None => None,
        },
        Err(_) => None,
    }
}

/// A file name from a URL's last path segment: none when the segment is
/// missing or empty.
pub fn filename_from_segment(segment: Option<String>) -> (r: Option<String>)
    ensures
        opt_text(r) == filename_of(opt_text(segment)),
{
    match segment {
        Some(s) => if s.as_str().is_empty() {
            None
        } else {
            Some(s)
        },
        None => None,
    }
}

/// Derives a file name from the last segment of a URL's path.
pub fn extract_filename(url: &str) -> (r: Option<String>)
    ensures
        opt_text(r) == filename_of(url_last_segment(url@)),
{
    filename_from_segment(last_path_segment(url))
}

} // verus!

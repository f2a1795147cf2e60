use vstd::prelude::*;
use vstd::string::StringExecFns;
use crate::config::DownloadConfig;
use crate::utils::{
    counter_after, rate_above, rate_below, retained, span, stamp_for, sum_bytes, BandwidthMonitor,
    Throughput,
};

verus! {

/// Why a transfer failed. Every failure ends the transfer; none is retried.
#[derive(Clone, Debug, PartialEq, Eq)]
pub enum TransferError {
    /// The HEAD or GET request answered with this non-success status.
    ResourceUnavailable(u16),
    /// A ranged GET answered with this status instead of 206.
    RangeNotHonored(u16),
    /// The transport failed while streaming.
    Network(String),
    /// Creating, sizing, seeking or writing the destination failed.
    Filesystem(String),
    /// A permit of the concurrency limiter could not be had.
    Concurrency(String),
}

/// Status code of a successful partial-content answer.
pub const PARTIAL_CONTENT: u16 = 206;

/// Whether `status` is in the success class 2xx.
pub open spec fn is_success(status: u16) -> bool {
    200 <= status <= 299
}

/// Accepts a HEAD or unranged GET status if it is a success, else reports the
/// resource unavailable.
pub fn check_status(status: u16) -> (r: Result<(), TransferError>)
    ensures
        is_success(status) ==> r == Ok::<(), TransferError>(()),
        !is_success(status) ==> r == Err::<(), TransferError>(
            TransferError::ResourceUnavailable(status),
        ),
{
    if 200 <= status && status <= 299 {
        Ok(())
    } else {
        Err(TransferError::ResourceUnavailable(status))
    }
}

/// Accepts the status of a ranged GET only if it is 206.
pub fn check_range_status(status: u16) -> (r: Result<(), TransferError>)
    ensures
        status == PARTIAL_CONTENT ==> r == Ok::<(), TransferError>(()),
        status != PARTIAL_CONTENT ==> r == Err::<(), TransferError>(
            TransferError::RangeNotHonored(status),
        ),
{
    if status == PARTIAL_CONTENT {
        Ok(())
    } else {
        Err(TransferError::RangeNotHonored(status))
    }
}

/// What a HEAD request tells of the resource.
#[derive(Clone, Copy, Debug, PartialEq, Eq)]
pub struct ResourceDescriptor {
    /// Size in bytes; 0 when the size is unknown.
    pub total_size: u64,
    /// Whether the server announced `Accept-Ranges: bytes`.
    pub supports_ranges: bool,
}

/// Whether a header value reads exactly `bytes`.
pub open spec fn is_bytes_unit(v: Seq<u8>) -> bool {
    v == seq![98u8, 121u8, 116u8, 101u8, 115u8]
}

/// The announced length, or 0 when none was announced.
pub open spec fn length_or_zero(content_length: Option<u64>) -> u64 {
    match content_length {
        Some(n) => n,
        None => 0,
    }
}

/// Whether an `Accept-Ranges` header is present and reads `bytes`.
pub open spec fn announces_bytes(accept_ranges: Option<&[u8]>) -> bool {
    match accept_ranges {
        Some(v) => is_bytes_unit(v@),
        None => false,
    }
}

impl ResourceDescriptor {
    /// Reads the HEAD answer: its status, its `Content-Length` if any and the
    /// raw value of its `Accept-Ranges` header if any.
    pub fn from_head(status: u16, content_length: Option<u64>, accept_ranges: Option<&[u8]>) -> (r:
        Result<ResourceDescriptor, TransferError>)
        ensures
            !is_success(status) ==> r == Err::<ResourceDescriptor, TransferError>(
                TransferError::ResourceUnavailable(status),
            ),
            is_success(status) ==> r == Ok::<ResourceDescriptor, TransferError>(
                (ResourceDescriptor {
                    total_size: length_or_zero(content_length),
                    supports_ranges: announces_bytes(accept_ranges),
                }),
            ),
    {
        if let Err(e) = check_status(status) {
            return Err(e);
        }
        let total_size = match content_length {
            Some(n) => n,
            None => 0,
        };
        let supports_ranges = match accept_ranges {
            Some(v) => {
                if v.len() != 5 {
                    false
                } else {
                    let ok = v[0] == 98u8 && v[1] == 121u8 && v[2] == 116u8 && v[3] == 101u8
                        && v[4] == 115u8;
                    assert(ok ==> v@ =~= seq![98u8, 121u8, 116u8, 101u8, 115u8]);
                    ok
                }
            },
            None => false,
        };
        Ok(ResourceDescriptor { total_size, supports_ranges })
    }
}

/// How a resource is fetched.
#[derive(Clone, Copy, Debug, PartialEq, Eq, Structural)]
pub enum Strategy {
    /// Concurrent ranged GETs, one per chunk, into a pre-sized file.
    Parallel,
    /// One unranged GET, written in arrival order.
    SingleStream,
}

/// The rule: parallel exactly when ranges are supported, the resource is
/// larger than the threshold, and more than one connection is allowed.
pub open spec fn parallel_wanted(d: ResourceDescriptor, c: DownloadConfig) -> bool {
    d.supports_ranges && d.total_size > c.min_chunk_size && c.max_connections > 1
}

/// Chooses the transfer strategy; depends on nothing but its arguments.
pub fn choose_strategy(d: &ResourceDescriptor, c: &DownloadConfig) -> (r: Strategy)
    ensures
        (r == Strategy::Parallel) == parallel_wanted(*d, *c),
{
    if d.supports_ranges && d.total_size > c.min_chunk_size && c.max_connections > 1 {
        Strategy::Parallel
    } else {
        Strategy::SingleStream
    }
}

/// One contiguous, end-inclusive byte range of the resource.
#[derive(Clone, Copy, Debug, PartialEq, Eq, Structural)]
pub struct Chunk {
    pub index: usize,
    pub start: u64,
    pub end: u64,
}

/// First byte of chunk `i` when `total` bytes are cut into `n` chunks.
pub open spec fn chunk_start(total: nat, n: nat, i: nat) -> int {
    (i * (total / n)) as int
}

/// Last byte of chunk `i`: the last chunk absorbs the remainder.
pub open spec fn chunk_end(total: nat, n: nat, i: nat) -> int {
    if i + 1 == n {
        total - 1
    } else {
        (i + 1) * (total / n) - 1
    }
}

/// Whether byte `p` lies in chunk `i`.
pub open spec fn in_chunk(total: nat, n: nat, i: nat, p: int) -> bool {
    chunk_start(total, n, i) <= p <= chunk_end(total, n, i)
}

/// Whether byte `p` lies in some chunk.
pub open spec fn covered(total: nat, n: nat, p: int) -> bool {
    exists|i: nat| i < n && #[trigger] in_chunk(total, n, i, p)
}

proof fn lemma_chunk_bounds(total: nat, n: nat, i: nat)
    requires
        1 <= n <= total,
        i < n,
    ensures
        total / n >= 1,
        0 <= chunk_start(total, n, i) <= chunk_end(total, n, i) < total,
        (i + 1) * (total / n) <= total,
{
    let q = total / n;
    assert(q * n <= total) by {
        vstd::arithmetic::div_mod::lemma_fundamental_div_mod(total as int, n as int);
    }
    assert(q >= 1) by {
        vstd::arithmetic::div_mod::lemma_div_is_ordered(n as int, total as int, n as int);
        vstd::arithmetic::div_mod::lemma_div_by_self(n as int);
    }
    assert((i + 1) * q <= n * q) by (nonlinear_arith)
        requires
            i + 1 <= n,
    ;
    assert(i * q + q == (i + 1) * q) by (nonlinear_arith);
    assert(0 <= i * q) by (nonlinear_arith);
}

/// Cuts `[0, total)` into `n` chunks: chunk `i` starts at `i * (total / n)`,
/// and every chunk but the last ends just before the next one starts.
pub fn plan_chunks(total: u64, n: usize) -> (r: Vec<Chunk>)
    requires
        1 <= n <= total,
    ensures
        r@.len() == n,
        forall|i: int|
            0 <= i < n ==> (#[trigger] r@[i]).index == i && r@[i].start == chunk_start(
                total as nat,
                n as nat,
                i as nat,
            ) && r@[i].end == chunk_end(total as nat, n as nat, i as nat),
{
    let q: u64 = total / (n as u64);
    let mut r: Vec<Chunk> = Vec::new();
    let mut i: usize = 0;
    while i < n
        invariant
            1 <= n <= total,
            q == total / (n as u64),
            0 <= i <= n,
            r@.len() == i,
            forall|k: int|
                0 <= k < i ==> (#[trigger] r@[k]).index == k && r@[k].start == chunk_start(
                    total as nat,
                    n as nat,
                    k as nat,
                ) && r@[k].end == chunk_end(total as nat, n as nat, k as nat),
        decreases n - i,
    {
        proof {
            lemma_chunk_bounds(total as nat, n as nat, i as nat);
        }
        let start = (i as u64) * q;
        let end = if i == n - 1 {
            total - 1
        } else {
            (i as u64 + 1) * q - 1
        };
        r.push(Chunk { index: i, start, end });
        i = i + 1;
    }
    r
}

/// The chunks cover `[0, total)` exactly once: each chunk is a non-empty range
/// inside it, the first starts at 0, the last ends at `total - 1`, each starts
/// right after its predecessor ends, no two share a byte, and every byte lies
/// in one of them.
pub proof fn lemma_partition_exact(total: nat, n: nat)
    requires
        1 <= n <= total,
    ensures
        chunk_start(total, n, 0) == 0,
        chunk_end(total, n, (n - 1) as nat) == total - 1,
        forall|i: nat|
            i < n ==> 0 <= #[trigger] chunk_start(total, n, i) <= chunk_end(total, n, i) < total,
        forall|i: nat|
            i + 1 < n ==> #[trigger] chunk_end(total, n, i) + 1 == chunk_start(total, n, i + 1),
        forall|i: nat, j: nat, p: int|
            i < n && j < n && #[trigger] in_chunk(total, n, i, p) && #[trigger] in_chunk(
                total,
                n,
                j,
                p,
            ) ==> i == j,
        forall|p: int| 0 <= p < total ==> #[trigger] covered(total, n, p),
{
    let q = total / n;
    assert forall|i: nat| i < n implies 0 <= #[trigger] chunk_start(total, n, i) <= chunk_end(
        total,
        n,
        i,
    ) < total by {
        lemma_chunk_bounds(total, n, i);
    }
    assert forall|i: nat| i + 1 < n implies #[trigger] chunk_end(total, n, i) + 1 == chunk_start(
        total,
        n,
        i + 1,
    ) by {}
    assert forall|i: nat, j: nat, p: int|
        i < n && j < n && #[trigger] in_chunk(total, n, i, p) && #[trigger] in_chunk(
            total,
            n,
            j,
            p,
        ) implies i == j by {
        lemma_chunk_bounds(total, n, i);
        lemma_chunk_bounds(total, n, j);
        if i < j {
            assert((i + 1) * q <= j * q) by (nonlinear_arith)
                requires
                    i + 1 <= j,
            ;
        } else if j < i {
            assert((j + 1) * q <= i * q) by (nonlinear_arith)
                requires
                    j + 1 <= i,
            ;
        }
    }
    assert forall|p: int| 0 <= p < total implies #[trigger] covered(total, n, p) by {
        lemma_chunk_bounds(total, n, (n - 1) as nat);
        let k = p / (q as int);
        vstd::arithmetic::div_mod::lemma_fundamental_div_mod(p, q as int);
        assert(0 <= p % (q as int) < q) by {
            vstd::arithmetic::div_mod::lemma_mod_bound(p, q as int);
        }
        assert(k >= 0) by {
            vstd::arithmetic::div_mod::lemma_div_pos_is_pos(p, q as int);
        }
        if k < n - 1 {
            assert(k * q <= p < (k + 1) * q) by (nonlinear_arith)
                requires
                    p == q * k + p % (q as int),
                    0 <= p % (q as int) < q,
            ;
            assert(in_chunk(total, n, k as nat, p));
        } else {
            assert(((n - 1) as nat) * q <= p) by (nonlinear_arith)
                requires
                    p == q * k + p % (q as int),
                    0 <= p % (q as int),
                    k >= n - 1,
                    q >= 1,
                    n >= 1,
            ;
            assert(in_chunk(total, n, (n - 1) as nat, p));
        }
    }
}

/// Total length of the first `k` chunks.
pub open spec fn lengths_upto(total: nat, n: nat, k: nat) -> int
    decreases k,
{
    if k == 0 {
        0
    } else {
        lengths_upto(total, n, (k - 1) as nat) + chunk_end(total, n, (k - 1) as nat)
            - chunk_start(total, n, (k - 1) as nat) + 1
    }
}

proof fn lemma_lengths_prefix(total: nat, n: nat, k: nat)
    requires
        1 <= n <= total,
        1 <= k <= n,
    ensures
        lengths_upto(total, n, k) == chunk_end(total, n, (k - 1) as nat) + 1,
    decreases k,
{
    lemma_partition_exact(total, n);
    let j = (k - 1) as nat;
    assert(lengths_upto(total, n, k) == lengths_upto(total, n, j) + chunk_end(total, n, j)
        - chunk_start(total, n, j) + 1);
    if k > 1 {
        let i = (k - 2) as nat;
        lemma_lengths_prefix(total, n, j);
        assert((j - 1) as nat == i);
        assert(i + 1 == j);
        assert(chunk_end(total, n, i) + 1 == chunk_start(total, n, i + 1));
    } else {
        assert(chunk_start(total, n, 0) == 0);
    }
}

/// The chunk lengths add up to `total`, and the last chunk is
/// `total / n + total % n` long: it absorbs the remainder of the division.
pub proof fn lemma_partition_lengths(total: nat, n: nat)
    requires
        1 <= n <= total,
    ensures
        lengths_upto(total, n, n) == total,
        chunk_end(total, n, (n - 1) as nat) - chunk_start(total, n, (n - 1) as nat) + 1 == total
            / n + total % n,
{
    lemma_lengths_prefix(total, n, n);
    let q = total / n;
    let r = total % n;
    vstd::arithmetic::div_mod::lemma_fundamental_div_mod(total as int, n as int);
    assert(total - ((n - 1) as nat) * q == q + r) by (nonlinear_arith)
        requires
            total == n * q + r,
            n >= 1,
    ;
}

/// Plans the chunks when every chunk can hold at least one byte (`1 <= n <=
/// total`); none otherwise.
pub fn try_plan_chunks(total: u64, n: usize) -> (r: Option<Vec<Chunk>>)
    ensures
        r is None <==> !(1 <= n <= total),
        r matches Some(v) ==> v@.len() == n && forall|i: int|
            0 <= i < n ==> (#[trigger] v@[i]).index == i && v@[i].start == chunk_start(
                total as nat,
                n as nat,
                i as nat,
            ) && v@[i].end == chunk_end(total as nat, n as nat, i as nat),
{
    if 1 <= n && n as u64 <= total {
        Some(plan_chunks(total, n))
    } else {
        None
    }
}

/// The pooled client that serves chunk `index`.
pub fn client_slot(index: usize, pool_size: usize) -> (r: usize)
    requires
        pool_size > 0,
    ensures
        r == index % pool_size,
        r < pool_size,
{
    index % pool_size
}

/// Decimal digits of `n`, most significant first, without sign or padding.
pub open spec fn decimal(n: nat) -> Seq<char>
    decreases n,
{
    if n < 10 {
        seq![digit_char(n)]
    } else {
        decimal(n / 10).push(digit_char(n % 10))
    }
}

/// The character of a digit below ten.
pub open spec fn digit_char(d: nat) -> char {
    if d == 0 { '0' } else if d == 1 { '1' } else if d == 2 { '2' } else if d == 3 { '3' }
    else if d == 4 { '4' } else if d == 5 { '5' } else if d == 6 { '6' } else if d == 7 { '7' }
    else if d == 8 { '8' } else { '9' }
}

/// The value of a `Range` header asking for bytes `start` to `end` inclusive.
pub open spec fn range_value(start: u64, end: u64) -> Seq<char> {
    seq!['b', 'y', 't', 'e', 's', '='] + decimal(start as nat) + seq!['-'] + decimal(end as nat)
}

/// The one-character text of a digit below ten.
fn digit_text(d: u64) -> (r: &'static str)
    requires
        d < 10,
    ensures
        r@ == seq![digit_char(d as nat)],
{
    proof {
        reveal_strlit("0");
        reveal_strlit("1");
        reveal_strlit("2");
        reveal_strlit("3");
        reveal_strlit("4");
        reveal_strlit("5");
        reveal_strlit("6");
        reveal_strlit("7");
        reveal_strlit("8");
        reveal_strlit("9");
    }
    if d == 0 { "0" } else if d == 1 { "1" } else if d == 2 { "2" } else if d == 3 { "3" }
    else if d == 4 { "4" } else if d == 5 { "5" } else if d == 6 { "6" } else if d == 7 { "7" }
    else if d == 8 { "8" } else { "9" }
}

/// Appends the decimal digits of `n` to `out`.
fn append_decimal(out: &mut String, n: u64)
    ensures
        final(out)@ == old(out)@ + decimal(n as nat),
    decreases n,
{
    if n >= 10 {
        append_decimal(out, n / 10);
    }
    out.append(digit_text(n % 10));
    assert(out@ =~= old(out)@ + decimal(n as nat));
}

impl Chunk {
    /// The `Range` header value that requests exactly this chunk.
    pub fn range_header(&self) -> (r: String)
        ensures
            r@ == range_value(self.start, self.end),
    {
        proof {
            reveal_strlit("bytes=");
            reveal_strlit("-");
        }
        let mut r = String::from_str("bytes=");
        append_decimal(&mut r, self.start);
        r.append("-");
        append_decimal(&mut r, self.end);
        assert(r@ =~= range_value(self.start, self.end));
        r
    }
}

/// Buffer sizes never grow beyond this size (4 MiB).
pub const MAX_BUFFER: usize = 4194304;

/// Buffer sizes never shrink below this size (64 KiB).
pub const MIN_BUFFER: usize = 65536;

/// Throughput above which the buffer grows, in MiB/s.
pub const GROW_ABOVE_MIB: u32 = 50;

/// Throughput below which the buffer shrinks, in MiB/s.
pub const SHRINK_BELOW_MIB: u32 = 5;

/// The buffer is reconsidered each time the byte count passes a multiple of
/// this (5 MiB).
pub const ADAPT_EVERY: u64 = 5242880;

/// The next buffer size given the throughput `bytes` over `nanos`: above
/// 50 MiB/s a buffer under 4 MiB doubles, capped at 4 MiB; below 5 MiB/s a
/// buffer over 64 KiB halves, but not below 64 KiB; otherwise it is kept.
pub open spec fn adapted_size(size: nat, bytes: nat, nanos: nat) -> nat {
    if rate_above(bytes, nanos, GROW_ABOVE_MIB as nat) && size < MAX_BUFFER {
        if size * 2 <= MAX_BUFFER {
            size * 2
        } else {
            MAX_BUFFER as nat
        }
    } else if rate_below(bytes, nanos, SHRINK_BELOW_MIB as nat) && size > MIN_BUFFER {
        if size / 2 >= MIN_BUFFER {
            size / 2
        } else {
            MIN_BUFFER as nat
        }
    } else {
        size
    }
}

/// Adapts the read-buffer size to a throughput reading.
pub fn adapt_buffer_size(size: usize, t: &Throughput) -> (r: usize)
    ensures
        r == adapted_size(size as nat, t.bytes as nat, t.nanos as nat),
{
    if t.is_above(GROW_ABOVE_MIB) && size < MAX_BUFFER {
        if size <= MAX_BUFFER / 2 {
            size * 2
        } else {
            MAX_BUFFER
        }
    } else if t.is_below(SHRINK_BELOW_MIB) && size > MIN_BUFFER {
        if size / 2 >= MIN_BUFFER {
            size / 2
        } else {
            MIN_BUFFER
        }
    } else {
        size
    }
}

/// The buffer size after adapting to each reading in turn.
pub open spec fn size_after(size: nat, readings: Seq<Throughput>) -> nat
    decreases readings.len(),
{
    if readings.len() == 0 {
        size
    } else {
        adapted_size(
            size_after(size, readings.drop_last()),
            readings.last().bytes as nat,
            readings.last().nanos as nat,
        )
    }
}

/// The larger of two sizes.
pub open spec fn max_size(a: nat, b: nat) -> nat {
    if a >= b {
        a
    } else {
        b
    }
}

/// The smaller of two sizes.
pub open spec fn min_size(a: nat, b: nat) -> nat {
    if a <= b {
        a
    } else {
        b
    }
}

/// Whatever the readings, the buffer never grows beyond 4 MiB nor shrinks
/// below 64 KiB of its own accord: it stays between `min(start, 64 KiB)` and
/// `max(start, 4 MiB)`. A start between the two bounds stays between them.
pub proof fn lemma_buffer_within_bounds(start: nat, readings: Seq<Throughput>)
    ensures
        min_size(start, MIN_BUFFER as nat) <= size_after(start, readings),
        size_after(start, readings) <= max_size(start, MAX_BUFFER as nat),
        MIN_BUFFER <= start <= MAX_BUFFER ==> MIN_BUFFER <= size_after(start, readings)
            <= MAX_BUFFER,
    decreases readings.len(),
{
    if readings.len() > 0 {
        lemma_buffer_within_bounds(start, readings.drop_last());
    }
}

/// Progress of a single-stream transfer: bytes written so far and the current
/// read-buffer size. The size is advisory: the stream decides how many bytes
/// each read yields, and the size is kept as state next to it.
#[derive(Clone, Copy, Debug, PartialEq, Eq)]
pub struct StreamState {
    pub downloaded: u64,
    pub buffer_size: usize,
    pub adaptive: bool,
}

/// Whether going from `before` to `after` bytes passes a multiple of 5 MiB.
pub open spec fn crosses_mark(before: nat, after: nat) -> bool {
    before / (ADAPT_EVERY as nat) < after / (ADAPT_EVERY as nat)
}

/// The buffer size after a block takes the count from `before` to `after`
/// bytes, with the monitor then holding `bytes` over `nanos`: adapted when
/// adaptation is on and a multiple of 5 MiB was passed, else kept.
pub open spec fn buffer_after_block(
    size: nat,
    adaptive: bool,
    before: nat,
    after: nat,
    bytes: nat,
    nanos: nat,
) -> nat {
    if adaptive && crosses_mark(before, after) {
        adapted_size(size, bytes, nanos)
    } else {
        size
    }
}

/// The buffer size after a run of blocks, each given as the count before and
/// after it and the monitor's bytes and nanoseconds once it was recorded.
pub open spec fn buffer_through(
    size: nat,
    adaptive: bool,
    blocks: Seq<(nat, nat, nat, nat)>,
) -> nat
    decreases blocks.len(),
{
    if blocks.len() == 0 {
        size
    } else {
        let b = blocks.last();
        buffer_after_block(buffer_through(size, adaptive, blocks.drop_last()), adaptive, b.0, b.1, b.2, b.3)
    }
}

/// With adaptive buffering off the buffer keeps its initial size for the whole
/// transfer, whatever the blocks and the measured throughput.
pub proof fn lemma_fixed_without_adaptation(size: nat, blocks: Seq<(nat, nat, nat, nat)>)
    ensures
        buffer_through(size, false, blocks) == size,
    decreases blocks.len(),
{
    if blocks.len() > 0 {
        lemma_fixed_without_adaptation(size, blocks.drop_last());
    }
}

impl StreamState {
    pub fn new(config: &DownloadConfig) -> (r: StreamState)
        ensures
            r.downloaded == 0,
            r.buffer_size == config.buffer_size,
            r.adaptive == config.adaptive_buffering,
    {
        StreamState {
            downloaded: 0,
            buffer_size: config.buffer_size,
            adaptive: config.adaptive_buffering,
        }
    }

    /// Takes note of a block of `len` bytes written: counts it, records it in
    /// the monitor, and, with adaptive buffering on, adapts the buffer size to
    /// the monitor's throughput each time the count passes a multiple of 5 MiB.
    pub fn on_block(&mut self, len: u64, monitor: &mut BandwidthMonitor)
        requires
            old(self).downloaded + len <= u64::MAX,
            old(monitor).wf(),
        ensures
            final(monitor).wf(),
            final(self).downloaded == old(self).downloaded + len,
            final(self).adaptive == old(self).adaptive,
            final(monitor).total() == counter_after(old(monitor).total(), len),
            exists|now: u64|
                final(monitor).window() == retained(
                    old(monitor).window().push((stamp_for(old(monitor).window(), now), len)),
                    stamp_for(old(monitor).window(), now),
                ),
            final(self).buffer_size == buffer_after_block(
                old(self).buffer_size as nat,
                old(self).adaptive,
                old(self).downloaded as nat,
                final(self).downloaded as nat,
                sum_bytes(final(monitor).window()),
                span(final(monitor).window()),
            ),
    {
        let before = self.downloaded;
        self.downloaded = self.downloaded + len;
        monitor.record_bytes(len);
        if self.adaptive && before / ADAPT_EVERY < self.downloaded / ADAPT_EVERY {
            let t = monitor.throughput();
            self.buffer_size = adapt_buffer_size(self.buffer_size, &t);
        }
    }
}

/// What the supervisor of the chunk tasks does after one outcome.
#[derive(Debug, PartialEq, Eq)]
pub enum JoinStep {
    /// Wait for the next task.
    Wait,
    /// The transfer is over, with this result.
    Finished(Result<(), TransferError>),
}

/// Supervises the chunk tasks: waits until all succeed or one fails; the first
/// failure seen ends the wait and is the transfer's result. Tasks still running
/// are not cancelled.
#[derive(Clone, Copy, Debug, PartialEq, Eq)]
pub struct ChunkJoin {
    pub remaining: usize,
}

impl ChunkJoin {
    pub fn new(tasks: usize) -> (r: ChunkJoin)
        ensures
            r.remaining == tasks,
    {
        ChunkJoin { remaining: tasks }
    }

    /// Takes the outcome of the next task.
    pub fn on_outcome(&mut self, outcome: Result<(), TransferError>) -> (r: JoinStep)
        requires
            old(self).remaining > 0,
        ensures
            final(self).remaining == old(self).remaining - 1,
            outcome is Err ==> r == JoinStep::Finished(outcome),
            outcome is Ok && final(self).remaining == 0 ==> r == JoinStep::Finished(
                Ok::<(), TransferError>(()),
            ),
            outcome is Ok && final(self).remaining > 0 ==> r == JoinStep::Wait,
    {
        self.remaining = self.remaining - 1;
        match outcome {
            Err(e) => JoinStep::Finished(Err(e)),
            Ok(()) => {
                if self.remaining == 0 {
                    JoinStep::Finished(Ok(()))
                } else {
                    JoinStep::Wait
                }
            },
        }
    }
}

} // verus!

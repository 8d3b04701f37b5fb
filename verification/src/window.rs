//! The adaptive sizing policy of the read window.

use vstd::prelude::*;

verus! {

/// Largest number of bytes one request to the sink may come to.
pub const MAX_REQUEST_SIZE: u64 = 1048576;

/// The number of bytes that each event of a request counts for, beside its
/// message.
pub const EVENT_OVERHEAD: u64 = 26;

/// Largest number of bytes one request to the sink may carry, after the
/// per-event overhead of a full request has been set aside.
pub const MAX_BATCH_SIZE: u64 = 788576;

/// Largest number of events one request to the sink may carry.
pub const MAX_BATCH_EVENTS: u64 = 10000;

/// Smallest window the policy ever recommends.
pub const MIN_WINDOW: u64 = 8192;

/// Window a shipper starts with.
pub const INITIAL_WINDOW: u64 = 16384;

/// Slack that is used when a watched file configures none.
pub const DEFAULT_DELTA: u64 = 256;

/// `size` raised to the minimum window.
pub open spec fn floor_window(size: int) -> int {
    if size < MIN_WINDOW as int {
        MIN_WINDOW as int
    } else {
        size
    }
}

/// Half as much again as `content_size`, capped at the sink's byte ceiling.
pub open spec fn grown(content_size: int) -> int {
    if content_size * 3 / 2 > MAX_BATCH_SIZE as int {
        MAX_BATCH_SIZE as int
    } else {
        content_size * 3 / 2
    }
}

/// Whether a read of `content_size` bytes left a window of `window` bytes
/// under-filled by more than the slack `delta`.
pub open spec fn under_filled(content_size: int, window: int, delta: int) -> bool {
    content_size > delta && content_size < window - delta
}

/// The window that follows a read of `content_size` bytes in `line_count`
/// lines, made with a window of `window` bytes.
pub open spec fn next_window_spec(content_size: int, line_count: int, window: int, delta: int) -> int {
    if line_count >= MAX_BATCH_EVENTS as int {
        floor_window(window / 2)
    } else if under_filled(content_size, window, delta) {
        floor_window(content_size)
    } else {
        floor_window(grown(content_size))
    }
}

/// Whether a read holds too many lines for one request.
pub fn over_count(line_count: u64) -> (r: bool)
    ensures
        r == (line_count >= MAX_BATCH_EVENTS),
{
    line_count >= MAX_BATCH_EVENTS
}

/// Half of `window`, never under the minimum window.
pub fn halved(window: u64) -> (r: u64)
    ensures
        r as int == floor_window(window as int / 2),
        r >= MIN_WINDOW,
{
    let half: u64 = window / 2;
    if half < MIN_WINDOW {
        MIN_WINDOW
    } else {
        half
    }
}

/// Recommends the size of the next window from the read that was just made.
pub fn next_window(content_size: u64, line_count: u64, window: u64, delta: u64) -> (r: u64)
    ensures
        r as int == next_window_spec(content_size as int, line_count as int, window as int, delta as int),
        r >= MIN_WINDOW,
        window <= MAX_BATCH_SIZE && content_size <= window ==> r <= MAX_BATCH_SIZE,
{
    if over_count(line_count) {
        halved(window)
    } else if content_size > delta && window >= delta && content_size < window - delta {
        if content_size < MIN_WINDOW {
            MIN_WINDOW
        } else {
            content_size
        }
    } else {
        let bigger: u64 = if content_size >= MAX_BATCH_SIZE {
            MAX_BATCH_SIZE
        } else if content_size * 3 / 2 > MAX_BATCH_SIZE {
            MAX_BATCH_SIZE
        } else {
            content_size * 3 / 2
        };
        if bigger < MIN_WINDOW {
            MIN_WINDOW
        } else {
            bigger
        }
    }
}

/// The smaller of two sizes.
pub open spec fn smaller(a: int, b: int) -> int {
    if a <= b {
        a
    } else {
        b
    }
}

/// The window that follows `window` where every read finds `volume` new
/// bytes, in fewer lines than one request may carry: the read returns what
/// is there, as far as the window reaches.
pub open spec fn steady_next(window: int, volume: int, delta: int) -> int {
    next_window_spec(smaller(volume, window), 0, window, delta)
}

/// The window after `steps` reads of a file that grows by `volume` bytes
/// from read to read.
pub open spec fn steady_window(window: int, volume: int, delta: int, steps: nat) -> int
    decreases steps,
{
    if steps == 0 {
        window
    } else {
        steady_window(steady_next(window, volume, delta), volume, delta, (steps - 1) as nat)
    }
}

/// Whether `window` is within one step of `volume`: it is the volume itself
/// or the volume grown once, each raised to the minimum window.
pub open spec fn settled(window: int, volume: int) -> bool {
    window == floor_window(volume) || window == floor_window(grown(volume))
}

/// A bound on the number of reads after which the window has settled.
pub open spec fn settling_steps(window: int, volume: int) -> nat
    decreases (if window < volume { volume - window } else { 0 }),
{
    if window < volume && volume <= MAX_BATCH_SIZE as int {
        1 + settling_steps(floor_window(grown(window)), volume)
    } else {
        1
    }
}

/// The line-count guard: a read of too many lines halves the window, down to
/// the minimum, whatever its size.
pub proof fn lemma_over_count_halves(content_size: int, line_count: int, window: int, delta: int)
    requires
        line_count >= MAX_BATCH_EVENTS,
    ensures
        next_window_spec(content_size, line_count, window, delta) == floor_window(window / 2),
{
}

/// The window never leaves the range from the minimum window to the byte
/// ceiling of a request.
pub proof fn lemma_window_stays_in_range(content_size: int, line_count: int, window: int, delta: int)
    requires
        0 <= content_size <= window <= MAX_BATCH_SIZE,
    ensures
        MIN_WINDOW <= next_window_spec(content_size, line_count, window, delta) <= MAX_BATCH_SIZE,
{
}

/// A window that covers the steady volume is followed by one within a step
/// of it, which covers it again.
pub proof fn lemma_covering_window_settles(window: int, volume: int, delta: int)
    requires
        0 <= volume <= window,
        volume <= MAX_BATCH_SIZE,
        0 <= delta,
    ensures
        settled(steady_next(window, volume, delta), volume),
        steady_next(window, volume, delta) >= volume,
{
}

/// A window that falls short of the steady volume grows.
pub proof fn lemma_short_window_grows(window: int, volume: int, delta: int)
    requires
        0 <= window < volume <= MAX_BATCH_SIZE,
        0 <= delta,
    ensures
        steady_next(window, volume, delta) == floor_window(grown(window)),
        steady_next(window, volume, delta) > window,
{
}

/// Convergence: under a steady volume the window is within one step of the
/// volume after `settling_steps` reads, and stays there.
pub proof fn lemma_window_converges(window: int, volume: int, delta: int, steps: nat)
    requires
        0 <= window,
        0 <= volume <= MAX_BATCH_SIZE,
        0 <= delta,
        steps >= settling_steps(window, volume),
    ensures
        settled(steady_window(window, volume, delta, steps), volume),
        steady_window(window, volume, delta, steps) >= volume,
    decreases steps,
{
    let following = steady_next(window, volume, delta);
    let rest = (steps - 1) as nat;
    if window < volume {
        lemma_short_window_grows(window, volume, delta);
        lemma_window_converges(following, volume, delta, rest);
    } else {
        lemma_covering_window_settles(window, volume, delta);
        if rest > 0 {
            assert(settling_steps(following, volume) == 1);
            lemma_window_converges(following, volume, delta, rest);
        } else {
            assert(steady_window(following, volume, delta, 0) == following);
        }
    }
}

} // verus!

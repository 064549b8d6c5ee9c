//! The gesture core: a time-bounded window of motion samples, a shake
//! classifier over that window, and the cursor-size state machine.

use std::collections::VecDeque;

use vstd::prelude::*;

use crate::backend::MotionEvent;
use crate::config::Config;

verus! {

/// The three states of the cursor-size controller.
///
/// Transitions, driven once per processed sample:
///   Idle      -> Enlarged   (shake detected; request the enlarged size)
///   Enlarged  -> Enlarged   (still shaking: the cooldown timer restarts)
///   Enlarged  -> Restoring  (no shake for `cooldown_ms`)
///   Restoring -> Idle       (always; request the restored size)
#[derive(Clone, Copy, Debug, PartialEq, Eq, Structural)]
pub enum CursorState {
    /// Cursor is at its normal size, waiting for a shake.
    Idle,
    /// Cursor has been enlarged; `since` is the timestamp (ms) of the last
    /// shake-positive sample, used to know when to start restoring.
    Enlarged { since: u32 },
    /// Cursor is about to be restored to its normal size; exited on the
    /// very next processed sample.
    Restoring,
}

/// The timestamp below which samples fall out of the window once a sample
/// with timestamp `newest` arrives: `newest - window`, clamped to zero.
pub open spec fn cutoff_of(newest: u32, window: u32) -> u32 {
    if newest >= window {
        (newest - window) as u32
    } else {
        0u32
    }
}

/// Length of the maximal prefix of `s` whose samples are older than `cutoff`.
pub open spec fn stale_prefix_len(s: Seq<MotionEvent>, cutoff: u32) -> int
    decreases s.len(),
{
    if s.len() == 0 {
        0
    } else if s[0].timestamp >= cutoff {
        0
    } else {
        1 + stale_prefix_len(s.drop_first(), cutoff)
    }
}

/// The window contents after recording `e` into window `s`: `e` is appended
/// at the tail, then the stale prefix (samples older than the cutoff drawn
/// from `e.timestamp`) is evicted from the head.
pub open spec fn recorded(s: Seq<MotionEvent>, e: MotionEvent, window: u32) -> Seq<MotionEvent> {
    let all = s.push(e);
    all.skip(stale_prefix_len(all, cutoff_of(e.timestamp, window)))
}

/// The state the controller moves to on a sample with verdict `shaking`
/// and timestamp `timestamp`.
///
/// `timestamp - since` saturates to zero so that a monotonic-counter reset
/// upstream cannot underflow; a reset then reads as "no time has passed".
pub open spec fn next_state(
    state: CursorState,
    shaking: bool,
    timestamp: u32,
    cooldown_ms: u32,
) -> CursorState {
    match state {
        CursorState::Idle => if shaking {
            CursorState::Enlarged { since: timestamp }
        } else {
            CursorState::Idle
        },
        CursorState::Enlarged { since } => if shaking {
            CursorState::Enlarged { since: timestamp }
        } else if timestamp.saturating_sub(since) >= cooldown_ms {
            CursorState::Restoring
        } else {
            CursorState::Enlarged { since }
        },
        CursorState::Restoring => CursorState::Idle,
    }
}

/// The resize request the controller emits on a sample: the enlarged size
/// exactly when a shake begins from `Idle`, the restored size exactly when
/// leaving `Restoring`, and nothing otherwise.
pub open spec fn resize_request(state: CursorState, shaking: bool, config: Config) -> Option<
    u32,
> {
    match state {
        CursorState::Idle => if shaking {
            Some(config.enlarged_size)
        } else {
            None
        },
        CursorState::Enlarged { .. } => None,
        CursorState::Restoring => Some(config.restored_size),
    }
}

/// The per-axis deltas between consecutive samples on the X axis.
pub open spec fn x_deltas(s: Seq<MotionEvent>) -> Seq<int> {
    if s.len() == 0 {
        Seq::empty()
    } else {
        Seq::new((s.len() - 1) as nat, |i: int| s[i + 1].x - s[i].x)
    }
}

/// The per-axis deltas between consecutive samples on the Y axis.
pub open spec fn y_deltas(s: Seq<MotionEvent>) -> Seq<int> {
    if s.len() == 0 {
        Seq::empty()
    } else {
        Seq::new((s.len() - 1) as nat, |i: int| s[i + 1].y - s[i].y)
    }
}

/// The sign of a delta: 1, -1, or 0.
pub open spec fn delta_sign(d: int) -> int {
    if d > 0 {
        1
    } else if d < 0 {
        -1
    } else {
        0
    }
}

/// Count the sign reversals in `ds`, given that the last nonzero delta seen
/// so far had sign `prev_sign` (0 when none has been seen yet).
///
/// A reversal is a strict sign change relative to the last nonzero delta:
/// a zero delta is neither a continuation nor a reversal, and leaves the
/// sign history untouched.
pub open spec fn reversals_from(ds: Seq<int>, prev_sign: int) -> nat
    decreases ds.len(),
{
    if ds.len() == 0 {
        0
    } else {
        let s0 = delta_sign(ds[0]);
        let carried = if s0 == 0 {
            prev_sign
        } else {
            s0
        };
        let rest = reversals_from(ds.drop_first(), carried);
        if s0 != 0 && prev_sign != 0 && s0 != prev_sign {
            rest + 1
        } else {
            rest
        }
    }
}

/// The number of direction reversals along one axis, with the first delta
/// establishing the baseline.
pub open spec fn axis_reversals(ds: Seq<int>) -> nat {
    reversals_from(ds, 0)
}

/// The reversal count of a window: the axis with more reversals wins, since
/// a shake is expected to dominate one axis.
pub open spec fn reversal_count(s: Seq<MotionEvent>) -> nat {
    let xr = axis_reversals(x_deltas(s));
    let yr = axis_reversals(y_deltas(s));
    if xr >= yr {
        xr
    } else {
        yr
    }
}

/// The Euclidean distance between two samples, rounded down to an integer.
pub open spec fn seg_dist(a: MotionEvent, b: MotionEvent) -> nat {
    let dx = b.x - a.x;
    let dy = b.y - a.y;
    crate::math::isqrt((dx * dx + dy * dy) as nat)
}

/// The total distance travelled over the window: the sum of the distances
/// between consecutive samples.
pub open spec fn total_distance(s: Seq<MotionEvent>) -> nat
    decreases s.len(),
{
    if s.len() < 2 {
        0
    } else {
        total_distance(s.drop_last()) + seg_dist(s[s.len() - 2], s[s.len() - 1])
    }
}

/// The time span (ms) between the oldest and the newest sample, saturating
/// to zero if an upstream timestamp reset left the window out of order.
pub open spec fn span_ms(s: Seq<MotionEvent>) -> nat {
    if s.len() == 0 {
        0
    } else if s.last().timestamp >= s.first().timestamp {
        (s.last().timestamp - s.first().timestamp) as nat
    } else {
        0
    }
}

/// The shake verdict over a window `s` under thresholds `c`.
///
/// A window is shaking when it has at least 3 samples (one reversal needs
/// two deltas), its time span is positive (a burst of duplicate timestamps
/// is not a gesture), its reversal count reaches `min_reversals`, and its
/// average velocity reaches `min_velocity` pixels per second. The velocity
/// threshold is the exact comparison
/// `total_distance / (span_ms / 1000) >= min_velocity`, cross-multiplied so
/// no division is involved.
pub open spec fn is_shaking_spec(s: Seq<MotionEvent>, c: Config) -> bool {
    &&& s.len() >= 3
    &&& span_ms(s) > 0
    &&& reversal_count(s) >= c.min_reversals
    &&& total_distance(s) * 1000 >= c.min_velocity * span_ms(s)
}

/// The deltas of one axis never strictly change sign: either none is
/// negative or none is positive.
pub open spec fn axis_monotone(ds: Seq<int>) -> bool {
    (forall|i: int| 0 <= i < ds.len() ==> ds[i] >= 0) || (forall|i: int|
        0 <= i < ds.len() ==> ds[i] <= 0)
}

/// Timestamps never decrease from the head to the tail of a window.
pub open spec fn timestamps_sorted(s: Seq<MotionEvent>) -> bool {
    forall|i: int, j: int| 0 <= i <= j < s.len() ==> s[i].timestamp <= s[j].timestamp
}

/// A window with fewer than 3 samples is never classified as shaking:
/// a single direction change needs two deltas, hence three samples.
pub proof fn lemma_few_samples_not_shaking(s: Seq<MotionEvent>, c: Config)
    requires
        s.len() < 3,
    ensures
        !is_shaking_spec(s, c),
{
}

/// A window whose samples all share one timestamp is never classified as
/// shaking: its time span is zero.
pub proof fn lemma_equal_timestamps_not_shaking(s: Seq<MotionEvent>, c: Config)
    requires
        forall|i: int| 0 <= i < s.len() ==> (#[trigger] s[i].timestamp) == s[0].timestamp,
    ensures
        !is_shaking_spec(s, c),
{
    if s.len() > 0 {
        assert(s.last() == s[s.len() - 1]);
        assert(span_ms(s) == 0);
    }
}

proof fn lemma_one_signed_axis_no_reversals(ds: Seq<int>, prev_sign: int)
    requires
        (forall|i: int| 0 <= i < ds.len() ==> ds[i] >= 0) && 0 <= prev_sign <= 1 || (forall|
            i: int,
        | 0 <= i < ds.len() ==> ds[i] <= 0) && -1 <= prev_sign <= 0,
    ensures
        reversals_from(ds, prev_sign) == 0,
    decreases ds.len(),
{
    if ds.len() > 0 {
        let s0 = delta_sign(ds[0]);
        let carried = if s0 == 0 {
            prev_sign
        } else {
            s0
        };
        assert(forall|i: int| 0 <= i < ds.drop_first().len() ==> ds.drop_first()[i] == ds[i + 1]);
        lemma_one_signed_axis_no_reversals(ds.drop_first(), carried);
    }
}

/// Monotonic motion is never a shake: if neither axis ever strictly
/// reverses sign, the verdict is false regardless of how fast the pointer
/// moved.
pub proof fn lemma_monotone_motion_not_shaking(s: Seq<MotionEvent>, c: Config)
    requires
        c.min_reversals >= 1,
        axis_monotone(x_deltas(s)),
        axis_monotone(y_deltas(s)),
    ensures
        !is_shaking_spec(s, c),
{
    lemma_one_signed_axis_no_reversals(x_deltas(s), 0);
    lemma_one_signed_axis_no_reversals(y_deltas(s), 0);
    assert(reversal_count(s) == 0);
}

proof fn lemma_stale_prefix_properties(s: Seq<MotionEvent>, cutoff: u32)
    ensures
        0 <= stale_prefix_len(s, cutoff) <= s.len(),
        forall|i: int| 0 <= i < stale_prefix_len(s, cutoff) ==> s[i].timestamp < cutoff,
        stale_prefix_len(s, cutoff) < s.len() ==> s[stale_prefix_len(s, cutoff)].timestamp
            >= cutoff,
    decreases s.len(),
{
    if s.len() > 0 && s[0].timestamp < cutoff {
        lemma_stale_prefix_properties(s.drop_first(), cutoff);
        assert(forall|i: int|
            0 <= i < s.drop_first().len() ==> s.drop_first()[i] == s[i + 1]);
        let k = stale_prefix_len(s, cutoff);
        assert(k == 1 + stale_prefix_len(s.drop_first(), cutoff));
        assert forall|i: int| 0 <= i < k implies s[i].timestamp < cutoff by {
            if i > 0 {
                assert(s.drop_first()[i - 1] == s[i]);
                assert(s.drop_first()[i - 1].timestamp < cutoff);
            }
        }
        if k < s.len() {
            assert(s.drop_first()[k - 1] == s[k]);
        }
    }
}

/// Eviction is exact: under a monotonic feed, recording a sample keeps the
/// new sample at the tail, keeps exactly the samples whose timestamp is at
/// or past the cutoff drawn from the new sample, evicts exactly the stale
/// prefix, and preserves timestamp order.
pub proof fn lemma_record_evicts_exactly_stale(s: Seq<MotionEvent>, e: MotionEvent, window: u32)
    requires
        timestamps_sorted(s),
        forall|i: int| 0 <= i < s.len() ==> s[i].timestamp <= e.timestamp,
    ensures
        ({
            let all = s.push(e);
            let kept = recorded(s, e, window);
            let cut = cutoff_of(e.timestamp, window);
            let evicted = all.len() - kept.len();
            &&& 0 <= evicted <= s.len()
            &&& kept =~= all.skip(evicted)
            &&& kept.len() >= 1
            &&& kept.last() == e
            &&& (forall|i: int| 0 <= i < kept.len() ==> kept[i].timestamp >= cut)
            &&& (forall|i: int| 0 <= i < evicted ==> all[i].timestamp < cut)
            &&& timestamps_sorted(kept)
        }),
{
    let all = s.push(e);
    let cut = cutoff_of(e.timestamp, window);
    lemma_stale_prefix_properties(all, cut);
    let k = stale_prefix_len(all, cut);
    assert(all.last() == e && e.timestamp >= cut);
    assert(k < all.len());
    let kept = all.skip(k);
    assert(forall|i: int| 0 <= i < kept.len() ==> kept[i] == all[i + k]);
    assert(forall|i: int|
        0 <= i < kept.len() ==> #[trigger] kept[i].timestamp >= cut) by {
        assert(all[k].timestamp >= cut);
        assert(forall|i: int| 0 <= i < kept.len() ==> kept[i] == all[i + k]);
        assert(forall|j: int| k <= j < all.len() ==> all[k].timestamp <= all[j].timestamp);
    }
}

/// One full pass of the cursor-size controller. From `Idle`, a shaking
/// sample enlarges the cursor and emits exactly one enlarge request; a
/// quiet sample within the cooldown leaves `Enlarged` untouched and emits
/// nothing; a quiet sample at or past the cooldown moves to `Restoring`
/// and emits nothing; and the next sample, whatever its verdict, returns
/// to `Idle` and emits exactly one restore request.
pub proof fn lemma_cursor_state_cycle(
    c: Config,
    t1: u32,
    t2: u32,
    t3: u32,
    t4: u32,
    late_shaking: bool,
)
    requires
        t1 <= t2,
        t2 - t1 < c.cooldown_ms,
        t1 <= t3,
        t3 - t1 >= c.cooldown_ms,
    ensures
        next_state(CursorState::Idle, true, t1, c.cooldown_ms) == (CursorState::Enlarged {
            since: t1,
        }),
        resize_request(CursorState::Idle, true, c) == Some(c.enlarged_size),
        resize_request(CursorState::Idle, false, c) is None,
        next_state(CursorState::Enlarged { since: t1 }, false, t2, c.cooldown_ms)
            == (CursorState::Enlarged { since: t1 }),
        resize_request(CursorState::Enlarged { since: t1 }, false, c) is None,
        next_state(CursorState::Enlarged { since: t1 }, false, t3, c.cooldown_ms)
            == CursorState::Restoring,
        next_state(CursorState::Restoring, late_shaking, t4, c.cooldown_ms) == CursorState::Idle,
        resize_request(CursorState::Restoring, late_shaking, c) == Some(c.restored_size),
{
}

/// Analyzes pointer motion samples to detect shake gestures and drives the
/// cursor-size state machine.
pub struct ShakeDetector {
    /// Rolling buffer of recent motion samples, oldest first. Samples that
    /// fall out of the time window are evicted from the front on every
    /// `record_motion`, so memory stays bounded.
    pub events: VecDeque<MotionEvent>,
    /// Current state of the cursor-size controller.
    pub state: CursorState,
    /// Thresholds that control detection sensitivity.
    pub config: Config,
}

impl ShakeDetector {
    /// Create a detector with an empty window and an idle cursor state.
    pub fn new(config: Config) -> (d: ShakeDetector)
        ensures
            d.events@ == Seq::<MotionEvent>::empty(),
            d.state == CursorState::Idle,
            d.config == config,
    {
        ShakeDetector { events: VecDeque::new(), state: CursorState::Idle, config }
    }

    /// Record a motion sample: append it at the tail, then evict from the
    /// head every sample older than `newest.timestamp - time_window_ms`
    /// (saturating), stopping at the first sample within the window.
    pub fn record_motion(&mut self, event: MotionEvent)
        ensures
            final(self).config == old(self).config,
            final(self).state == old(self).state,
            final(self).events@ == recorded(old(self).events@, event, old(self).config.time_window_ms),
    {
        let cutoff = event.timestamp.saturating_sub(self.config.time_window_ms);
        self.events.push_back(event);
        let ghost all = self.events@;
        let ghost mut evicted: int = 0;
        loop
            invariant
                cutoff == cutoff_of(event.timestamp, self.config.time_window_ms),
                self.config == old(self).config,
                self.state == old(self).state,
                all == old(self).events@.push(event),
                0 <= evicted <= all.len(),
                self.events@ == all.skip(evicted),
                stale_prefix_len(all, cutoff) == evicted + stale_prefix_len(
                    self.events@,
                    cutoff,
                ),
            ensures
                self.config == old(self).config,
                self.state == old(self).state,
                self.events@ == all.skip(stale_prefix_len(all, cutoff)),
            decreases self.events@.len(),
        {
            if self.events.len() == 0 {
                break ;
            }
            let front_ts = self.events[0].timestamp;
            if front_ts >= cutoff {
                break ;
            }
            self.events.pop_front();
            proof {
                assert(all.skip(evicted).drop_first() =~= all.skip(evicted + 1));
                evicted = evicted + 1;
            }
        }
    }

    /// Decide whether the buffered samples form a shake: at least 3 samples,
    /// a positive time span, enough direction reversals on one axis, and
    /// enough average velocity over the window.
    pub fn is_shaking(&self) -> (r: bool)
        ensures
            r == is_shaking_spec(self.events@, self.config),
    {
        let ghost s = self.events@;
        let n = self.events.len();
        if n < 3 {
            return false;
        }
        let mut x_rev: u64 = 0;
        let mut y_rev: u64 = 0;
        let mut x_sign: i32 = 0;
        let mut y_sign: i32 = 0;
        let mut total: u128 = 0;
        let mut i: usize = 1;
        proof {
            assert(x_deltas(s).skip(0) =~= x_deltas(s));
            assert(y_deltas(s).skip(0) =~= y_deltas(s));
        }
        while i < n
            invariant
                s == self.events@,
                3 <= n == s.len(),
                1 <= i <= n,
                -1 <= x_sign <= 1,
                -1 <= y_sign <= 1,
                x_rev as int <= i as int - 1,
                y_rev as int <= i as int - 1,
                total == total_distance(s.take(i as int)),
                total as int <= (i as int - 1) * 92680,
                axis_reversals(x_deltas(s)) == x_rev + reversals_from(
                    x_deltas(s).skip(i as int - 1),
                    x_sign as int,
                ),
                axis_reversals(y_deltas(s)) == y_rev + reversals_from(
                    y_deltas(s).skip(i as int - 1),
                    y_sign as int,
                ),
            decreases n - i,
        {
            let prev = self.events[i - 1];
            let curr = self.events[i];
            let dx: i64 = curr.x as i64 - prev.x as i64;
            let dy: i64 = curr.y as i64 - prev.y as i64;
            proof {
                assert(0 <= dx * dx <= 65535 * 65535) by (nonlinear_arith)
                    requires
                        -65535 <= dx <= 65535,
                ;
                assert(0 <= dy * dy <= 65535 * 65535) by (nonlinear_arith)
                    requires
                        -65535 <= dy <= 65535,
                ;
            }
            let dist_sq: u64 = (dx * dx + dy * dy) as u64;
            let d = crate::math::isqrt_u64(dist_sq);
            proof {
                // one segment is at most the diagonal of the coordinate
                // range: isqrt(2 * 65535^2) = 92680
                assert(d <= 92680) by (nonlinear_arith)
                    requires
                        d * d <= dist_sq,
                        dist_sq <= 2 * 65535 * 65535,
                ;
                let t1 = s.take(i as int + 1);
                assert(t1.drop_last() =~= s.take(i as int));
                assert(t1[t1.len() - 2] == s[i as int - 1] && t1[t1.len() - 1] == s[i as int]);
                assert(d == seg_dist(s[i as int - 1], s[i as int]));
                assert(total_distance(t1) == total_distance(s.take(i as int)) + seg_dist(
                    s[i as int - 1],
                    s[i as int],
                ));
            }
            total = total + d as u128;
            let sx: i32 = if dx > 0 {
                1
            } else if dx < 0 {
                -1
            } else {
                0
            };
            let sy: i32 = if dy > 0 {
                1
            } else if dy < 0 {
                -1
            } else {
                0
            };
            proof {
                let xs = x_deltas(s);
                let ys = y_deltas(s);
                assert(xs.skip(i as int - 1)[0] == xs[i as int - 1]);
                assert(xs.skip(i as int - 1).drop_first() =~= xs.skip(i as int));
                assert(ys.skip(i as int - 1)[0] == ys[i as int - 1]);
                assert(ys.skip(i as int - 1).drop_first() =~= ys.skip(i as int));
                assert(delta_sign(xs[i as int - 1]) == sx as int);
                assert(delta_sign(ys[i as int - 1]) == sy as int);
            }
            if sx != 0 && x_sign != 0 && sx != x_sign {
                x_rev = x_rev + 1;
            }
            if sx != 0 {
                x_sign = sx;
            }
            if sy != 0 && y_sign != 0 && sy != y_sign {
                y_rev = y_rev + 1;
            }
            if sy != 0 {
                y_sign = sy;
            }
            i = i + 1;
        }
        proof {
            assert(s.take(n as int) =~= s);
            assert(x_deltas(s).skip(n as int - 1) =~= Seq::<int>::empty());
            assert(y_deltas(s).skip(n as int - 1) =~= Seq::<int>::empty());
            assert(reversals_from(Seq::<int>::empty(), x_sign as int) == 0);
            assert(reversals_from(Seq::<int>::empty(), y_sign as int) == 0);
        }
        let first_ts = self.events[0].timestamp;
        let last_ts = self.events[n - 1].timestamp;
        let span = last_ts.saturating_sub(first_ts);
        if span == 0 {
            return false;
        }
        let reversals = if x_rev >= y_rev {
            x_rev
        } else {
            y_rev
        };
        let enough_reversals = reversals >= self.config.min_reversals as u64;
        proof {
            assert((self.config.min_velocity as int) * (span as int) < 0x10000000000000000int)
                by (nonlinear_arith)
                requires
                    0 <= self.config.min_velocity < 0x100000000int,
                    0 <= span < 0x100000000int,
            ;
        }
        let enough_velocity = total * 1000 >= (self.config.min_velocity as u128)
            * (span as u128);
        enough_reversals && enough_velocity
    }

    /// Feed one classifier verdict and its sample timestamp into the cursor
    /// state machine; returns the cursor size to request, if any.
    pub fn advance_state(&mut self, shaking: bool, timestamp: u32) -> (request: Option<u32>)
        ensures
            final(self).config == old(self).config,
            final(self).events == old(self).events,
            final(self).state == next_state(
                old(self).state,
                shaking,
                timestamp,
                old(self).config.cooldown_ms,
            ),
            request == resize_request(old(self).state, shaking, old(self).config),
    {
        match self.state {
            CursorState::Idle => {
                if shaking {
                    self.state = CursorState::Enlarged { since: timestamp };
                    Some(self.config.enlarged_size)
                } else {
                    None
                }
            },
            CursorState::Enlarged { since } => {
                if shaking {
                    self.state = CursorState::Enlarged { since: timestamp };
                } else if timestamp.saturating_sub(since) >= self.config.cooldown_ms {
                    self.state = CursorState::Restoring;
                }
                None
            },
            CursorState::Restoring => {
                self.state = CursorState::Idle;
                Some(self.config.restored_size)
            },
        }
    }

    /// Process one motion sample end to end, as the host loop does: record
    /// it into the window, classify the window, and advance the cursor
    /// state machine on the verdict. Returns the size to request, if any.
    pub fn handle_motion(&mut self, event: MotionEvent) -> (request: Option<u32>)
        ensures
            final(self).config == old(self).config,
            final(self).events@ == recorded(
                old(self).events@,
                event,
                old(self).config.time_window_ms,
            ),
            ({
                let shaking = is_shaking_spec(
                    recorded(old(self).events@, event, old(self).config.time_window_ms),
                    old(self).config,
                );
                &&& final(self).state == next_state(
                    old(self).state,
                    shaking,
                    event.timestamp,
                    old(self).config.cooldown_ms,
                )
                &&& request == resize_request(old(self).state, shaking, old(self).config)
            }),
    {
        let timestamp = event.timestamp;
        self.record_motion(event);
        let shaking = self.is_shaking();
        self.advance_state(shaking, timestamp)
    }
}

} // verus!

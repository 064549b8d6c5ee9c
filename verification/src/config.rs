//! Detection thresholds and cursor sizes, immutable for the process lifetime.

use vstd::prelude::*;

verus! {

/// Configuration for shake detection and cursor enlargement.
#[derive(Clone, Copy, Debug, PartialEq, Eq, Structural)]
pub struct Config {
    /// How far back in time (ms) to keep pointer motion samples. Only
    /// samples within this window are considered for shake detection.
    pub time_window_ms: u32,
    /// Minimum number of direction reversals required to count as a shake.
    pub min_reversals: u32,
    /// Minimum average velocity (pixels per second) required to count as a
    /// shake; filters out slow, deliberate motion that happens to reverse.
    pub min_velocity: u32,
    /// How long (ms) without a shake verdict before the cursor is restored.
    pub cooldown_ms: u32,
    /// Cursor size in pixels while enlarged.
    pub enlarged_size: u32,
    /// Cursor size in pixels to restore once the shake ends.
    pub restored_size: u32,
}

impl Config {
    /// The thresholds a configuration must satisfy: a positive window, at
    /// least one required reversal, and positive cursor sizes.
    pub open spec fn wf(self) -> bool {
        &&& self.time_window_ms > 0
        &&& self.min_reversals >= 1
        &&& self.enlarged_size > 0
        &&& self.restored_size > 0
    }
}

impl Default for Config {
    /// The stock thresholds: a half-second window, three reversals at
    /// 500 px/s, a two-second cooldown, and 96 px / 24 px cursor sizes.
    fn default() -> (c: Config)
        ensures
            c == (Config {
                time_window_ms: 500u32,
                min_reversals: 3u32,
                min_velocity: 500u32,
                cooldown_ms: 2000u32,
                enlarged_size: 96u32,
                restored_size: 24u32,
            }),
            c.wf(),
    {
        Config {
            time_window_ms: 500,
            min_reversals: 3,
            min_velocity: 500,
            cooldown_ms: 2000,
            enlarged_size: 96,
            restored_size: 24,
        }
    }
}

} // verus!

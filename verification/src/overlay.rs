//! The debug overlay: a repeating timer gates how often the frame-rate
//! label is refreshed, and the label's color grades the average frame rate.

use crate::math::FP;
use crate::ship::MAX_DT;
use vstd::arithmetic::div_mod::{
    lemma_div_pos_is_pos, lemma_mod_division_less_than_divisor, lemma_small_mod,
};
use vstd::prelude::*;

verus! {

/// Averages below this, in micro-frames-per-second, color the label red.
pub const FPS_RED_BELOW: i64 = 30_000_000;

/// Averages from this on, in micro-frames-per-second, color the label
/// green; between the two thresholds it is amber.
pub const FPS_GREEN_FROM: i64 = 60_000_000;

/// How often the overlay refreshes, in microseconds (half a second).
pub const DEBUG_UPDATE_INTERVAL: i64 = 500_000;

/// Longest refresh interval a timer accepts, in microseconds.
pub const MAX_INTERVAL: i64 = 1_000_000_000_000;

/// The color of the frame-rate label.
#[derive(Clone, Copy, Debug, PartialEq, Eq, Structural)]
pub enum FpsColor {
    /// Averages below thirty frames per second.
    Red,
    /// Averages of at least thirty and below sixty frames per second.
    Amber,
    /// Averages of at least sixty frames per second.
    Green,
}

/// The label color for an average of `average` micro-frames-per-second.
pub open spec fn spec_fps_color(average: int) -> FpsColor {
    if average < FPS_RED_BELOW {
        FpsColor::Red
    } else if average < FPS_GREEN_FROM {
        FpsColor::Amber
    } else {
        FpsColor::Green
    }
}

/// Grade an average frame rate: red below thirty, amber from thirty up to
/// but not including sixty, green from sixty on.
pub fn fps_color(average: i64) -> (c: FpsColor)
    ensures
        c == spec_fps_color(average as int),
        (c == FpsColor::Red <==> average < FPS_RED_BELOW),
        (c == FpsColor::Amber <==> FPS_RED_BELOW <= average < FPS_GREEN_FROM),
        (c == FpsColor::Green <==> FPS_GREEN_FROM <= average),
{
    if average < FPS_RED_BELOW {
        FpsColor::Red
    } else if average < FPS_GREEN_FROM {
        FpsColor::Amber
    } else {
        FpsColor::Green
    }
}

/// The whole and hundredths digits of an average in micro-frames-per-second,
/// as the label prints them.
pub open spec fn spec_fps_label_parts(average: int) -> (int, int) {
    (average / (FP as int), (average % (FP as int)) / 10_000)
}

/// Split an average into the whole frames-per-second and the two decimal
/// digits the label shows after the point.
pub fn fps_label_parts(average: i64) -> (r: (i64, i64))
    requires
        0 <= average,
    ensures
        (r.0 as int, r.1 as int) == spec_fps_label_parts(average as int),
        0 <= r.1 < 100,
        r.0 == average as int / (FP as int),
{
    proof {
        lemma_div_pos_is_pos(average as int, FP as int);
        lemma_mod_division_less_than_divisor(average as int, FP as int);
        lemma_div_pos_is_pos((average as int) % (FP as int), 10_000);
    }
    (average / FP, (average % FP) / 10_000)
}

/// The repeating timer that gates overlay refreshes: elapsed time below the
/// interval, accumulated each frame and wrapped on expiry.
#[derive(Clone, Copy, Debug, PartialEq, Eq, Structural)]
pub struct DebugUpdateTimer {
    /// Time accumulated since the last expiry, in microseconds.
    pub elapsed: i64,
    /// The repeat interval, in microseconds.
    pub interval: i64,
}

impl DebugUpdateTimer {
    /// The timer's accumulated time lies inside its interval.
    pub open spec fn wf(self) -> bool {
        &&& 0 < self.interval <= MAX_INTERVAL
        &&& 0 <= self.elapsed < self.interval
    }

    /// A fresh repeating timer with the given interval.
    pub fn new(interval: i64) -> (t: DebugUpdateTimer)
        requires
            0 < interval <= MAX_INTERVAL,
        ensures
            t.wf(),
            t.interval == interval,
            t.elapsed == 0,
    {
        DebugUpdateTimer { elapsed: 0, interval }
    }

    /// Advance the timer by a frame of `dt` microseconds.  Returns whether
    /// the interval expired during this frame; the accumulated time wraps
    /// around the interval, so a repeating cadence is kept.
    pub fn tick(&mut self, dt: i64) -> (just_finished: bool)
        requires
            old(self).wf(),
            0 <= dt <= MAX_DT,
        ensures
            final(self).wf(),
            final(self).interval == old(self).interval,
            just_finished <==> old(self).elapsed + dt >= old(self).interval,
            final(self).elapsed == (old(self).elapsed + dt) % (old(self).interval as int),
    {
        let total: i64 = self.elapsed + dt;
        if total >= self.interval {
            proof {
                lemma_div_pos_is_pos(total as int, self.interval as int);
                lemma_mod_division_less_than_divisor(total as int, self.interval as int);
            }
            self.elapsed = total % self.interval;
            true
        } else {
            proof {
                lemma_small_mod(total as nat, self.interval as nat);
            }
            self.elapsed = total;
            false
        }
    }
}

/// One overlay frame: advance the timer, and when it expires and the host's
/// diagnostics offer an average frame rate, grade that average for the
/// label.  Between expiries, or without a sample, the label keeps its color.
pub fn text_update_system(timer: &mut DebugUpdateTimer, dt: i64, average: Option<i64>) -> (r:
    Option<FpsColor>)
    requires
        old(timer).wf(),
        0 <= dt <= MAX_DT,
    ensures
        final(timer).wf(),
        final(timer).interval == old(timer).interval,
        final(timer).elapsed == (old(timer).elapsed + dt) % (old(timer).interval as int),
        r == (if old(timer).elapsed + dt >= old(timer).interval && average is Some {
            Some(spec_fps_color(average->0 as int))
        } else {
            None::<FpsColor>
        }),
{
    let expired: bool = timer.tick(dt);
    if expired {
        match average {
            Some(value) => Some(fps_color(value)),
            None => None,
        }
    } else {
        None
    }
}

} // verus!

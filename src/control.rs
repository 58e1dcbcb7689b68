use vstd::prelude::*;

verus! {

/// How one tick updates the long-term accumulation from the new error.
#[derive(Clone, Copy, Debug, PartialEq, Eq, Structural)]
pub enum LongtermUpdate {
    /// Take the error as it is (battery mode: no smoothing).
    Reset,
    /// Snap up to the error, which exceeds the old value.
    Rise,
    /// Move slowly toward the error: 0.99 of the old value, 0.01 of the error.
    Decay,
}

/// The speed offset that one tick adds to the PID output.
#[derive(Clone, Copy, Debug, PartialEq, Eq, Structural)]
pub enum SpeedOffset {
    /// No offset: the fan may stop.
    Stop,
    /// The base speed, shifted by the long-term accumulation times the
    /// falloff coefficient of the current power source.
    Falloff { battery: bool },
    /// The base speed alone.
    Base,
}

/// Which rules one tick of the controller applies.
#[derive(Clone, Copy, Debug, PartialEq, Eq, Structural)]
pub struct TickPlan {
    /// Whether the proportional and integral terms engage; where they do
    /// not, the PI output is zero.
    pub pi_active: bool,
    pub longterm: LongtermUpdate,
    pub offset: SpeedOffset,
}

/// The rules for a tick whose temperature is above the setpoint or not, at
/// or below the low threshold or not, whose error exceeds the long-term
/// accumulation or not, in battery mode or not.
pub open spec fn plan_of(
    above_setpoint: bool,
    at_or_below_low: bool,
    error_exceeds_longterm: bool,
    battery_mode: bool,
) -> TickPlan {
    TickPlan {
        pi_active: above_setpoint,
        longterm: if battery_mode {
            LongtermUpdate::Reset
        } else if error_exceeds_longterm {
            LongtermUpdate::Rise
        } else {
            LongtermUpdate::Decay
        },
        offset: if at_or_below_low && battery_mode {
            SpeedOffset::Stop
        } else if !above_setpoint {
            SpeedOffset::Falloff { battery: battery_mode }
        } else {
            SpeedOffset::Base
        },
    }
}

/// Decides which rules a tick applies, from the comparisons of its
/// temperature and error.
pub fn plan_tick(
    above_setpoint: bool,
    at_or_below_low: bool,
    error_exceeds_longterm: bool,
    battery_mode: bool,
) -> (r: TickPlan)
    ensures
        r == plan_of(above_setpoint, at_or_below_low, error_exceeds_longterm, battery_mode),
{
    let longterm = if battery_mode {
        LongtermUpdate::Reset
    } else if error_exceeds_longterm {
        LongtermUpdate::Rise
    } else {
        LongtermUpdate::Decay
    };
    let offset = if at_or_below_low && battery_mode {
        SpeedOffset::Stop
    } else if !above_setpoint {
        SpeedOffset::Falloff { battery: battery_mode }
    } else {
        SpeedOffset::Base
    };
    TickPlan { pi_active: above_setpoint, longterm, offset }
}

/// At or below the setpoint the proportional and integral terms stay off.
pub proof fn lemma_pi_off_at_or_below_setpoint(
    at_or_below_low: bool,
    error_exceeds_longterm: bool,
    battery_mode: bool,
)
    ensures
        !plan_of(false, at_or_below_low, error_exceeds_longterm, battery_mode).pi_active,
{
}

/// In battery mode the long-term accumulation is reset to the error, never
/// smoothed, whatever the temperature.
pub proof fn lemma_battery_resets_longterm(
    above_setpoint: bool,
    at_or_below_low: bool,
    error_exceeds_longterm: bool,
)
    ensures
        plan_of(above_setpoint, at_or_below_low, error_exceeds_longterm, true).longterm
            == LongtermUpdate::Reset,
{
}

} // verus!

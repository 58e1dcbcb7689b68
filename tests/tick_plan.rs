use fan_control::control::{plan_tick, LongtermUpdate, SpeedOffset, TickPlan};

#[test]
fn at_setpoint_on_ac_uses_falloff_and_no_pi() {
    // temperature 78 with setpoint 78: not above it, well above the low threshold
    let p = plan_tick(false, false, false, false);
    assert_eq!(
        p,
        TickPlan {
            pi_active: false,
            longterm: LongtermUpdate::Decay,
            offset: SpeedOffset::Falloff { battery: false },
        }
    );
}

#[test]
fn above_setpoint_uses_base_and_pi() {
    let p = plan_tick(true, false, true, false);
    assert!(p.pi_active);
    assert_eq!(p.longterm, LongtermUpdate::Rise);
    assert_eq!(p.offset, SpeedOffset::Base);
}

#[test]
fn cool_on_battery_lets_fan_stop() {
    let p = plan_tick(false, true, false, true);
    assert!(!p.pi_active);
    assert_eq!(p.offset, SpeedOffset::Stop);
}

#[test]
fn cool_on_ac_keeps_falloff() {
    let p = plan_tick(false, true, false, false);
    assert_eq!(p.offset, SpeedOffset::Falloff { battery: false });
}

#[test]
fn battery_resets_longterm() {
    for above in [false, true] {
        for exceeds in [false, true] {
            assert_eq!(plan_tick(above, false, exceeds, true).longterm, LongtermUpdate::Reset);
        }
    }
    assert_eq!(plan_tick(false, false, false, true).offset, SpeedOffset::Falloff { battery: true });
}

#[test]
fn pi_follows_setpoint_only() {
    for low in [false, true] {
        for exceeds in [false, true] {
            for battery in [false, true] {
                assert!(!plan_tick(false, low, exceeds, battery).pi_active);
                assert!(plan_tick(true, low, exceeds, battery).pi_active);
            }
        }
    }
}

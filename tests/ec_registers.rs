use fan_control::ec::{FanSpeedController, RegisterWrite};

fn fan(min_speed: u8, max_speed: u8) -> FanSpeedController {
    FanSpeedController {
        ec_path: String::from("/dev/null"),
        manual_enable_address: 21,
        speed_control_address: 25,
        min_speed,
        max_speed,
    }
}

#[test]
fn enable_writes_one_to_manual_register() {
    let w = fan(0, 59).enable_manual_control();
    assert_eq!(w, RegisterWrite { address: 21, value: 1 });
}

#[test]
fn disable_writes_zero_to_manual_register() {
    let w = fan(0, 59).disable_manual_control();
    assert_eq!(w, RegisterWrite { address: 21, value: 0 });
}

#[test]
fn disable_twice_is_the_same_write() {
    let c = fan(0, 59);
    let first = c.disable_manual_control();
    let second = c.disable_manual_control();
    assert_eq!(first, second);
    let mut regs = vec![7u8; 64];
    regs[first.address as usize] = first.value;
    let once = regs.clone();
    regs[second.address as usize] = second.value;
    assert_eq!(regs, once);
    assert_eq!(regs[21], 0);
}

#[test]
fn write_ec_addresses_the_given_register() {
    assert_eq!(fan(0, 59).write_ec(300, 9), RegisterWrite { address: 300, value: 9 });
}

#[test]
fn duty_endpoints_and_midpoint() {
    let c = fan(0, 59);
    assert_eq!(c.write_speed(0), RegisterWrite { address: 25, value: 0 });
    assert_eq!(c.write_speed(50), RegisterWrite { address: 25, value: 29 });
    assert_eq!(c.write_speed(100), RegisterWrite { address: 25, value: 59 });
}

#[test]
fn duty_with_raised_floor() {
    let c = fan(10, 110);
    assert_eq!(c.write_speed(0).value, 10);
    assert_eq!(c.write_speed(50).value, 60);
    assert_eq!(c.write_speed(100).value, 110);
    assert_eq!(c.write_speed(33).value, 43);
}

#[test]
fn duty_full_byte_range() {
    let c = fan(0, 255);
    assert_eq!(c.write_speed(100).value, 255);
    assert_eq!(c.write_speed(50).value, 127);
    assert_eq!(c.write_speed(1).value, 2);
}

#[test]
fn duty_on_a_fixed_speed_fan() {
    let c = fan(40, 40);
    assert_eq!(c.write_speed(0).value, 40);
    assert_eq!(c.write_speed(100).value, 40);
}

#[test]
fn duty_is_monotonic() {
    let c = fan(3, 59);
    let mut last = c.write_speed(0).value;
    for p in 1..=100u8 {
        let v = c.write_speed(p).value;
        assert!(v >= last);
        last = v;
    }
}

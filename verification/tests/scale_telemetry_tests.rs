use mecanum_base::{sample, sampler_pass, to_scale, MotorCounts, PwmInput, TelemetryCell};

#[test]
fn scale_endpoints() {
    // full reverse lands on the minimum, full forward on the maximum
    assert_eq!(to_scale(2100, 1050, -1000), 1050);
    assert_eq!(to_scale(2100, 1050, 1000), 2100);
    assert_eq!(to_scale(100, 50, -1000), 50);
    assert_eq!(to_scale(100, 50, 1000), 100);
    assert_eq!(to_scale(65535, 0, 1000), 65535);
    assert_eq!(to_scale(7, 7, 0), 7);
}

#[test]
fn scale_neutral_is_midpoint() {
    assert_eq!(to_scale(2100, 1050, 0), 1575);
    assert_eq!(to_scale(100, 50, 0), 75);
    // odd span rounds toward negative infinity
    assert_eq!(to_scale(101, 50, 0), 75);
}

#[test]
fn scale_is_monotonic() {
    let mut previous = to_scale(2100, 1050, -1000);
    for v in (-1000..=1000).step_by(25) {
        let duty = to_scale(2100, 1050, v as i16);
        assert!(duty >= previous, "duty must not drop as the command grows");
        previous = duty;
    }
}

#[test]
fn sampler_pass_is_visible_whole() {
    // hardware counters at (NE=100, SE=200, NW=300, SW=400): the reader
    // sees exactly those four values, atomically
    let mut cell = TelemetryCell::new();
    sampler_pass(&mut cell, 100, 200, 300, 400);
    let seen = cell.read();
    assert_eq!(seen.north_east, 100);
    assert_eq!(seen.south_east, 200);
    assert_eq!(seen.north_west, 300);
    assert_eq!(seen.south_west, 400);
    assert_eq!(seen, sample(100, 200, 300, 400));
}

#[test]
fn cell_starts_all_zero() {
    let cell = TelemetryCell::new();
    let seen = cell.read();
    assert_eq!(
        seen,
        MotorCounts { north_west: 0, north_east: 0, south_east: 0, south_west: 0 }
    );
}

#[test]
fn read_returns_most_recent_pass() {
    let mut cell = TelemetryCell::new();
    cell.publish(sample(1, 2, 3, 4));
    cell.publish(sample(5, 6, 7, 8));
    let seen = cell.read();
    assert_eq!(seen, sample(5, 6, 7, 8));
}

#[test]
fn counter_widths_are_native() {
    // the 32-bit channels hold counts the 16-bit ones cannot
    let snap = sample(0xffff_ffff, 0xffff, 0x1_0000, 0);
    assert_eq!(snap.north_east, 0xffff_ffff);
    assert_eq!(snap.north_west, 0x1_0000);
    assert_eq!(snap.south_east, 0xffff);
}

#[test]
fn pwm_input_reports_latched_counts() {
    let capture = PwmInput::new(5000, 1250);
    assert_eq!(capture.get_period(), 5000);
    assert_eq!(capture.get_duty_cycle(), 1250);
}

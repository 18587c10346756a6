use battery_report::error::PowerError;
use battery_report::runtime::{
    combined_runtime, estimate_runtime, format_time, Runtime, MILLIS_PER_HOUR,
};
use battery_report::supply::PowerSupply;

fn battery(name: &str, energy: &str, power: &str) -> PowerSupply {
    let mut ps = PowerSupply::new(format!("/sys/class/power_supply/{}", name));
    ps.set_prop("type", "Battery\n".to_string());
    ps.set_prop("energy_now", energy.to_string());
    ps.set_prop("power_now", power.to_string());
    ps
}

#[test]
fn an_hour_has_3_600_000_milliseconds() {
    assert_eq!(MILLIS_PER_HOUR, 60 * 60 * 1000);
}

#[test]
fn estimate_is_energy_over_power() {
    assert_eq!(estimate_runtime(70_000_000, 25_000_000), Runtime::Millis(10_080_000));
    assert_eq!(estimate_runtime(30_000_000, 15_000_000), Runtime::Millis(7_200_000));
    assert_eq!(estimate_runtime(5, 2), Runtime::Millis(9_000_000));
    assert_eq!(estimate_runtime(99, 100), Runtime::Millis(3_564_000));
    assert_eq!(estimate_runtime(0, 7), Runtime::Millis(0));
    assert_eq!(estimate_runtime(1, 3), Runtime::Millis(1_200_000));
    assert_eq!(estimate_runtime(1, 7), Runtime::Millis(514_285));
    assert_eq!(estimate_runtime(1, 3_600_001), Runtime::Millis(0));
    assert_eq!(estimate_runtime(1, 3_600_000), Runtime::Millis(1));
}

#[test]
fn estimate_without_draw_is_unknown() {
    assert_eq!(estimate_runtime(0, 0), Runtime::Unknown);
    assert_eq!(estimate_runtime(1, 0), Runtime::Unknown);
    assert_eq!(estimate_runtime(u128::MAX, 0), Runtime::Unknown);
}

#[test]
fn estimate_is_capped() {
    let limit = (u64::MAX / 3_600_000) as u128;
    assert_eq!(estimate_runtime(limit, 1), Runtime::Millis((limit * 3_600_000) as u64));
    assert_eq!(estimate_runtime(limit + 1, 1), Runtime::Millis(u64::MAX));
    assert_eq!(estimate_runtime(u128::MAX, 1), Runtime::Millis(u64::MAX));
    assert_eq!(estimate_runtime(u64::MAX as u128, 3_600_000), Runtime::Millis(u64::MAX));
    assert_eq!(estimate_runtime(u64::MAX as u128, 3_600_001),
        Runtime::Millis(((u64::MAX as u128) * 3_600_000 / 3_600_001) as u64));
    assert_eq!(estimate_runtime(u64::MAX as u128 + 1, 3_600_000), Runtime::Millis(u64::MAX));
}

#[test]
fn estimate_of_large_sums_is_exact() {
    // energy * 3_600_000 does not fit in 128 bits here
    assert_eq!(estimate_runtime(u128::MAX - 1, u128::MAX), Runtime::Millis(3_599_999));
    assert_eq!(estimate_runtime(u128::MAX, u128::MAX), Runtime::Millis(3_600_000));
    assert_eq!(estimate_runtime(1 << 127, u128::MAX), Runtime::Millis(1_800_000));
    assert_eq!(estimate_runtime((1 << 127) - 1, u128::MAX), Runtime::Millis(1_799_999));
    assert_eq!(estimate_runtime(1 << 126, 1 << 127), Runtime::Millis(1_800_000));
    assert_eq!(estimate_runtime(3 << 120, 1 << 122), Runtime::Millis(2_700_000));
    assert_eq!(estimate_runtime((1 << 127) + 1, 1 << 127), Runtime::Millis(3_600_000));
    assert_eq!(estimate_runtime(u128::MAX, 1 << 127), Runtime::Millis(7_199_999));
    assert_eq!(estimate_runtime(u128::MAX / 3, u128::MAX), Runtime::Millis(1_200_000));
    assert_eq!(estimate_runtime(u128::MAX / 7, u128::MAX), Runtime::Millis(514_285));
    assert_eq!(estimate_runtime(u128::MAX / 3_600_000, u128::MAX), Runtime::Millis(0));
    assert_eq!(estimate_runtime(u128::MAX / 3_600_000 + 1, u128::MAX), Runtime::Millis(1));
    let p: u128 = (1 << 110) + 12345;
    assert_eq!(estimate_runtime(p - 1, p), Runtime::Millis(3_599_999));
    assert_eq!(estimate_runtime(5 * p + p / 2, p), Runtime::Millis(5 * 3_600_000 + 1_799_999));
}

#[test]
fn estimate_agrees_with_wide_arithmetic() {
    let energies = [0u128, 1, 59, 60, 3_599, 3_600, 1_000_000, 70_000_000, 1 << 64, (1 << 100) + 7];
    let powers = [1u128, 2, 7, 60, 3_600, 999_983, 25_000_000, 1 << 40, (1 << 64) - 1, (1 << 100) + 9];
    for e in energies.iter() {
        for p in powers.iter() {
            let exact = e * 3_600_000 / p;
            let expected = if exact > u64::MAX as u128 { u64::MAX } else { exact as u64 };
            assert_eq!(estimate_runtime(*e, *p), Runtime::Millis(expected), "{} / {}", e, p);
        }
    }
}

#[test]
fn combined_runtime_sums_energy_and_power() {
    let batteries = vec![
        battery("BAT0", "30000000\n", "15000000\n"),
        battery("BAT1", "40000000\n", "10000000\n"),
    ];
    assert_eq!(combined_runtime(&batteries), Ok(Runtime::Millis(10_080_000)));
    let batteries = vec![
        battery("BAT0", "1\n", "0\n"),
        battery("BAT1", "2\n", "4\n"),
        battery("BAT2", "3\n", "0\n"),
    ];
    assert_eq!(combined_runtime(&batteries), Ok(Runtime::Millis(5_400_000)));
    let one = vec![battery("BAT0", "50000000\n", "20000000\n")];
    assert_eq!(combined_runtime(&one), Ok(Runtime::Millis(9_000_000)));
}

#[test]
fn combined_runtime_of_no_batteries_is_unknown() {
    assert_eq!(combined_runtime(&[]), Ok(Runtime::Unknown));
    assert_eq!(format_time(combined_runtime(&[]).unwrap()), "unknown");
}

#[test]
fn combined_runtime_without_draw_is_unknown() {
    let batteries = vec![battery("BAT0", "30000000\n", "0\n"), battery("BAT1", "0\n", "0\n")];
    assert_eq!(combined_runtime(&batteries), Ok(Runtime::Unknown));
}

#[test]
fn combined_runtime_does_not_overflow() {
    let batteries = vec![
        battery("BAT0", "18446744073709551615\n", "18446744073709551615\n"),
        battery("BAT1", "18446744073709551615\n", "18446744073709551615\n"),
        battery("BAT2", "18446744073709551615\n", "0\n"),
    ];
    assert_eq!(combined_runtime(&batteries), Ok(Runtime::Millis(5_400_000)));
}

#[test]
fn combined_runtime_needs_every_reading() {
    let mut no_power = PowerSupply::new("/p/BAT1".to_string());
    no_power.set_prop("energy_now", "1\n".to_string());
    let mut no_energy = PowerSupply::new("/p/BAT1".to_string());
    no_energy.set_prop("power_now", "1\n".to_string());
    let good = || battery("BAT0", "30000000\n", "15000000\n");
    assert_eq!(combined_runtime(&[good(), no_power]), Err(PowerError));
    assert_eq!(combined_runtime(&[no_energy, good()]), Err(PowerError));
    assert_eq!(combined_runtime(&[good(), battery("BAT1", "1.5\n", "1\n")]), Err(PowerError));
    assert_eq!(combined_runtime(&[good(), battery("BAT1", "1\n", "-1\n")]), Err(PowerError));
    assert_eq!(combined_runtime(&[battery("BAT1", " 1\n", "1\n")]), Err(PowerError));
}

#[test]
fn format_time_truncates() {
    assert_eq!(format_time(Runtime::Millis(9_000_000)), "2h30m");
    assert_eq!(format_time(Runtime::Millis(3_564_000)), "0h59m");
    assert_eq!(format_time(Runtime::Millis(10_080_000)), "2h48m");
    assert_eq!(format_time(Runtime::Millis(0)), "0h0m");
    assert_eq!(format_time(Runtime::Millis(59_999)), "0h0m");
    assert_eq!(format_time(Runtime::Millis(60_000)), "0h1m");
    assert_eq!(format_time(Runtime::Millis(3_599_999)), "0h59m");
    assert_eq!(format_time(Runtime::Millis(3_600_000)), "1h0m");
    assert_eq!(format_time(Runtime::Millis(36_000_000)), "10h0m");
    assert_eq!(format_time(Runtime::Millis(86_399_999)), "23h59m");
    assert_eq!(format_time(Runtime::Millis(u64::MAX)), "5124095576030h25m");
}

#[test]
fn format_time_of_no_estimate() {
    assert_eq!(format_time(Runtime::Unknown), "unknown");
}

#[test]
fn formatted_estimate_is_whole_hours_and_minutes() {
    let cases = [(70_000_000u64, 25_000_000u64), (5, 2), (99, 100), (1, 3), (7, 7), (1000, 1), (59, 60)];
    for (e, p) in cases.iter() {
        let expected = format!("{}h{}m", e / p, (e % p) * 60 / p);
        assert_eq!(format_time(estimate_runtime(*e as u128, *p as u128)), expected);
    }
}

use pixi_assistant::compare::meets_threshold;
use pixi_assistant::decode::decode_cache_dir;
use pixi_assistant::display::{gb_hundredths, render_hundredths, render_threshold};
use pixi_assistant::report::{evaluate, run_check};

const GIB: u64 = 1024 * 1024 * 1024;

#[test]
fn boundary_exact_threshold_passes() {
    assert!(meets_threshold(5 * GIB, (5.0f64).to_bits()));
}

#[test]
fn one_byte_below_threshold_fails() {
    assert!(!meets_threshold(5 * GIB - 1, (5.0f64).to_bits()));
}

#[test]
fn comparison_is_exact_despite_display_rounding() {
    // One byte short of 5 GiB still displays as "5.00" but must fail:
    // rounding is for display only, never for the decision.
    let bytes = 5 * GIB - 1;
    assert_eq!(render_hundredths(gb_hundredths(bytes) as u128), "5.00");
    assert!(!meets_threshold(bytes, (5.0f64).to_bits()));
}

#[test]
fn nan_threshold_never_passes() {
    assert!(!meets_threshold(u64::MAX, f64::NAN.to_bits()));
    assert!(!meets_threshold(0, f64::NAN.to_bits()));
}

#[test]
fn negative_threshold_always_passes() {
    assert!(meets_threshold(0, (-1.5f64).to_bits()));
    assert!(meets_threshold(0, (-0.0f64).to_bits()));
    assert!(meets_threshold(0, f64::NEG_INFINITY.to_bits()));
}

#[test]
fn zero_threshold_passes_with_nothing_free() {
    assert!(meets_threshold(0, (0.0f64).to_bits()));
}

#[test]
fn infinite_threshold_never_passes() {
    assert!(!meets_threshold(u64::MAX, f64::INFINITY.to_bits()));
}

#[test]
fn huge_finite_threshold_never_passes() {
    assert!(!meets_threshold(u64::MAX, (1.0e300f64).to_bits()));
}

#[test]
fn subnormal_threshold_decided_by_a_single_byte() {
    let tiny = f64::from_bits(1); // the smallest positive double
    assert!(meets_threshold(1, tiny.to_bits()));
    assert!(!meets_threshold(0, tiny.to_bits()));
}

#[test]
fn fractional_threshold_compares_exactly() {
    // 0.5 GB is exactly 2^29 bytes.
    assert!(meets_threshold(1 << 29, (0.5f64).to_bits()));
    assert!(!meets_threshold((1 << 29) - 1, (0.5f64).to_bits()));
    // The double written 0.1 is slightly above one tenth, so the floor of
    // GIB / 10 bytes falls short and one more byte suffices.
    let tenth = GIB / 10;
    assert!(!meets_threshold(tenth, (0.1f64).to_bits()));
    assert!(meets_threshold(tenth + 1, (0.1f64).to_bits()));
}

#[test]
fn decision_matches_float_comparison_on_typical_values() {
    for bytes in [0, 1, GIB - 1, GIB, 5 * GIB, 10 * GIB, 100 * GIB + 7] {
        for t in [0.0f64, 0.5, 1.0, 5.0, 9.99, 10.0, 10.0000001, 20.0] {
            let expect = (bytes as f64 / GIB as f64) >= t;
            assert_eq!(meets_threshold(bytes, t.to_bits()), expect, "bytes={bytes} t={t}");
        }
    }
}

#[test]
fn renders_whole_gigabytes() {
    assert_eq!(render_hundredths(gb_hundredths(10 * GIB) as u128), "10.00");
    assert_eq!(render_hundredths(gb_hundredths(GIB) as u128), "1.00");
}

#[test]
fn renders_fractional_gigabytes() {
    assert_eq!(render_hundredths(gb_hundredths(GIB + GIB / 2) as u128), "1.50");
    assert_eq!(render_hundredths(gb_hundredths(GIB / 4) as u128), "0.25");
}

#[test]
fn rounds_tiny_counts_down_to_zero() {
    assert_eq!(render_hundredths(gb_hundredths(0) as u128), "0.00");
    assert_eq!(render_hundredths(gb_hundredths(1) as u128), "0.00");
}

#[test]
fn pads_hundredths_with_zeros() {
    assert_eq!(render_hundredths(5), "0.05");
    assert_eq!(render_hundredths(230), "2.30");
    assert_eq!(render_hundredths(1234), "12.34");
}

#[test]
fn rounds_ties_to_even() {
    // 2^27 bytes is exactly 0.125 GB: 12.5 hundredths, which rounds to 12.
    assert_eq!(gb_hundredths(1 << 27), 12);
    // 3 * 2^27 bytes is exactly 0.375 GB: 37.5 rounds to 38.
    assert_eq!(gb_hundredths(3 << 27), 38);
}

#[test]
fn display_matches_standard_formatter() {
    for bytes in [
        0u64,
        1,
        GIB - 1,
        GIB,
        1 << 27,
        3 << 27,
        3 * GIB + 123456789,
        700 * GIB + 55,
        u64::MAX,
    ] {
        let expect = format!("{:.2}", bytes as f64 / GIB as f64);
        assert_eq!(render_hundredths(gb_hundredths(bytes) as u128), expect, "bytes={bytes}");
    }
}

#[test]
fn renders_threshold_displays() {
    assert_eq!(render_threshold((20.0f64).to_bits()).unwrap(), "20.00");
    assert_eq!(render_threshold((0.125f64).to_bits()).unwrap(), "0.12");
    assert_eq!(render_threshold((0.375f64).to_bits()).unwrap(), "0.38");
    assert_eq!(render_threshold((-2.5f64).to_bits()).unwrap(), "-2.50");
    assert_eq!(render_threshold(f64::NAN.to_bits()).unwrap(), "NaN");
    assert_eq!(render_threshold(f64::INFINITY.to_bits()).unwrap(), "inf");
    assert_eq!(render_threshold(f64::NEG_INFINITY.to_bits()).unwrap(), "-inf");
}

#[test]
fn threshold_display_matches_standard_formatter() {
    for t in [
        0.0f64, -0.0, 0.005, 0.015, 0.1, 1.0, 2.5, 19.999, 20.0, 123.456, 1.0e15, 4.0e18,
        -7.25,
    ] {
        let expect = format!("{t:.2}");
        assert_eq!(render_threshold(t.to_bits()).unwrap(), expect, "t={t}");
    }
}

#[test]
fn overlarge_threshold_has_no_display() {
    assert!(render_threshold((1.0e300f64).to_bits()).is_none());
}

#[test]
fn decodes_cache_dir() {
    let json = "{\"cache_dir\":\"/tmp/cache\"}".as_bytes();
    assert_eq!(decode_cache_dir(json).unwrap(), "/tmp/cache");
}

#[test]
fn decodes_cache_dir_among_other_fields() {
    let json = "{\"platform\":\"linux\",\"cache_dir\":\"/var/pixi\",\"version\":2}".as_bytes();
    assert_eq!(decode_cache_dir(json).unwrap(), "/var/pixi");
}

#[test]
fn rejects_invalid_json() {
    assert!(decode_cache_dir(b"not json at all").is_none());
    assert!(decode_cache_dir(b"").is_none());
}

#[test]
fn rejects_missing_field() {
    assert!(decode_cache_dir("{\"other\":1}".as_bytes()).is_none());
}

#[test]
fn rejects_non_string_field() {
    assert!(decode_cache_dir("{\"cache_dir\":5}".as_bytes()).is_none());
    assert!(decode_cache_dir("{\"cache_dir\":null}".as_bytes()).is_none());
}

#[test]
fn scenario_sufficient_space() {
    let rep = evaluate("/tmp/cache", 10 * GIB, (5.0f64).to_bits());
    assert!(rep.success);
    let msg = rep.message.unwrap();
    assert!(msg.contains("10.00 GB"));
    assert!(msg.contains("/tmp/cache"));
    assert_eq!(msg, "✓ Cache directory /tmp/cache has sufficient space available (10.00 GB)");
}

#[test]
fn scenario_insufficient_space() {
    let rep = evaluate("/tmp/cache", 10 * GIB, (20.0f64).to_bits());
    assert!(!rep.success);
    let msg = rep.message.unwrap();
    assert!(msg.contains("10.00 GB"));
    assert!(msg.contains("20.00 GB"));
    assert!(msg.contains("/tmp/cache"));
    assert_eq!(
        msg,
        "✗ Cache directory /tmp/cache has insufficient space (10.00 GB), please set \
         PIXI_CACHE_DIR to a location with at least 20.00 GB free."
    );
}

#[test]
fn scenario_command_failure() {
    let rep = run_check(false, b"{\"cache_dir\":\"/tmp/cache\"}", (5.0f64).to_bits());
    assert!(!rep.success);
    assert_eq!(rep.message.unwrap(), "Error: Failed to run 'pixi info --json'");
}

#[test]
fn decode_failure_is_reported() {
    let rep = run_check(true, b"gibberish", (5.0f64).to_bits());
    assert!(!rep.success);
    assert_eq!(rep.message.unwrap(), "Error: Failed to parse pixi info JSON");
}

#[test]
fn space_query_failure_names_the_path() {
    let json = "{\"cache_dir\":\"/no/such/directory/for/this/check\"}".as_bytes();
    let rep = run_check(true, json, (1.0f64).to_bits());
    assert!(!rep.success);
    let msg = rep.message.unwrap();
    assert!(msg.starts_with("Error: Failed to get available space for /no/such/directory/for/this/check: "));
}

#[test]
fn full_run_against_the_root_directory() {
    // A threshold of zero is met wherever the space query itself succeeds.
    let rep = run_check(true, b"{\"cache_dir\":\"/\"}", (0.0f64).to_bits());
    assert!(rep.success);
    assert!(rep.message.unwrap().starts_with("✓ Cache directory / has sufficient space available ("));
}

#[test]
fn overlarge_threshold_report_carries_context() {
    let rep = evaluate("/tmp/cache", 10 * GIB, (1.0e300f64).to_bits());
    assert!(!rep.success);
    assert!(rep.message.is_none());
    assert_eq!(rep.cache_dir.unwrap(), "/tmp/cache");
    assert_eq!(rep.avail_bytes.unwrap(), 10 * GIB);
}

use image_wasm::scale::{compute_target, TargetGeometry};

/// The same policy written with the machine's binary64 arithmetic.
fn with_machine_arithmetic(width: u32, height: u32, long_edge: u32) -> TargetGeometry {
    let edge = long_edge.max(1);
    let longest = width.max(height);
    let scale = edge as f64 / longest as f64;
    let w = (width as f64 * scale).round().clamp(1.0, u32::MAX as f64) as u32;
    let h = (height as f64 * scale).round().clamp(1.0, u32::MAX as f64) as u32;
    TargetGeometry { width: w, height: h, resized: w != width || h != height }
}

fn next(state: &mut u64) -> u64 {
    *state ^= *state << 13;
    *state ^= *state >> 7;
    *state ^= *state << 17;
    *state
}

#[test]
fn upscale_is_permitted() {
    let t = compute_target(100, 50, 200);
    assert_eq!(t, TargetGeometry { width: 200, height: 100, resized: true });
}

#[test]
fn zero_long_edge_is_served_as_one() {
    let zero = compute_target(1000, 1000, 0);
    let one = compute_target(1000, 1000, 1);
    assert_eq!(zero, one);
    assert_eq!(zero, TargetGeometry { width: 1, height: 1, resized: true });
}

#[test]
fn matching_long_edge_changes_nothing() {
    for &(w, h) in &[(1u32, 1u32), (640, 480), (480, 640), (4000, 2000), (3, 4_294_967_295), (4_294_967_295, 7)] {
        let t = compute_target(w, h, w.max(h));
        assert_eq!(t, TargetGeometry { width: w, height: h, resized: false });
    }
}

#[test]
fn landscape_photo_is_halved_to_fit() {
    let t = compute_target(4000, 2000, 1024);
    assert_eq!(t, TargetGeometry { width: 1024, height: 512, resized: true });
}

#[test]
fn ties_go_away_from_zero() {
    assert_eq!(compute_target(5, 1000, 500).width, 3);
    assert_eq!(compute_target(7, 1000, 500).width, 4);
    assert_eq!(compute_target(1, 1000, 500).width, 1);
    assert_eq!(compute_target(3, 1000, 500).width, 2);
}

#[test]
fn vanishing_side_is_held_at_one() {
    let t = compute_target(1, 1000, 499);
    assert_eq!(t, TargetGeometry { width: 1, height: 499, resized: true });
    let t = compute_target(4_294_967_295, 1, 1);
    assert_eq!(t, TargetGeometry { width: 1, height: 1, resized: true });
}

#[test]
fn longer_side_takes_the_long_edge() {
    let mut state: u64 = 0x9e37_79b9_7f4a_7c15;
    for _ in 0..20_000 {
        let w = (next(&mut state) >> 32) as u32 | 1;
        let h = (next(&mut state) >> 40) as u32 | 1;
        let e = (next(&mut state) >> 32) as u32;
        let t = compute_target(w, h, e);
        assert_eq!(t.width.max(t.height), e.max(1));
        assert!(t.width >= 1 && t.height >= 1);
    }
}

#[test]
fn each_side_is_within_one_of_the_exact_scaling() {
    let mut state: u64 = 0x0123_4567_89ab_cdef;
    for _ in 0..20_000 {
        let w = (next(&mut state) >> 36) as u32 | 1;
        let h = (next(&mut state) >> 32) as u32 | 1;
        let e = ((next(&mut state) >> 34) as u32).max(1);
        let t = compute_target(w, h, e);
        let m = w.max(h) as i128;
        let dw = m * t.width as i128 - w as i128 * e as i128;
        let dh = m * t.height as i128 - h as i128 * e as i128;
        assert!(-m < dw && dw < m);
        assert!(-m < dh && dh < m);
        let cross = t.width as i128 * h as i128 - t.height as i128 * w as i128;
        assert!(cross.abs() < w as i128 + h as i128);
    }
}

#[test]
fn agrees_with_machine_arithmetic_on_small_sizes() {
    for w in 1..=40u32 {
        for h in 1..=40u32 {
            for e in 0..=90u32 {
                assert_eq!(compute_target(w, h, e), with_machine_arithmetic(w, h, e));
            }
        }
    }
}

#[test]
fn agrees_with_machine_arithmetic_on_sampled_sizes() {
    let mut state: u64 = 0xdead_beef_cafe_f00d;
    for round in 0..200_000u32 {
        let shift_w = 32 + (next(&mut state) % 32) as u32;
        let shift_h = 32 + (next(&mut state) % 32) as u32;
        let shift_e = 32 + (next(&mut state) % 32) as u32;
        let w = ((next(&mut state) >> shift_w) as u32).max(1);
        let h = ((next(&mut state) >> shift_h) as u32).max(1);
        let e = (next(&mut state) >> shift_e) as u32;
        assert_eq!(
            compute_target(w, h, e),
            with_machine_arithmetic(w, h, e),
            "round {round}: {w} x {h} to {e}"
        );
    }
}

#[test]
fn agrees_with_machine_arithmetic_at_the_limits() {
    let edges = [1u32, 2, 3, 0x7fff_ffff, 0x8000_0000, 0x8000_0001, 0xffff_fffe, 0xffff_ffff];
    for &w in &edges {
        for &h in &edges {
            for &e in &edges {
                assert_eq!(compute_target(w, h, e), with_machine_arithmetic(w, h, e));
            }
            assert_eq!(compute_target(w, h, 0), with_machine_arithmetic(w, h, 0));
        }
    }
}

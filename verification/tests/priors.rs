//! The prior generator: count invariant, ordering and exact values.
use faceblur::priors::{generate_priors, generate_priors_640, Prior};

#[test]
fn prior_count_is_17640() {
    let priors = generate_priors_640();
    assert_eq!(priors.len(), 17640);
}

#[test]
fn prior_count_matches_schedule_sum() {
    // 80*60*3 + 40*30*2 + 20*15*2 + 10*8*3
    let priors = generate_priors_640();
    assert_eq!(priors.len(), 80 * 60 * 3 + 40 * 30 * 2 + 20 * 15 * 2 + 10 * 8 * 3);
}

#[test]
fn first_cell_priors_are_exact() {
    // Cell (0, 0) of scale 0: center numerators (2*0+1)*8 = 8 over 1280
    // and 960, sizes 10, 16, 24 giving width numerators 20, 32, 48.
    let priors = generate_priors_640();
    assert_eq!(priors[0], Prior { cx: 8, cy: 8, w: 20, h: 20 });
    assert_eq!(priors[1], Prior { cx: 8, cy: 8, w: 32, h: 32 });
    assert_eq!(priors[2], Prior { cx: 8, cy: 8, w: 48, h: 48 });
    // Cell (0, 1) of scale 0: cx numerator (2*1+1)*8 = 24.
    assert_eq!(priors[3], Prior { cx: 24, cy: 8, w: 20, h: 20 });
}

#[test]
fn second_scale_starts_after_first_grid() {
    // Scale 1 begins at index 80*60*3: step 16, first size 32.
    let priors = generate_priors_640();
    assert_eq!(priors[14400], Prior { cx: 16, cy: 16, w: 64, h: 64 });
}

#[test]
fn generator_is_deterministic() {
    let a = generate_priors_640();
    let b = generate_priors_640();
    assert_eq!(a, b);
}

#[test]
fn general_generator_single_scale() {
    // One 2x1 grid, step 4, one size 3: two priors in row-major order.
    let maps = vec![(2u32, 1u32)];
    let sizes = vec![vec![3u32]];
    let steps = vec![4u32];
    let priors = generate_priors(&maps, &sizes, &steps);
    assert_eq!(priors.len(), 2);
    assert_eq!(priors[0], Prior { cx: 4, cy: 4, w: 6, h: 6 });
    assert_eq!(priors[1], Prior { cx: 12, cy: 4, w: 6, h: 6 });
}

use rays::estimate::{estimate_step, needs_trace, Bounce, Step};
use rays::render::{
    check_render_params, image_row, pixel_index, samples_for_worker, split_samples, RenderError,
};

#[test]
fn samples_split_evenly_with_remainder_first() {
    assert_eq!(split_samples(10, 3), vec![4, 3, 3]);
    assert_eq!(split_samples(200, 32)[..8], [7, 7, 7, 7, 7, 7, 7, 7]);
    assert_eq!(split_samples(200, 32)[8..], [6; 24]);
    assert_eq!(split_samples(0, 4), vec![0, 0, 0, 0]);
    assert_eq!(split_samples(5, 1), vec![5]);
    assert_eq!(split_samples(2, 5), vec![1, 1, 0, 0, 0]);
}

#[test]
fn sample_shares_add_up_to_total() {
    for total in [0u32, 1, 2, 7, 100, 401, 1000] {
        for workers in 1u32..=40 {
            let shares = split_samples(total, workers);
            assert_eq!(shares.len(), workers as usize);
            assert_eq!(shares.iter().map(|&s| s as u64).sum::<u64>(), total as u64);
            for (i, &s) in shares.iter().enumerate() {
                assert_eq!(s, samples_for_worker(total, workers, i as u32));
            }
        }
    }
    let shares = split_samples(u32::MAX, 7);
    assert_eq!(shares.iter().map(|&s| s as u64).sum::<u64>(), u32::MAX as u64);
}

#[test]
fn render_parameters_are_checked() {
    assert_eq!(check_render_params(400, 225, 100, 50, 8), Ok(()));
    assert_eq!(check_render_params(0, 225, 100, 50, 8), Err(RenderError::ZeroWidth));
    assert_eq!(check_render_params(400, 0, 100, 50, 8), Err(RenderError::ZeroHeight));
    assert_eq!(check_render_params(400, 225, 0, 50, 8), Err(RenderError::ZeroSamples));
    assert_eq!(check_render_params(400, 225, 100, 0, 8), Err(RenderError::ZeroDepth));
    assert_eq!(check_render_params(400, 225, 100, 50, 0), Err(RenderError::ZeroWorkers));
    assert_eq!(check_render_params(0, 0, 0, 0, 0), Err(RenderError::ZeroWidth));
}

#[test]
fn pixels_are_row_major() {
    assert_eq!(pixel_index(400, 0, 0), 0);
    assert_eq!(pixel_index(400, 399, 0), 399);
    assert_eq!(pixel_index(400, 5, 3), 1205);
    assert_eq!(image_row(225, 0), 224);
    assert_eq!(image_row(225, 224), 0);
}

#[test]
fn estimate_without_budget_is_black() {
    assert!(!needs_trace(0));
    assert!(needs_trace(1));
    for bounce in [Bounce::Miss, Bounce::Absorbed, Bounce::Scattered] {
        assert_eq!(estimate_step(0, bounce), Step::Black);
    }
}

#[test]
fn estimate_steps_follow_the_bounce() {
    assert_eq!(estimate_step(50, Bounce::Miss), Step::Background);
    assert_eq!(estimate_step(50, Bounce::Absorbed), Step::Emitted);
    assert_eq!(
        estimate_step(50, Bounce::Scattered),
        Step::EmittedPlusScattered { depth_budget: 49 }
    );
    assert_eq!(
        estimate_step(1, Bounce::Scattered),
        Step::EmittedPlusScattered { depth_budget: 0 }
    );
}

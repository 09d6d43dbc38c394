use rusticnes_wasm::stepper::{run_until_vblank, StepPhase, VBLANK_START};

const SCANLINES_PER_FRAME: u16 = 262;

/// Steps a scanline counter that wraps at the end of the frame, as the
/// driver asks, and gives back the number of scanlines run and the scanline
/// reached.
fn step_frame(start: u16) -> (u32, u16) {
    let mut scanline = start;
    let mut phase = StepPhase::Flushing;
    let mut run = 0u32;
    while run_until_vblank(&mut phase, scanline) {
        scanline = (scanline + 1) % SCANLINES_PER_FRAME;
        run += 1;
        assert!(run < 10_000);
    }
    assert_eq!(phase, StepPhase::Finished);
    (run, scanline)
}

#[test]
fn vblank_start_is_scanline_242() {
    assert_eq!(VBLANK_START, 242);
}

#[test]
fn step_from_vblank_start_runs_a_whole_frame() {
    let (run, reached) = step_frame(VBLANK_START);
    assert_eq!(run, 262);
    assert_eq!(reached, VBLANK_START);
}

#[test]
fn step_from_vblank_start_never_ends_at_once() {
    let mut phase = StepPhase::Flushing;
    assert!(run_until_vblank(&mut phase, VBLANK_START));
    assert_eq!(phase, StepPhase::Flushing);
}

#[test]
fn step_from_mid_frame_runs_to_the_next_vblank() {
    let (run, reached) = step_frame(100);
    assert_eq!(run, 142);
    assert_eq!(reached, VBLANK_START);
}

#[test]
fn step_from_just_after_vblank_start_runs_round_to_it() {
    let (run, reached) = step_frame(243);
    assert_eq!(run, 261);
    assert_eq!(reached, VBLANK_START);
}

#[test]
fn step_from_just_before_vblank_start_runs_one_scanline() {
    let (run, reached) = step_frame(241);
    assert_eq!(run, 1);
    assert_eq!(reached, VBLANK_START);
}

#[test]
fn two_steps_in_a_row_run_a_frame_each() {
    let (first, reached) = step_frame(17);
    assert_eq!(first, 225);
    let (second, reached_again) = step_frame(reached);
    assert_eq!(second, 262);
    assert_eq!(reached_again, VBLANK_START);
}

#[test]
fn lingering_vblank_start_is_flushed_first() {
    let observed = [242u16, 242, 242, 0, 1, 2, 242];
    let mut phase = StepPhase::Flushing;
    let mut answers = Vec::new();
    for scanline in observed {
        answers.push(run_until_vblank(&mut phase, scanline));
    }
    assert_eq!(answers, vec![true, true, true, true, true, true, false]);
    assert_eq!(phase, StepPhase::Finished);
}

#[test]
fn phases_follow_one_another() {
    let mut phase = StepPhase::Flushing;
    assert!(run_until_vblank(&mut phase, 5));
    assert_eq!(phase, StepPhase::Drawing);
    assert!(run_until_vblank(&mut phase, 6));
    assert_eq!(phase, StepPhase::Drawing);
    assert!(!run_until_vblank(&mut phase, 242));
    assert_eq!(phase, StepPhase::Finished);
}

#[test]
fn finished_step_stays_finished() {
    let mut phase = StepPhase::Finished;
    assert!(!run_until_vblank(&mut phase, 0));
    assert_eq!(phase, StepPhase::Finished);
    assert!(!run_until_vblank(&mut phase, 242));
    assert_eq!(phase, StepPhase::Finished);
}

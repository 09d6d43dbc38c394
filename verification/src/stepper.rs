//! The frame stepping driver: which scanlines to run so that one call covers
//! exactly one frame, wherever in the frame the engine stands. The caller
//! reads the engine's scanline and runs it; this module decides.

use vstd::prelude::*;

verus! {

/// The scanline on which vertical blanking starts. It marks the boundary
/// between one frame and the next.
pub const VBLANK_START: u16 = 242;

/// How far a frame step has come.
#[derive(Clone, Copy, Debug, PartialEq, Eq, Structural)]
pub enum StepPhase {
    /// The step has not yet seen the engine off the vblank-start scanline: it
    /// is running out what is left of the vertical blanking it began in.
    Flushing,
    /// The engine has left the vblank-start scanline and has not come back to
    /// it.
    Drawing,
    /// The engine has come back to the vblank-start scanline: the frame is
    /// complete.
    Finished,
}

/// The phase that follows `phase` when the engine is seen on `scanline`.
pub open spec fn next_phase(phase: StepPhase, scanline: u16) -> StepPhase {
    match phase {
        StepPhase::Flushing => if scanline == VBLANK_START {
            StepPhase::Flushing
        } else {
            StepPhase::Drawing
        },
        StepPhase::Drawing => if scanline == VBLANK_START {
            StepPhase::Finished
        } else {
            StepPhase::Drawing
        },
        StepPhase::Finished => StepPhase::Finished,
    }
}

/// One decision of a frame step. The caller starts in `StepPhase::Flushing`,
/// passes the scanline on which the engine stands, runs one scanline whenever
/// the answer is `true`, and asks again; on `false` the frame is complete.
pub fn run_until_vblank(phase: &mut StepPhase, current_scanline: u16) -> (run: bool)
    ensures
        *final(phase) == next_phase(*old(phase), current_scanline),
        run == (*final(phase) != StepPhase::Finished),
{
    let at_vblank = current_scanline == VBLANK_START;
    let next = match *phase {
        StepPhase::Flushing => if at_vblank {
            StepPhase::Flushing
        } else {
            StepPhase::Drawing
        },
        StepPhase::Drawing => if at_vblank {
            StepPhase::Finished
        } else {
            StepPhase::Drawing
        },
        StepPhase::Finished => StepPhase::Finished,
    };
    *phase = next;
    match next {
        StepPhase::Finished => false,
        _ => true,
    }
}

/// The phase of a frame step that has seen the engine on the scanlines
/// `observed`, in that order, since it started.
pub open spec fn phase_after(observed: Seq<u16>) -> StepPhase
    decreases observed.len(),
{
    if observed.len() == 0 {
        StepPhase::Flushing
    } else {
        next_phase(phase_after(observed.drop_last()), observed.last())
    }
}

/// A frame step is still flushing exactly when it has seen the engine on no
/// other scanline than vblank-start.
pub proof fn lemma_flushing_iff_only_vblank(observed: Seq<u16>)
    ensures
        phase_after(observed) == StepPhase::Flushing <==> forall|k: int|
            0 <= k < observed.len() ==> observed[k] == VBLANK_START,
    decreases observed.len(),
{
    if observed.len() > 0 {
        let earlier = observed.drop_last();
        lemma_flushing_iff_only_vblank(earlier);
        if phase_after(observed) == StepPhase::Flushing {
            assert forall|k: int| 0 <= k < observed.len() implies observed[k]
                == VBLANK_START by {
                if k < earlier.len() {
                    assert(earlier[k] == observed[k]);
                }
            }
        }
        if forall|k: int| 0 <= k < observed.len() ==> observed[k] == VBLANK_START {
            assert forall|k: int| 0 <= k < earlier.len() implies earlier[k] == VBLANK_START by {
                assert(earlier[k] == observed[k]);
            }
        }
    }
}

/// A frame step is finished exactly when it has seen the engine on
/// vblank-start after having seen it on another scanline: it runs through to
/// the next start of vertical blanking, and through no more than that.
pub proof fn lemma_finished_iff_vblank_reached_again(observed: Seq<u16>)
    ensures
        phase_after(observed) == StepPhase::Finished <==> exists|j: int, k: int|
            0 <= j < k < observed.len() && #[trigger] observed[j] != VBLANK_START
                && #[trigger] observed[k] == VBLANK_START,
    decreases observed.len(),
{
    if observed.len() > 0 {
        let n = observed.len() as int;
        let earlier = observed.drop_last();
        lemma_finished_iff_vblank_reached_again(earlier);
        lemma_flushing_iff_only_vblank(earlier);
        if phase_after(observed) == StepPhase::Finished {
            if phase_after(earlier) == StepPhase::Finished {
                let (j, k) = choose|j: int, k: int|
                    0 <= j < k < earlier.len() && #[trigger] earlier[j] != VBLANK_START
                        && #[trigger] earlier[k] == VBLANK_START;
                assert(observed[j] != VBLANK_START && observed[k] == VBLANK_START);
            } else {
                assert(phase_after(earlier) == StepPhase::Drawing);
                let j = choose|j: int| 0 <= j < earlier.len() && earlier[j] != VBLANK_START;
                assert(observed[j] != VBLANK_START && observed[n - 1] == VBLANK_START);
            }
        }
        if exists|j: int, k: int|
            0 <= j < k < observed.len() && #[trigger] observed[j] != VBLANK_START
                && #[trigger] observed[k] == VBLANK_START {
            let (j, k) = choose|j: int, k: int|
                0 <= j < k < observed.len() && #[trigger] observed[j] != VBLANK_START
                    && #[trigger] observed[k] == VBLANK_START;
            if k < n - 1 {
                assert(earlier[j] != VBLANK_START && earlier[k] == VBLANK_START);
            } else {
                assert(earlier[j] != VBLANK_START);
            }
        }
    }
}

/// A frame step that starts on the vblank-start scanline never ends at once.
/// Its first answer is to run; and when it is finished, the engine has in
/// between left that scanline and come to it again, so that the step ends on
/// the next start of vertical blanking, not on the one it began on.
pub proof fn lemma_step_from_vblank_runs_a_frame(observed: Seq<u16>)
    requires
        observed.len() > 0,
        observed[0] == VBLANK_START,
    ensures
        phase_after(observed.take(1)) == StepPhase::Flushing,
        phase_after(observed) == StepPhase::Finished ==> exists|j: int, k: int|
            0 < j < k < observed.len() && #[trigger] observed[j] != VBLANK_START
                && #[trigger] observed[k] == VBLANK_START,
{
    let first = observed.take(1);
    assert(first.drop_last().len() == 0);
    assert(phase_after(first.drop_last()) == StepPhase::Flushing);
    assert(first.last() == VBLANK_START);
    if phase_after(observed) == StepPhase::Finished {
        lemma_finished_iff_vblank_reached_again(observed);
        let (j, k) = choose|j: int, k: int|
            0 <= j < k < observed.len() && #[trigger] observed[j] != VBLANK_START
                && #[trigger] observed[k] == VBLANK_START;
        assert(0 < j < k < observed.len() && observed[j] != VBLANK_START && observed[k]
            == VBLANK_START);
    }
}

/// A frame step ends on the vblank-start scanline: the observation on which
/// it becomes finished is vblank-start, and before it the step was drawing.
pub proof fn lemma_step_ends_on_vblank(observed: Seq<u16>)
    requires
        observed.len() > 0,
        phase_after(observed) == StepPhase::Finished,
        phase_after(observed.drop_last()) != StepPhase::Finished,
    ensures
        observed.last() == VBLANK_START,
        phase_after(observed.drop_last()) == StepPhase::Drawing,
{
}

} // verus!

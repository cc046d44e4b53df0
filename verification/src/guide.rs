//! The decisions of the autoguider's correction loop.
//!
//! While the camera shoots one image after another and the mount slews by
//! the latest correction between shots, a second loop computes corrections.
//! It only uses an image shot after the last slew it knows of ended (older
//! images still show the mount where it was), and after storing a correction
//! it waits for the first slew that started after that, which is the slew
//! that applies it. Times are nanoseconds from a common origin.
use vstd::prelude::*;

verus! {

/// Where the correction loop stands.
#[derive(Clone, Copy, Debug, PartialEq, Eq, Structural)]
pub enum GuideState {
    /// Waiting for an image shot after `last_slew_end`.
    AwaitImage { last_slew_end: u64 },
    /// Computing a correction from an image.
    Calculating,
    /// Waiting for the first slew that starts after `correction_time`, when
    /// the correction was stored.
    AwaitSlew { correction_time: u64 },
}

/// What the correction loop learns.
#[derive(Clone, Copy, Debug, PartialEq, Eq, Structural)]
pub enum GuideEvent {
    /// An image whose shot started at `shot_start` arrived.
    Image { shot_start: u64 },
    /// The correction was computed and stored at `time`.
    CorrectionStored { time: u64 },
    /// A slew from `start` to `end` took place.
    Slew { start: u64, end: u64 },
}

/// What the correction loop does with an event.
#[derive(Clone, Copy, Debug, PartialEq, Eq, Structural)]
pub enum GuideAction {
    /// Drop it: an image shot too early, a slew that started too early, or
    /// an event that the current state does not wait for.
    Discard,
    /// Compute a correction from the image.
    Calculate,
    /// Take it and move on.
    Accept,
}

/// The next state and the action for `event` in `state`.
pub open spec fn guide_spec(state: GuideState, event: GuideEvent) -> (GuideState, GuideAction) {
    match (state, event) {
        (GuideState::AwaitImage { last_slew_end }, GuideEvent::Image { shot_start }) => if shot_start
            > last_slew_end {
            (GuideState::Calculating, GuideAction::Calculate)
        } else {
            (state, GuideAction::Discard)
        },
        (GuideState::Calculating, GuideEvent::CorrectionStored { time }) => (
            GuideState::AwaitSlew { correction_time: time },
            GuideAction::Accept,
        ),
        (GuideState::AwaitSlew { correction_time }, GuideEvent::Slew { start, end }) => if start
            > correction_time {
            (GuideState::AwaitImage { last_slew_end: end }, GuideAction::Accept)
        } else {
            (state, GuideAction::Discard)
        },
        _ => (state, GuideAction::Discard),
    }
}

/// The next state of the correction loop and what to do with `event`.
pub fn guide_step(state: GuideState, event: GuideEvent) -> (res: (GuideState, GuideAction))
    ensures
        res == guide_spec(state, event),
{
    match (state, event) {
        (GuideState::AwaitImage { last_slew_end }, GuideEvent::Image { shot_start }) => {
            if shot_start > last_slew_end {
                (GuideState::Calculating, GuideAction::Calculate)
            } else {
                (state, GuideAction::Discard)
            }
        },
        (GuideState::Calculating, GuideEvent::CorrectionStored { time }) => {
            (GuideState::AwaitSlew { correction_time: time }, GuideAction::Accept)
        },
        (GuideState::AwaitSlew { correction_time }, GuideEvent::Slew { start, end }) => {
            if start > correction_time {
                (GuideState::AwaitImage { last_slew_end: end }, GuideAction::Accept)
            } else {
                (state, GuideAction::Discard)
            }
        },
        _ => (state, GuideAction::Discard),
    }
}

/// A correction is computed only from an image shot after the last slew
/// that the loop accepted ended; a discarded event leaves the state as it
/// was; and the loop only goes back to waiting for images on a slew, which
/// then marks the new time that images must come after.
pub proof fn lemma_guide_uses_fresh_images(state: GuideState, event: GuideEvent)
    ensures
        guide_spec(state, event).1 == GuideAction::Calculate ==> {
            &&& state matches GuideState::AwaitImage { last_slew_end }
            &&& event matches GuideEvent::Image { shot_start }
            &&& shot_start > last_slew_end
        },
        guide_spec(state, event).1 == GuideAction::Discard ==> guide_spec(state, event).0 == state,
        guide_spec(state, event).0 is AwaitImage && !(state is AwaitImage) ==> (event matches GuideEvent::Slew {
            start,
            end,
        } && guide_spec(state, event).0 == GuideState::AwaitImage { last_slew_end: end }),
{
}

/// What each step does, case by case: an image is taken for a correction
/// exactly when the loop waits for images and it was shot strictly after the
/// last slew ended; a stored correction moves the loop on to wait for a slew
/// that starts strictly after it was stored; a slew is accepted exactly when
/// it starts strictly after that time, whatever its end, and its end becomes
/// the time that images must come after; every other event is discarded and
/// leaves the state as it was.
pub proof fn lemma_guide_step_cases(state: GuideState, event: GuideEvent)
    ensures
        state matches GuideState::AwaitImage { last_slew_end } ==> (event matches GuideEvent::Image {
            shot_start,
        } ==> guide_spec(state, event) == if shot_start > last_slew_end {
            (GuideState::Calculating, GuideAction::Calculate)
        } else {
            (state, GuideAction::Discard)
        }),
        state is Calculating ==> (event matches GuideEvent::CorrectionStored { time } ==> guide_spec(
            state,
            event,
        ) == (GuideState::AwaitSlew { correction_time: time }, GuideAction::Accept)),
        state matches GuideState::AwaitSlew { correction_time } ==> (event matches GuideEvent::Slew {
            start,
            end,
        } ==> guide_spec(state, event) == if start > correction_time {
            (GuideState::AwaitImage { last_slew_end: end }, GuideAction::Accept)
        } else {
            (state, GuideAction::Discard)
        }),
        !(state is AwaitImage && event is Image) && !(state is Calculating && event is CorrectionStored) && !(
        state is AwaitSlew && event is Slew) ==> guide_spec(state, event) == (state, GuideAction::Discard),
{
}

} // verus!

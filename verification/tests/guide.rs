use star_stuff::guide::{guide_step, GuideAction, GuideEvent, GuideState};

#[test]
fn guide_uses_only_images_after_the_last_slew() {
    let s = GuideState::AwaitImage { last_slew_end: 100 };
    let (s, a) = guide_step(s, GuideEvent::Image { shot_start: 50 });
    assert_eq!(a, GuideAction::Discard);
    assert_eq!(s, GuideState::AwaitImage { last_slew_end: 100 });
    let (s, a) = guide_step(s, GuideEvent::Image { shot_start: 100 });
    assert_eq!(a, GuideAction::Discard);
    let (s, a) = guide_step(s, GuideEvent::Image { shot_start: 120 });
    assert_eq!(a, GuideAction::Calculate);
    assert_eq!(s, GuideState::Calculating);
    let (s, a) = guide_step(s, GuideEvent::CorrectionStored { time: 200 });
    assert_eq!(a, GuideAction::Accept);
    assert_eq!(s, GuideState::AwaitSlew { correction_time: 200 });
    let (s, a) = guide_step(s, GuideEvent::Slew { start: 150, end: 180 });
    assert_eq!(a, GuideAction::Discard);
    let (s, a) = guide_step(s, GuideEvent::Slew { start: 210, end: 260 });
    assert_eq!(a, GuideAction::Accept);
    assert_eq!(s, GuideState::AwaitImage { last_slew_end: 260 });
}

#[test]
fn guide_ignores_unexpected_events() {
    let s = GuideState::Calculating;
    assert_eq!(guide_step(s, GuideEvent::Image { shot_start: 5 }), (s, GuideAction::Discard));
    let s = GuideState::AwaitImage { last_slew_end: 0 };
    assert_eq!(guide_step(s, GuideEvent::Slew { start: 5, end: 6 }), (s, GuideAction::Discard));
}

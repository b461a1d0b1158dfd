use text_3d_graphics::behaviour::{
    default_color, initial_buffer, FrameAction, FrameEvent, Phase, ProcessNext, Scheduler, DEFAULT_CHARACTER,
    DEFAULT_FPS, NANOS_PER_SECOND,
};
use text_3d_graphics::geometry::uvec2;
use text_3d_graphics::printing::RgbColor;

#[test]
fn initial_buffer_is_filled_with_a_white_space_by_default() {
    assert_eq!(DEFAULT_CHARACTER, ' ');
    assert_eq!(default_color(), RgbColor(255, 255, 255));
    let plain = initial_buffer(uvec2(3, 2), None, None).unwrap();
    assert_eq!(*plain.dimensions(), uvec2(3, 2));
    assert_eq!(plain.get_char(uvec2(2, 1)), Some((' ', RgbColor(255, 255, 255))));
    let dotted = initial_buffer(uvec2(3, 2), Some('.'), None).unwrap();
    assert_eq!(dotted.get_char(uvec2(0, 0)), Some(('.', RgbColor(255, 255, 255))));
    let black = initial_buffer(uvec2(3, 2), None, Some(RgbColor(0, 0, 0))).unwrap();
    assert_eq!(black.get_char(uvec2(0, 0)), Some((' ', RgbColor(0, 0, 0))));
    let both = initial_buffer(uvec2(1, 1), Some('#'), Some(RgbColor(1, 2, 3))).unwrap();
    assert_eq!(both.get_char(uvec2(0, 0)), Some(('#', RgbColor(1, 2, 3))));
}

#[test]
fn with_period_takes_the_period_as_it_is() {
    let mut scheduler = Scheduler::with_period(250);
    assert_eq!(scheduler.period(), 250);
    assert_eq!(scheduler.phase(), Phase::Idle);
    assert_eq!(scheduler.step(FrameEvent::Started), FrameAction::Process(250));
}

#[test]
fn period_comes_from_the_rate() {
    assert_eq!(DEFAULT_FPS, 10);
    assert_eq!(NANOS_PER_SECOND, 1_000_000_000);
    assert_eq!(Scheduler::new(None).period(), 100_000_000);
    assert_eq!(Scheduler::new(Some(10)).period(), 100_000_000);
    assert_eq!(Scheduler::new(Some(60)).period(), 16_666_666);
    assert_eq!(Scheduler::new(Some(1)).period(), 1_000_000_000);
    assert_eq!(Scheduler::new(Some(u32::MAX)).period(), 0);
    assert_eq!(Scheduler::new(None).phase(), Phase::Idle);
}

#[test]
fn first_frame_runs_at_once_with_the_period_as_delta() {
    let mut scheduler = Scheduler::new(Some(50));
    assert_eq!(scheduler.step(FrameEvent::Started), FrameAction::Process(20_000_000));
    assert_eq!(scheduler.phase(), Phase::Processing);
}

#[test]
fn a_fast_frame_is_followed_by_a_sleep_for_the_rest_of_the_period() {
    let mut scheduler = Scheduler::new(Some(10));
    assert_eq!(scheduler.step(FrameEvent::Started), FrameAction::Process(100_000_000));
    assert_eq!(scheduler.step(FrameEvent::Processed(ProcessNext::Continue)), FrameAction::Emit);
    assert_eq!(scheduler.phase(), Phase::Emitting);
    assert_eq!(scheduler.step(FrameEvent::Emitted), FrameAction::Measure);
    assert_eq!(scheduler.phase(), Phase::Pacing);
    assert_eq!(scheduler.step(FrameEvent::Elapsed(30_000_000)), FrameAction::Sleep(70_000_000));
    assert_eq!(scheduler.phase(), Phase::Sleeping);
    // What is read after the sleep is the delta, whatever it is.
    assert_eq!(scheduler.step(FrameEvent::Elapsed(100_250_000)), FrameAction::Process(100_250_000));
    assert_eq!(scheduler.phase(), Phase::Processing);
    assert_eq!(scheduler.period(), 100_000_000);
}

#[test]
fn a_slow_frame_is_followed_by_the_next_without_sleep() {
    let mut scheduler = Scheduler::new(Some(10));
    scheduler.step(FrameEvent::Started);
    scheduler.step(FrameEvent::Processed(ProcessNext::Continue));
    scheduler.step(FrameEvent::Emitted);
    assert_eq!(scheduler.step(FrameEvent::Elapsed(100_000_000)), FrameAction::Process(100_000_000));
    scheduler.step(FrameEvent::Processed(ProcessNext::Continue));
    scheduler.step(FrameEvent::Emitted);
    assert_eq!(scheduler.step(FrameEvent::Elapsed(99_999_999)), FrameAction::Sleep(1));
    assert_eq!(scheduler.step(FrameEvent::Elapsed(99_999_999)), FrameAction::Process(99_999_999));
    scheduler.step(FrameEvent::Processed(ProcessNext::Continue));
    scheduler.step(FrameEvent::Emitted);
    assert_eq!(scheduler.step(FrameEvent::Elapsed(u64::MAX)), FrameAction::Process(u64::MAX));
}

#[test]
fn end_stops_the_loop_before_the_frame_is_written() {
    let mut scheduler = Scheduler::new(None);
    scheduler.step(FrameEvent::Started);
    assert_eq!(scheduler.step(FrameEvent::Processed(ProcessNext::End)), FrameAction::Stop);
    assert_eq!(scheduler.phase(), Phase::Done);
    assert_eq!(scheduler.step(FrameEvent::Started), FrameAction::Abort);
    assert_eq!(scheduler.phase(), Phase::Done);
}

#[test]
fn a_failed_frame_aborts_the_loop() {
    let mut scheduler = Scheduler::new(None);
    scheduler.step(FrameEvent::Started);
    assert_eq!(scheduler.step(FrameEvent::Failed), FrameAction::Abort);
    assert_eq!(scheduler.phase(), Phase::Done);
    assert_eq!(scheduler.step(FrameEvent::Emitted), FrameAction::Abort);
}

#[test]
fn an_event_out_of_turn_aborts_the_loop() {
    for (lead, stray) in [
        (vec![], FrameEvent::Emitted),
        (vec![], FrameEvent::Elapsed(5)),
        (vec![FrameEvent::Started], FrameEvent::Started),
        (vec![FrameEvent::Started], FrameEvent::Elapsed(5)),
        (vec![FrameEvent::Started, FrameEvent::Processed(ProcessNext::Continue)], FrameEvent::Elapsed(5)),
        (
            vec![FrameEvent::Started, FrameEvent::Processed(ProcessNext::Continue), FrameEvent::Emitted],
            FrameEvent::Processed(ProcessNext::Continue),
        ),
    ] {
        let mut scheduler = Scheduler::new(None);
        for event in lead {
            assert_ne!(scheduler.step(event), FrameAction::Abort);
        }
        assert_eq!(scheduler.step(stray), FrameAction::Abort);
        assert_eq!(scheduler.phase(), Phase::Done);
    }
}

use fractal_explorer::app::{
    reduce_effects, title_with_suffix, AppActions, AppEffect, AppEvent, ApplicationController,
    DefaultApplicationController,
};
use fractal_explorer::config::{positive_precision, OrchestratorConfig, TileConfig};
use fractal_explorer::config_ui::precision_step;
use fractal_explorer::geometry::ScreenPoint;
use fractal_explorer::input::{CursorTracker, InputEvent, InputState, WindowInput, ZoomDirection};
use fractal_explorer::orchestrator::{FrameEvent, FrameEventKind, FrameInstrumentation, TileStatus};
use fractal_explorer::output::{OutputQueue, TakeNext};
use fractal_explorer::render::{
    ImageId, ImageRevision, OverlayPrimitive, PreparedFrame, RenderFrame, TileDraw, Viewport,
};

const MILLISECOND: u64 = 1_000_000;

#[test]
fn reduces_controller_effects_to_runtime_actions() {
    assert_eq!(
        reduce_effects(&[
            AppEffect::Reconfigure,
            AppEffect::RequestRedraw,
            AppEffect::Render,
            AppEffect::Exit,
        ]),
        AppActions {
            reconfigure: true,
            request_redraw: true,
            render: true,
            exit: true,
        }
    );
}

#[test]
fn render_effect_is_preserved_for_the_window_runtime() {
    assert!(reduce_effects(&[AppEffect::Render]).render);
}

#[test]
fn no_effects_ask_for_no_actions() {
    assert_eq!(reduce_effects(&[]), AppActions::default());
}

#[test]
fn window_title_appends_a_trimmed_suffix() {
    assert_eq!(title_with_suffix(None), "FractalExplorer");
    assert_eq!(title_with_suffix(Some("   ")), "FractalExplorer");
    assert_eq!(
        title_with_suffix(Some("  deep zoom \t")),
        "FractalExplorer - deep zoom"
    );
}

#[test]
fn controller_normalizes_resize_redraw_and_close_events() {
    let mut controller = DefaultApplicationController::new(Viewport::new(800, 600));

    assert_eq!(
        controller.handle_event(AppEvent::Resized(Viewport::new(1024, 768))),
        vec![AppEffect::RequestRedraw]
    );
    assert_eq!(controller.viewport(), Viewport::new(1024, 768));
    let input = InputEvent::Zoom {
        direction: ZoomDirection::In,
        cursor: ScreenPoint::new(12, 20),
    };
    assert_eq!(
        controller.handle_event(AppEvent::Input(input)),
        vec![AppEffect::RequestRedraw]
    );
    assert_eq!(controller.take_input_events(), vec![input]);
    assert!(controller.take_input_events().is_empty());
    assert_eq!(
        controller.handle_event(AppEvent::ConfigurationChanged),
        vec![AppEffect::Reconfigure, AppEffect::RequestRedraw]
    );
    assert_eq!(
        controller.handle_event(AppEvent::RedrawRequested),
        vec![AppEffect::Render]
    );
    assert_eq!(
        controller.handle_event(AppEvent::CloseRequested),
        vec![AppEffect::Exit]
    );
    assert!(controller.is_closed());
    assert!(controller.handle_event(AppEvent::RedrawRequested).is_empty());
    assert!(controller.prepare_frame().is_err());
}

#[test]
fn controller_prepares_a_shared_frame_snapshot() {
    let mut controller = DefaultApplicationController::new(Viewport::new(320, 200));
    let published = PreparedFrame::new(RenderFrame::new(9, Viewport::new(320, 200)), Vec::new());

    controller.publish_frame(published.clone());

    let prepared = controller.prepare_frame().unwrap();

    assert_eq!(prepared, published);
}

#[test]
fn controller_publishes_and_prepares_a_frame_as_one_runtime_boundary() {
    let mut controller = DefaultApplicationController::new(Viewport::new(320, 200));
    let frame = PreparedFrame::new(RenderFrame::new(12, Viewport::new(640, 400)), Vec::new());

    let prepared = controller.publish_and_prepare_frame(frame.clone()).unwrap();

    assert_eq!(prepared, frame);
    assert_eq!(controller.viewport(), Viewport::new(640, 400));
}

#[test]
fn controller_builds_sequential_shared_frames_with_tiles_and_overlays() {
    let viewport = Viewport::new(320, 200);
    let mut controller = DefaultApplicationController::new(viewport);
    let tile = TileDraw::new(ImageId::new(5), ImageRevision::new(2), 3);
    let overlay = OverlayPrimitive::Image(TileDraw::new(ImageId::new(8), ImageRevision::new(1), 0));

    let first =
        controller.build_prepared_frame(viewport, vec![tile.clone()], vec![overlay.clone()], Vec::new());
    let second = controller.build_prepared_frame(viewport, Vec::new(), Vec::new(), Vec::new());

    assert_eq!(first.frame().frame_id(), 0);
    assert_eq!(first.frame().tiles(), &[tile]);
    assert_eq!(first.frame().overlays(), &[overlay]);
    assert_eq!(second.frame().frame_id(), 1);
}

#[test]
fn controller_without_a_published_frame_prepares_an_empty_one() {
    let mut controller = DefaultApplicationController::new(Viewport::new(3, 2));

    let prepared = controller.prepare_frame().unwrap();

    assert_eq!(prepared.frame().frame_id(), 0);
    assert_eq!(prepared.frame().viewport(), Viewport::new(3, 2));
    assert!(prepared.frame().tiles().is_empty());
    assert!(prepared.image_updates().is_empty());
}

#[test]
fn precision_buttons_step_up_and_down_without_reaching_zero() {
    assert_eq!(precision_step(1, -1), None);
    assert_eq!(precision_step(1, 1), Some(2));
    assert_eq!(precision_step(i64::MAX, 1), None);
}

#[test]
fn precision_must_be_positive() {
    assert_eq!(positive_precision(2_147_483_647), Ok(2_147_483_647));
    assert!(positive_precision(0).is_err());
}

#[test]
fn uses_eight_workers_by_default() {
    assert_eq!(OrchestratorConfig::default().workers, 8);
    assert_eq!(
        OrchestratorConfig::default().tile,
        TileConfig {
            width: 800,
            height: 600
        }
    );
}

#[test]
fn emits_drag_delta_while_left_button_is_held() {
    let mut input = InputState::new();
    input.update(Some(ScreenPoint::new(20, 30)), true, false, 0);

    assert_eq!(
        input.update(Some(ScreenPoint::new(35, 24)), true, false, 0),
        vec![InputEvent::Drag {
            delta: ScreenPoint::new(15, -6)
        }]
    );
}

#[test]
fn emits_middle_click_only_when_button_becomes_pressed() {
    let mut input = InputState::new();
    let cursor = ScreenPoint::new(100, 200);

    assert_eq!(
        input.update(Some(cursor), false, true, 0),
        vec![InputEvent::MiddleClick(cursor)]
    );
    assert!(input.update(Some(cursor), false, true, 0).is_empty());
}

#[test]
fn emits_zoom_direction_from_vertical_wheel_delta() {
    let mut input = InputState::new();

    assert_eq!(
        input.update(Some(ScreenPoint::new(40, 50)), false, false, 1),
        vec![InputEvent::Zoom {
            direction: ZoomDirection::In,
            cursor: ScreenPoint::new(40, 50),
        }]
    );
    assert_eq!(
        input.update(Some(ScreenPoint::new(40, 50)), false, false, -1),
        vec![InputEvent::Zoom {
            direction: ZoomDirection::Out,
            cursor: ScreenPoint::new(40, 50),
        }]
    );
}

#[test]
fn preserves_batch_order_without_splitting_lines() {
    let mut queue: OutputQueue<()> = OutputQueue::new();

    queue.push("frame 1\nlinha 1\nlinha 2\n".to_owned());
    queue.push("frame 2\nlinha 3\n".to_owned());

    assert_eq!(
        queue.take_all(),
        vec!["frame 1\nlinha 1\nlinha 2\n", "frame 2\nlinha 3\n"]
    );
}

#[test]
fn closing_keeps_queued_batches_draining_before_eof() {
    let mut queue: OutputQueue<()> = OutputQueue::new();
    queue.push("last batch\n".to_owned());
    queue.close();

    let next = match queue.take_next() {
        TakeNext::Batch(batch) => Some(batch.text),
        _ => None,
    };
    assert_eq!(next, Some("last batch\n".to_owned()));
    assert!(matches!(queue.take_next(), TakeNext::Closed));
}

#[test]
fn final_batch_closes_the_queue_and_rejects_later_output() {
    let mut queue = OutputQueue::new();
    let (sender, receiver) = std::sync::mpsc::sync_channel::<()>(0);

    assert!(queue.push_final("final overlays\n".to_owned(), sender).is_none());
    queue.push("must not be written\n".to_owned());

    let final_batch = match queue.take_next() {
        TakeNext::Batch(batch) => batch,
        _ => panic!("final batch should be queued"),
    };
    assert_eq!(final_batch.text, "final overlays\n");
    assert!(final_batch.completion.is_some());
    assert!(matches!(queue.take_next(), TakeNext::Closed));
    assert!(queue.is_empty());

    drop(final_batch);
    assert!(receiver.try_recv().is_err());
}

#[test]
fn an_empty_queue_that_accepts_output_makes_the_writer_wait() {
    let mut queue: OutputQueue<u8> = OutputQueue::new();
    queue.push(String::new());

    assert!(matches!(queue.take_next(), TakeNext::Pending));
    assert_eq!(queue.push_final(String::new(), 5), Some(5));
    queue.close();
    assert_eq!(queue.push_final("late\n".to_owned(), 6), Some(6));
}

#[test]
fn tile_status_is_stored_as_one_byte() {
    for status in [TileStatus::NotStarted, TileStatus::Deferred, TileStatus::Completed] {
        assert_eq!(TileStatus::from_u8(status.to_u8()), status);
    }
    assert_eq!(TileStatus::from_u8(200), TileStatus::NotStarted);
}

#[test]
fn slow_frame_is_a_dump_trigger_without_layer_creation() {
    let started_at = 5_000 * MILLISECOND;
    let instrumentation = FrameInstrumentation::with_events(
        42,
        started_at,
        vec![FrameEvent {
            kind: FrameEventKind::Finalized,
            description: "finalizacao de frame".to_string(),
            timestamp: started_at + 1_001 * MILLISECOND,
        }],
    );

    let threshold = 1_000 * MILLISECOND;
    assert!(instrumentation.is_slow(threshold));
    assert_eq!(
        instrumentation.matching_triggers(&["slow_frame".to_string()], threshold),
        vec!["slow_frame"]
    );
    assert!(instrumentation
        .matching_triggers(&["layer_created".to_string()], threshold)
        .is_empty());
}

#[test]
fn finalization_precedes_slow_trigger_and_preserves_total_frame_duration() {
    let started_at = 10 * MILLISECOND;
    let finished_at = started_at + 4_671 * MILLISECOND;
    let next_frame_started_at = finished_at + MILLISECOND;
    let mut instrumentation = FrameInstrumentation::with_events(
        5,
        started_at,
        vec![FrameEvent {
            kind: FrameEventKind::BufferReadyForPresentation,
            description: "buffer pronto para apresentacao".to_string(),
            timestamp: started_at + 109 * MILLISECOND,
        }],
    );

    instrumentation.record_finalization_at(finished_at);
    let total_duration = instrumentation.duration_at(next_frame_started_at);
    instrumentation.record_slow_if_needed_at(next_frame_started_at, 1_000 * MILLISECOND);

    assert_eq!(instrumentation.events()[1].description, "finalizacao de frame");
    assert_eq!(instrumentation.events()[2].kind, FrameEventKind::SlowFrame);
    assert_eq!(total_duration, next_frame_started_at - instrumentation.started_at());
    assert!(instrumentation.events()[1].timestamp > instrumentation.events()[0].timestamp);
    assert_eq!(instrumentation.events()[2].timestamp, next_frame_started_at);
    assert!(instrumentation.has_kind(FrameEventKind::SlowFrame));
}

#[test]
fn slow_trigger_is_recorded_once_per_frame() {
    let mut instrumentation = FrameInstrumentation::new_at(1, 0);

    instrumentation.record_slow_if_needed_at(5, 1);
    instrumentation.record_slow_if_needed_at(9, 1);

    assert_eq!(instrumentation.events().len(), 2);
    assert_eq!(instrumentation.events()[1].timestamp, 5);
}

#[test]
fn records_buffer_presentation_boundaries_as_frame_events() {
    let mut instrumentation = FrameInstrumentation::new(6);

    instrumentation.record_presentation_started();
    instrumentation.record_presentation_finished();

    assert_eq!(instrumentation.events()[1].description, "apresentacao do buffer iniciada");
    assert_eq!(instrumentation.events()[2].description, "apresentacao do buffer concluida");
}

#[test]
fn records_dump_boundaries_as_frame_events() {
    let mut instrumentation = FrameInstrumentation::new(7);

    instrumentation.record_dump_started();
    instrumentation.record_dump_finished();

    assert_eq!(instrumentation.events()[1].description, "dump iniciado");
    assert_eq!(instrumentation.events()[2].description, "dump finalizado");
}

#[test]
fn cursor_tracker_drags_only_while_the_left_button_is_held() {
    let mut tracker = CursorTracker::new();
    assert!(tracker
        .events_for_window_input(WindowInput::CursorMoved(ScreenPoint::new(10, 20)))
        .is_empty());
    assert!(tracker
        .events_for_window_input(WindowInput::LeftButton { pressed: true })
        .is_empty());
    assert_eq!(
        tracker.events_for_window_input(WindowInput::CursorMoved(ScreenPoint::new(13, 15))),
        vec![InputEvent::Drag {
            delta: ScreenPoint::new(3, -5)
        }]
    );
    tracker.events_for_window_input(WindowInput::LeftButton { pressed: false });
    assert!(tracker
        .events_for_window_input(WindowInput::CursorMoved(ScreenPoint::new(0, 0)))
        .is_empty());
    assert_eq!(tracker.cursor, ScreenPoint::new(0, 0));
}

#[test]
fn cursor_tracker_zooms_at_the_last_cursor_by_the_wheel_direction() {
    let mut tracker = CursorTracker::new();
    tracker.events_for_window_input(WindowInput::CursorMoved(ScreenPoint::new(7, 8)));
    assert_eq!(
        tracker.events_for_window_input(WindowInput::Wheel { direction: 1 }),
        vec![InputEvent::Zoom {
            direction: ZoomDirection::In,
            cursor: ScreenPoint::new(7, 8)
        }]
    );
    assert_eq!(
        tracker.events_for_window_input(WindowInput::Wheel { direction: -3 }),
        vec![InputEvent::Zoom {
            direction: ZoomDirection::Out,
            cursor: ScreenPoint::new(7, 8)
        }]
    );
    assert!(tracker
        .events_for_window_input(WindowInput::Wheel { direction: 0 })
        .is_empty());
    assert!(tracker.events_for_window_input(WindowInput::Other).is_empty());
}

#[test]
fn an_empty_final_message_still_closes_the_queue() {
    let mut queue: OutputQueue<u8> = OutputQueue::new();

    assert_eq!(queue.push_final(String::new(), 1), Some(1));
    queue.push("later\n".to_owned());
    assert!(queue.is_empty());
    assert!(matches!(queue.take_next(), TakeNext::Closed));
}

//! Turns per-frame mouse state into navigation events.
use vstd::prelude::*;

use crate::geometry::ScreenPoint;

verus! {

#[derive(Debug, Clone, Copy, PartialEq, Eq, Structural)]
pub enum InputEvent {
    Drag { delta: ScreenPoint },
    MiddleClick(ScreenPoint),
    Zoom { direction: ZoomDirection, cursor: ScreenPoint },
}

#[derive(Debug, Clone, Copy, PartialEq, Eq, Structural)]
pub enum ZoomDirection {
    In,
    Out,
}

/// What the previous frame's mouse state leaves behind.
#[derive(Debug)]
pub struct InputState {
    previous_mouse_position: Option<ScreenPoint>,
    left_button_was_down: bool,
    middle_button_was_down: bool,
}

/// The drag from `previous` to `current`, when the left button was held
/// during both frames and both positions are known.
pub open spec fn drag_event(
    previous: Option<ScreenPoint>,
    left_button_was_down: bool,
    current: ScreenPoint,
    left_button_is_down: bool,
) -> Seq<InputEvent> {
    match previous {
        Some(previous) if left_button_is_down && left_button_was_down => seq![
            InputEvent::Drag {
                delta: ScreenPoint {
                    x: (current.x - previous.x) as i32,
                    y: (current.y - previous.y) as i32,
                },
            },
        ],
        _ => Seq::empty(),
    }
}

/// Whether the drag delta of an update fits in the coordinate type.
pub open spec fn drag_fits(previous: Option<ScreenPoint>, current: Option<ScreenPoint>) -> bool {
    match (previous, current) {
        (Some(previous), Some(current)) => i32::MIN <= current.x - previous.x <= i32::MAX && i32::MIN
            <= current.y - previous.y <= i32::MAX,
        _ => true,
    }
}

/// The events of one update: a drag, then a middle click when the button
/// went down, then a zoom when the wheel moved; `scroll_y` counts only by
/// its sign.
pub open spec fn update_events(
    previous: Option<ScreenPoint>,
    left_button_was_down: bool,
    middle_button_was_down: bool,
    mouse_position: Option<ScreenPoint>,
    left_button_is_down: bool,
    middle_button_is_down: bool,
    scroll_y: i32,
) -> Seq<InputEvent> {
    match mouse_position {
        Some(cursor) => {
            let drag = drag_event(previous, left_button_was_down, cursor, left_button_is_down);
            let click = if middle_button_is_down && !middle_button_was_down {
                seq![InputEvent::MiddleClick(cursor)]
            } else {
                Seq::empty()
            };
            let zoom = if scroll_y > 0 {
                seq![InputEvent::Zoom { direction: ZoomDirection::In, cursor }]
            } else if scroll_y < 0 {
                seq![InputEvent::Zoom { direction: ZoomDirection::Out, cursor }]
            } else {
                Seq::empty()
            };
            drag + click + zoom
        },
        None => Seq::empty(),
    }
}

/// A middle button that stays down clicks once: the update after the one
/// that saw it go down reports no click.
pub proof fn lemma_held_middle_button_clicks_once(
    previous: Option<ScreenPoint>,
    left_button_was_down: bool,
    mouse_position: Option<ScreenPoint>,
    left_button_is_down: bool,
    scroll_y: i32,
    cursor: ScreenPoint,
)
    ensures
        !update_events(
            previous,
            left_button_was_down,
            true,
            mouse_position,
            left_button_is_down,
            true,
            scroll_y,
        ).contains(InputEvent::MiddleClick(cursor)),
{
    let events = update_events(
        previous,
        left_button_was_down,
        true,
        mouse_position,
        left_button_is_down,
        true,
        scroll_y,
    );
    if events.contains(InputEvent::MiddleClick(cursor)) {
        let j = choose|j: int| 0 <= j < events.len() && events[j] == InputEvent::MiddleClick(cursor);
        assert(events[j] is MiddleClick);
    }
}

/// The wheel zooms in when scrolled up and out when scrolled down, at the
/// cursor; without a cursor it does nothing.
pub proof fn lemma_scroll_sign_selects_zoom(
    previous: Option<ScreenPoint>,
    left_button_was_down: bool,
    middle_button_was_down: bool,
    cursor: ScreenPoint,
    left_button_is_down: bool,
    middle_button_is_down: bool,
    scroll_y: i32,
)
    requires
        scroll_y != 0,
    ensures
        update_events(
            previous,
            left_button_was_down,
            middle_button_was_down,
            Some(cursor),
            left_button_is_down,
            middle_button_is_down,
            scroll_y,
        ).last() == (InputEvent::Zoom {
            direction: if scroll_y > 0 {
                ZoomDirection::In
            } else {
                ZoomDirection::Out
            },
            cursor,
        }),
{
}

impl Default for InputState {
    fn default() -> (state: Self)
        ensures
            state.previous_mouse_position_spec() is None,
            !state.left_button_was_down_spec(),
            !state.middle_button_was_down_spec(),
    {
        Self::new()
    }
}

impl InputState {
    pub closed spec fn previous_mouse_position_spec(&self) -> Option<ScreenPoint> {
        self.previous_mouse_position
    }

    pub closed spec fn left_button_was_down_spec(&self) -> bool {
        self.left_button_was_down
    }

    pub closed spec fn middle_button_was_down_spec(&self) -> bool {
        self.middle_button_was_down
    }

    pub fn new() -> (state: Self)
        ensures
            state.previous_mouse_position_spec() is None,
            !state.left_button_was_down_spec(),
            !state.middle_button_was_down_spec(),
    {
        Self {
            previous_mouse_position: None,
            left_button_was_down: false,
            middle_button_was_down: false,
        }
    }

    /// Compares this frame's mouse state with the previous one. The cursor
    /// position is remembered only while the left button is held.
    pub fn update(
        &mut self,
        mouse_position: Option<ScreenPoint>,
        left_button_is_down: bool,
        middle_button_is_down: bool,
        scroll_y: i32,
    ) -> (events: Vec<InputEvent>)
        requires
            drag_fits(old(self).previous_mouse_position_spec(), mouse_position),
        ensures
            events@ == update_events(
                old(self).previous_mouse_position_spec(),
                old(self).left_button_was_down_spec(),
                old(self).middle_button_was_down_spec(),
                mouse_position,
                left_button_is_down,
                middle_button_is_down,
                scroll_y,
            ),
            final(self).previous_mouse_position_spec() == match mouse_position {
                Some(cursor) => if left_button_is_down {
                    Some(cursor)
                } else {
                    None
                },
                None => None,
            },
            final(self).left_button_was_down_spec() == left_button_is_down,
            final(self).middle_button_was_down_spec() == middle_button_is_down,
    {
        let mut events: Vec<InputEvent> = Vec::new();
        match mouse_position {
            Some(current) => {
                if left_button_is_down && self.left_button_was_down {
                    match self.previous_mouse_position {
                        Some(previous) => {
                            events.push(
                                InputEvent::Drag {
                                    delta: ScreenPoint::new(
                                        current.x - previous.x,
                                        current.y - previous.y,
                                    ),
                                },
                            );
                        },
                        None => {},
                    }
                }
                self.previous_mouse_position = if left_button_is_down {
                    Some(current)
                } else {
                    None
                };
                if middle_button_is_down && !self.middle_button_was_down {
                    events.push(InputEvent::MiddleClick(current));
                }
                if scroll_y > 0 {
                    events.push(InputEvent::Zoom { direction: ZoomDirection::In, cursor: current });
                } else if scroll_y < 0 {
                    events.push(InputEvent::Zoom { direction: ZoomDirection::Out, cursor: current });
                }
            },
            None => {
                self.previous_mouse_position = None;
            },
        }
        self.left_button_was_down = left_button_is_down;
        self.middle_button_was_down = middle_button_is_down;
        proof {
            let expected = update_events(
                old(self).previous_mouse_position_spec(),
                old(self).left_button_was_down_spec(),
                old(self).middle_button_was_down_spec(),
                mouse_position,
                left_button_is_down,
                middle_button_is_down,
                scroll_y,
            );
            assert(events@ =~= expected);
        }
        events
    }
}

/// A window event as the cursor tracker reads it: the cursor moved to a
/// pixel, the left button changed, the wheel turned (by the sign of its
/// vertical motion), or anything else.
#[derive(Debug, Clone, Copy, PartialEq, Eq, Structural)]
pub enum WindowInput {
    CursorMoved(ScreenPoint),
    LeftButton { pressed: bool },
    Wheel { direction: i32 },
    Other,
}

/// The cursor position and left button that an event-driven window tracks
/// between events.
#[derive(Debug, Clone, Copy, PartialEq, Eq, Structural)]
pub struct CursorTracker {
    pub cursor: ScreenPoint,
    pub left_button_down: bool,
}

/// Whether moving the cursor from `from` to `to` gives a delta that fits the
/// coordinate type.
pub open spec fn move_fits(from: ScreenPoint, to: ScreenPoint) -> bool {
    &&& i32::MIN <= to.x - from.x <= i32::MAX
    &&& i32::MIN <= to.y - from.y <= i32::MAX
}

/// The navigation events of one window event: a drag while the left button
/// is held and the cursor moves, a zoom at the cursor when the wheel turns.
pub open spec fn window_input_events(tracker: CursorTracker, input: WindowInput) -> Seq<InputEvent> {
    match input {
        WindowInput::CursorMoved(next) => if tracker.left_button_down {
            seq![
                InputEvent::Drag {
                    delta: ScreenPoint {
                        x: (next.x - tracker.cursor.x) as i32,
                        y: (next.y - tracker.cursor.y) as i32,
                    },
                },
            ]
        } else {
            Seq::empty()
        },
        WindowInput::Wheel { direction } => if direction != 0 {
            seq![
                InputEvent::Zoom {
                    direction: if direction > 0 {
                        ZoomDirection::In
                    } else {
                        ZoomDirection::Out
                    },
                    cursor: tracker.cursor,
                },
            ]
        } else {
            Seq::empty()
        },
        _ => Seq::empty(),
    }
}

/// The tracker after a window event.
pub open spec fn tracked_after(tracker: CursorTracker, input: WindowInput) -> CursorTracker {
    match input {
        WindowInput::CursorMoved(next) => CursorTracker { cursor: next, ..tracker },
        WindowInput::LeftButton { pressed } => CursorTracker { left_button_down: pressed, ..tracker },
        _ => tracker,
    }
}

impl CursorTracker {
    /// The cursor at the top-left pixel, with the button up.
    pub fn new() -> (tracker: Self)
        ensures
            tracker == (CursorTracker {
                cursor: ScreenPoint { x: 0, y: 0 },
                left_button_down: false,
            }),
    {
        CursorTracker { cursor: ScreenPoint::new(0, 0), left_button_down: false }
    }

    /// Updates the tracker with a window event and returns its navigation events.
    pub fn events_for_window_input(&mut self, input: WindowInput) -> (events: Vec<InputEvent>)
        requires
            input matches WindowInput::CursorMoved(next) ==> move_fits(old(self).cursor, next),
        ensures
            events@ == window_input_events(*old(self), input),
            *final(self) == tracked_after(*old(self), input),
    {
        let mut events: Vec<InputEvent> = Vec::new();
        match input {
            WindowInput::CursorMoved(next) => {
                if self.left_button_down {
                    events.push(
                        InputEvent::Drag {
                            delta: ScreenPoint::new(next.x - self.cursor.x, next.y - self.cursor.y),
                        },
                    );
                }
                self.cursor = next;
            },
            WindowInput::LeftButton { pressed } => {
                self.left_button_down = pressed;
            },
            WindowInput::Wheel { direction } => {
                if direction != 0 {
                    events.push(
                        InputEvent::Zoom {
                            direction: if direction > 0 {
                                ZoomDirection::In
                            } else {
                                ZoomDirection::Out
                            },
                            cursor: self.cursor,
                        },
                    );
                }
            },
            WindowInput::Other => {},
        }
        proof {
            assert(events@ =~= window_input_events(*old(self), input));
        }
        events
    }
}

} // verus!

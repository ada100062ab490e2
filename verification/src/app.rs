//! Window-independent application events, their effects, and the controller
//! that turns one into the other.
use vstd::prelude::*;

use crate::input::InputEvent;
use crate::render::{
    FrameBuilder, ImageUpdate, OverlayPrimitive, PreparedFrame, RenderError, RenderFrame, TileDraw,
    Viewport,
};

verus! {

/// Whether `c` has the Unicode `White_Space` property, as
/// `char::is_whitespace` tests it.
pub open spec fn is_white_space(c: char) -> bool {
    let code = c as u32;
    ||| 0x09 <= code <= 0x0d
    ||| code == 0x20
    ||| code == 0x85
    ||| code == 0xa0
    ||| code == 0x1680
    ||| 0x2000 <= code <= 0x200a
    ||| code == 0x2028
    ||| code == 0x2029
    ||| code == 0x202f
    ||| code == 0x205f
    ||| code == 0x3000
}

/// `text` without its leading white space.
pub open spec fn trimmed_start(text: Seq<char>) -> Seq<char>
    decreases text.len(),
{
    if text.len() > 0 && is_white_space(text[0]) {
        trimmed_start(text.drop_first())
    } else {
        text
    }
}

/// `text` without its trailing white space.
pub open spec fn trimmed_end(text: Seq<char>) -> Seq<char>
    decreases text.len(),
{
    if text.len() > 0 && is_white_space(text.last()) {
        trimmed_end(text.drop_last())
    } else {
        text
    }
}

/// `text` without its leading and trailing white space.
pub open spec fn trimmed(text: Seq<char>) -> Seq<char> {
    trimmed_end(trimmed_start(text))
}

/// `str::trim`: the slice of `text` without leading and trailing white
/// space, white space being what has the Unicode `White_Space` property.
#[verifier::external_body]
fn trim(text: &str) -> (result: &str)
    ensures
        result@ == trimmed(text@),
{
    text.trim()
}

/// The window title for an already trimmed suffix: the application name,
/// followed by the suffix when there is one.
pub open spec fn title_spec(trimmed_suffix: Option<Seq<char>>) -> Seq<char> {
    match trimmed_suffix {
        Some(suffix) if suffix.len() > 0 => "FractalExplorer - "@ + suffix,
        _ => "FractalExplorer"@,
    }
}

/// The window title for a suffix that was already trimmed.
pub fn title_with_trimmed_suffix(trimmed_suffix: Option<&str>) -> (title: String)
    ensures
        title@ == title_spec(
            match trimmed_suffix {
                Some(suffix) => Some(suffix@),
                None => None,
            },
        ),
{
    match trimmed_suffix {
        Some(suffix) => {
            if suffix.is_empty() {
                String::from_str("FractalExplorer")
            } else {
                let prefix = String::from_str("FractalExplorer - ");
                prefix.concat(suffix)
            }
        },
        None => String::from_str("FractalExplorer"),
    }
}

/// The window title: the application name, followed by the suffix when it
/// holds more than white space.
pub fn title_with_suffix(suffix: Option<&str>) -> (title: String)
    ensures
        title@ == title_spec(
            match suffix {
                Some(suffix) => Some(trimmed(suffix@)),
                None => None,
            },
        ),
{
    match suffix {
        Some(suffix) => title_with_trimmed_suffix(Some(trim(suffix))),
        None => title_with_trimmed_suffix(None),
    }
}

#[derive(Debug, Clone, Copy, PartialEq, Eq, Structural)]
pub enum AppEvent {
    Resized(Viewport),
    Input(InputEvent),
    ConfigurationChanged,
    RedrawRequested,
    CloseRequested,
}

#[derive(Debug, Clone, Copy, PartialEq, Eq, Structural)]
pub enum AppEffect {
    Reconfigure,
    RequestRedraw,
    Render,
    Exit,
}

/// The runtime actions that a list of effects asks for.
#[derive(Debug, Clone, Copy, PartialEq, Eq, Structural)]
pub struct AppActions {
    pub reconfigure: bool,
    pub request_redraw: bool,
    pub render: bool,
    pub exit: bool,
}

impl Default for AppActions {
    fn default() -> (actions: Self)
        ensures
            actions == (AppActions {
                reconfigure: false,
                request_redraw: false,
                render: false,
                exit: false,
            }),
    {
        Self { reconfigure: false, request_redraw: false, render: false, exit: false }
    }
}

/// Each action is asked for exactly when some effect names it.
pub open spec fn actions_for(effects: Seq<AppEffect>) -> AppActions {
    AppActions {
        reconfigure: effects.contains(AppEffect::Reconfigure),
        request_redraw: effects.contains(AppEffect::RequestRedraw),
        render: effects.contains(AppEffect::Render),
        exit: effects.contains(AppEffect::Exit),
    }
}

/// Folds effects into the set of actions they ask for.
pub fn reduce_effects(effects: &[AppEffect]) -> (actions: AppActions)
    ensures
        actions == actions_for(effects@),
{
    let mut actions = AppActions::default();
    let mut index: usize = 0;
    while index < effects.len()
        invariant
            index <= effects@.len(),
            actions == actions_for(effects@.take(index as int)),
        decreases effects.len() - index,
    {
        let ghost before = effects@.take(index as int);
        match effects[index] {
            AppEffect::Reconfigure => actions.reconfigure = true,
            AppEffect::RequestRedraw => actions.request_redraw = true,
            AppEffect::Render => actions.render = true,
            AppEffect::Exit => actions.exit = true,
        }
        proof {
            let after = effects@.take(index + 1);
            assert(after =~= before.push(effects@[index as int]));
            assert forall|effect: AppEffect| after.contains(effect) <==> (before.contains(effect)
                || effect == effects@[index as int]) by {
                if after.contains(effect) {
                    let j = choose|j: int| 0 <= j < after.len() && after[j] == effect;
                    if j < index {
                        assert(before[j] == effect);
                    }
                }
                if before.contains(effect) {
                    let j = choose|j: int| 0 <= j < before.len() && before[j] == effect;
                    assert(after[j] == effect);
                }
                if effect == effects@[index as int] {
                    assert(after[index as int] == effect);
                }
            }
        }
        index = index + 1;
    }
    proof {
        assert(effects@.take(effects@.len() as int) =~= effects@);
    }
    actions
}

/// Turns window events into effects and hands out frames.
pub trait ApplicationController {
    fn handle_event(&mut self, event: AppEvent) -> Vec<AppEffect>;

    fn prepare_frame(&mut self) -> Result<PreparedFrame, RenderError>;

    fn take_input_events(&mut self) -> Vec<InputEvent>;
}

/// The text lines of the debug overlays.
#[derive(Debug, Clone, PartialEq, Eq)]
pub struct OverlaySnapshot {
    pub layer_lines: Vec<String>,
    pub queue_lines: Vec<String>,
    pub worker_lines: Vec<String>,
}

impl Default for OverlaySnapshot {
    fn default() -> (snapshot: Self)
        ensures
            snapshot.layer_lines@.len() == 0,
            snapshot.queue_lines@.len() == 0,
            snapshot.worker_lines@.len() == 0,
    {
        Self { layer_lines: Vec::new(), queue_lines: Vec::new(), worker_lines: Vec::new() }
    }
}

/// The controller of the application window: it tracks the viewport,
/// queues input until the frame loop takes it, and publishes the frame to
/// draw next.
pub struct DefaultApplicationController {
    viewport: Viewport,
    closed: bool,
    frame_builder: FrameBuilder,
    pending_input: Vec<InputEvent>,
    published_frame: Option<PreparedFrame>,
}

/// The effects of `event` on a controller that is still open.
pub open spec fn event_effects(event: AppEvent) -> Seq<AppEffect> {
    match event {
        AppEvent::Resized(_) => seq![AppEffect::RequestRedraw],
        AppEvent::Input(_) => seq![AppEffect::RequestRedraw],
        AppEvent::ConfigurationChanged => seq![AppEffect::Reconfigure, AppEffect::RequestRedraw],
        AppEvent::RedrawRequested => seq![AppEffect::Render],
        AppEvent::CloseRequested => seq![AppEffect::Exit],
    }
}

impl DefaultApplicationController {
    pub closed spec fn viewport_spec(&self) -> Viewport {
        self.viewport
    }

    pub closed spec fn closed_spec(&self) -> bool {
        self.closed
    }

    /// Input received and not yet taken, oldest first.
    pub closed spec fn pending_input_spec(&self) -> Seq<InputEvent> {
        self.pending_input@
    }

    pub closed spec fn published_frame_spec(&self) -> Option<PreparedFrame> {
        self.published_frame
    }

    /// The identity of the next frame the controller builds.
    pub closed spec fn next_frame_id_spec(&self) -> u64 {
        self.frame_builder.next_frame_id_spec()
    }

    pub fn new(viewport: Viewport) -> (controller: Self)
        ensures
            controller.viewport_spec() == viewport,
            !controller.closed_spec(),
            controller.pending_input_spec() == Seq::<InputEvent>::empty(),
            controller.published_frame_spec() is None,
            controller.next_frame_id_spec() == 0,
    {
        Self {
            viewport,
            closed: false,
            frame_builder: FrameBuilder::new(),
            pending_input: Vec::new(),
            published_frame: None,
        }
    }

    pub fn viewport(&self) -> (viewport: Viewport)
        ensures
            viewport == self.viewport_spec(),
    {
        self.viewport
    }

    pub fn is_closed(&self) -> (closed: bool)
        ensures
            closed == self.closed_spec(),
    {
        self.closed
    }

    /// Makes `frame` the frame to draw next, and its viewport the current one.
    pub fn publish_frame(&mut self, frame: PreparedFrame)
        ensures
            final(self).viewport_spec() == frame.frame_spec().viewport_spec(),
            final(self).published_frame_spec() == Some(frame),
            final(self).closed_spec() == old(self).closed_spec(),
            final(self).pending_input_spec() == old(self).pending_input_spec(),
            final(self).next_frame_id_spec() == old(self).next_frame_id_spec(),
    {
        self.viewport = frame.frame().viewport();
        self.published_frame = Some(frame);
    }

    /// Publishes `frame`, then prepares the frame to draw.
    pub fn publish_and_prepare_frame(&mut self, frame: PreparedFrame) -> (result: Result<
        PreparedFrame,
        RenderError,
    >)
        ensures
            final(self).viewport_spec() == frame.frame_spec().viewport_spec(),
            old(self).closed_spec() ==> result == Err::<PreparedFrame, RenderError>(
                RenderError::InvalidFrame("application is closed"),
            ),
            !old(self).closed_spec() ==> match result {
                Ok(prepared) => crate::render::same_prepared_frame(prepared, frame),
                Err(_) => false,
            },
    {
        self.publish_frame(frame);
        self.prepare_frame()
    }

    /// Builds the next frame and pairs it with its image updates.
    pub fn build_prepared_frame(
        &mut self,
        viewport: Viewport,
        tiles: Vec<TileDraw>,
        overlays: Vec<OverlayPrimitive>,
        image_updates: Vec<ImageUpdate>,
    ) -> (prepared: PreparedFrame)
        ensures
            prepared.frame_spec().frame_id_spec() == old(self).next_frame_id_spec(),
            prepared.frame_spec().viewport_spec() == viewport,
            prepared.frame_spec().tiles_spec() == tiles@,
            prepared.frame_spec().overlays_spec() == overlays@,
            prepared.image_updates_spec() == image_updates@,
            final(self).next_frame_id_spec() == crate::render::next_frame_id(
                old(self).next_frame_id_spec(),
            ),
            final(self).viewport_spec() == old(self).viewport_spec(),
            final(self).closed_spec() == old(self).closed_spec(),
            final(self).pending_input_spec() == old(self).pending_input_spec(),
            final(self).published_frame_spec() == old(self).published_frame_spec(),
    {
        let frame = self.frame_builder.build(viewport, tiles, overlays);
        PreparedFrame::new(frame, image_updates)
    }
}

impl ApplicationController for DefaultApplicationController {
    /// A closed controller ignores every event. An open one follows the
    /// resize, queues input, and closes on request.
    fn handle_event(&mut self, event: AppEvent) -> (effects: Vec<AppEffect>)
        ensures
            old(self).closed_spec() ==> effects@ == Seq::<AppEffect>::empty() && *final(self)
                == *old(self),
            !old(self).closed_spec() ==> {
                &&& effects@ == event_effects(event)
                &&& final(self).viewport_spec() == match event {
                    AppEvent::Resized(viewport) => viewport,
                    _ => old(self).viewport_spec(),
                }
                &&& final(self).published_frame_spec() == match event {
                    AppEvent::Resized(_) => None,
                    _ => old(self).published_frame_spec(),
                }
                &&& final(self).pending_input_spec() == match event {
                    AppEvent::Input(input) => old(self).pending_input_spec().push(input),
                    _ => old(self).pending_input_spec(),
                }
                &&& final(self).closed_spec() == (event is CloseRequested)
                &&& final(self).next_frame_id_spec() == old(self).next_frame_id_spec()
            },
    {
        if self.closed {
            return Vec::new();
        }
        let effects = match event {
            AppEvent::Resized(viewport) => {
                self.viewport = viewport;
                self.published_frame = None;
                vec![AppEffect::RequestRedraw]
            },
            AppEvent::Input(input) => {
                self.pending_input.push(input);
                vec![AppEffect::RequestRedraw]
            },
            AppEvent::ConfigurationChanged => vec![AppEffect::Reconfigure, AppEffect::RequestRedraw],
            AppEvent::RedrawRequested => vec![AppEffect::Render],
            AppEvent::CloseRequested => {
                self.closed = true;
                vec![AppEffect::Exit]
            },
        };
        proof {
            assert(effects@ =~= event_effects(event));
        }
        effects
    }

    /// The published frame, or an empty frame for the current viewport; a
    /// closed controller prepares nothing.
    fn prepare_frame(&mut self) -> (result: Result<PreparedFrame, RenderError>)
        ensures
            old(self).closed_spec() ==> result == Err::<PreparedFrame, RenderError>(
                RenderError::InvalidFrame("application is closed"),
            ) && *final(self) == *old(self),
            !old(self).closed_spec() ==> match result {
                Ok(prepared) => match old(self).published_frame_spec() {
                    Some(published) => crate::render::same_prepared_frame(prepared, published)
                        && final(self).next_frame_id_spec() == old(self).next_frame_id_spec(),
                    None => {
                        &&& prepared.frame_spec().frame_id_spec() == old(self).next_frame_id_spec()
                        &&& prepared.frame_spec().viewport_spec() == old(self).viewport_spec()
                        &&& prepared.frame_spec().tiles_spec().len() == 0
                        &&& prepared.frame_spec().overlays_spec().len() == 0
                        &&& prepared.image_updates_spec().len() == 0
                        &&& final(self).next_frame_id_spec() == crate::render::next_frame_id(
                            old(self).next_frame_id_spec(),
                        )
                    },
                },
                Err(_) => false,
            },
            final(self).viewport_spec() == old(self).viewport_spec(),
            final(self).closed_spec() == old(self).closed_spec(),
            final(self).pending_input_spec() == old(self).pending_input_spec(),
            final(self).published_frame_spec() == old(self).published_frame_spec(),
    {
        if self.closed {
            return Err(RenderError::InvalidFrame("application is closed"));
        }
        match &self.published_frame {
            Some(frame) => Ok(frame.clone()),
            None => {
                let frame = self.frame_builder.build(self.viewport, Vec::new(), Vec::new());
                Ok(PreparedFrame::new(frame, Vec::new()))
            },
        }
    }

    /// Hands out the queued input, oldest first, and empties the queue.
    fn take_input_events(&mut self) -> (events: Vec<InputEvent>)
        ensures
            events@ == old(self).pending_input_spec(),
            final(self).pending_input_spec() == Seq::<InputEvent>::empty(),
            final(self).viewport_spec() == old(self).viewport_spec(),
            final(self).closed_spec() == old(self).closed_spec(),
            final(self).published_frame_spec() == old(self).published_frame_spec(),
            final(self).next_frame_id_spec() == old(self).next_frame_id_spec(),
    {
        let mut events = Vec::new();
        std::mem::swap(&mut events, &mut self.pending_input);
        events
    }
}

} // verus!

//! Backend-independent frame description and the render-target lifecycle.
use vstd::prelude::*;

pub mod cpu;
pub mod device;
pub mod gpu;

verus! {

/// Stable identity of an image shared between frames.
#[derive(Debug, Clone, Copy, PartialEq, Eq, Hash, Structural)]
pub struct ImageId(u64);

impl View for ImageId {
    type V = u64;

    closed spec fn view(&self) -> u64 {
        self.0
    }
}

impl ImageId {
    pub fn new(value: u64) -> (id: Self)
        ensures
            id@ == value,
    {
        Self(value)
    }

    pub fn value(self) -> (value: u64)
        ensures
            value == self@,
    {
        self.0
    }

    /// Two identities are equal exactly when their values are.
    pub proof fn lemma_view_injective(self, other: Self)
        ensures
            self@ == other@ <==> self == other,
    {
    }
}

/// Revision counter of an image's content.
#[derive(Debug, Clone, Copy, PartialEq, Eq, Hash, Structural)]
pub struct ImageRevision(u64);

impl View for ImageRevision {
    type V = u64;

    closed spec fn view(&self) -> u64 {
        self.0
    }
}

impl ImageRevision {
    pub fn new(value: u64) -> (revision: Self)
        ensures
            revision@ == value,
    {
        Self(value)
    }

    pub fn value(self) -> (value: u64)
        ensures
            value == self@,
    {
        self.0
    }

    /// Two revisions are equal exactly when their values are.
    pub proof fn lemma_view_injective(self, other: Self)
        ensures
            self@ == other@ <==> self == other,
    {
    }
}

/// Size of the surface a frame is drawn on, in pixels.
#[derive(Debug, Clone, Copy, PartialEq, Eq, Structural)]
pub struct Viewport {
    width: u32,
    height: u32,
}

impl Viewport {
    pub closed spec fn width_spec(self) -> u32 {
        self.width
    }

    pub closed spec fn height_spec(self) -> u32 {
        self.height
    }

    pub fn new(width: u32, height: u32) -> (viewport: Self)
        ensures
            viewport.width_spec() == width,
            viewport.height_spec() == height,
    {
        Self { width, height }
    }

    pub fn width(self) -> (width: u32)
        ensures
            width == self.width_spec(),
    {
        self.width
    }

    pub fn height(self) -> (height: u32)
        ensures
            height == self.height_spec(),
    {
        self.height
    }

    /// Viewports are equal exactly when their sizes are.
    pub proof fn lemma_equal(self, other: Self)
        ensures
            (self.width_spec() == other.width_spec() && self.height_spec() == other.height_spec())
                <==> self == other,
    {
    }
}

/// Destination rectangle on the screen.
#[derive(Debug, Clone, Copy, PartialEq, Eq, Structural)]
pub struct Rect {
    pub x: i32,
    pub y: i32,
    pub width: u32,
    pub height: u32,
}

impl Rect {
    pub fn new(x: i32, y: i32, width: u32, height: u32) -> (rect: Self)
        ensures
            rect == (Rect { x, y, width, height }),
    {
        Self { x, y, width, height }
    }
}

/// Source rectangle in texture coordinates, each edge held as the bit
/// pattern of an IEEE-754 single-precision number.
#[derive(Debug, Clone, Copy, PartialEq, Eq, Structural)]
pub struct UvRect {
    pub left: u32,
    pub top: u32,
    pub right: u32,
    pub bottom: u32,
}

/// Bit pattern of single-precision `0.0`.
pub const ZERO_BITS: u32 = 0u32;

/// Bit pattern of single-precision `1.0`.
pub const ONE_BITS: u32 = 0x3f80_0000u32;

/// Whether the single-precision number with bit pattern `bits` lies in the
/// closed interval `[0, 1]`: the non-negative numbers up to `1.0`, and
/// negative zero; no NaN pattern lies in it.
pub open spec fn unit_interval_bits(bits: u32) -> bool {
    bits <= ONE_BITS || bits == 0x8000_0000u32
}

impl UvRect {
    /// The whole texture, from `(0, 0)` to `(1, 1)`.
    pub fn full() -> (rect: Self)
        ensures
            rect == (UvRect { left: ZERO_BITS, top: ZERO_BITS, right: ONE_BITS, bottom: ONE_BITS }),
    {
        Self { left: ZERO_BITS, top: ZERO_BITS, right: ONE_BITS, bottom: ONE_BITS }
    }
}

#[derive(Debug, Clone, Copy, PartialEq, Eq, Structural)]
pub enum ImageUpdateError {
    InvalidRgba8Length { expected: usize, actual: usize },
    DimensionsOverflow,
}

/// Number of bytes of a `width` by `height` RGBA8 image.
pub open spec fn rgba8_len(width: u32, height: u32) -> int {
    width * height * 4
}

/// New content for an image: a revision and its RGBA8 pixels.
#[derive(Debug, PartialEq, Eq)]
pub struct ImageUpdate {
    image: ImageId,
    revision: ImageRevision,
    width: u32,
    height: u32,
    rgba8: Vec<u8>,
}

impl Clone for ImageUpdate {
    fn clone(&self) -> (copy: Self)
        ensures
            copy.image_spec() == self.image_spec(),
            copy.revision_spec() == self.revision_spec(),
            copy.width_spec() == self.width_spec(),
            copy.height_spec() == self.height_spec(),
            copy.rgba8_spec() == self.rgba8_spec(),
    {
        proof {
            use_type_invariant(self);
        }
        let rgba8 = self.rgba8.clone();
        proof {
            assert(rgba8@ =~= self.rgba8@);
        }
        ImageUpdate {
            image: self.image,
            revision: self.revision,
            width: self.width,
            height: self.height,
            rgba8,
        }
    }
}

impl ImageUpdate {
    #[verifier::type_invariant]
    pub closed spec fn well_formed(self) -> bool {
        self.rgba8@.len() == rgba8_len(self.width, self.height)
    }

    pub closed spec fn image_spec(&self) -> ImageId {
        self.image
    }

    pub closed spec fn revision_spec(&self) -> ImageRevision {
        self.revision
    }

    pub closed spec fn width_spec(&self) -> u32 {
        self.width
    }

    pub closed spec fn height_spec(&self) -> u32 {
        self.height
    }

    pub closed spec fn rgba8_spec(&self) -> Seq<u8> {
        self.rgba8@
    }

    /// The pixel buffer of an update always holds four bytes per pixel.
    pub proof fn lemma_well_formed(&self)
        requires
            self.well_formed(),
        ensures
            self.rgba8_spec().len() == rgba8_len(self.width_spec(), self.height_spec()),
    {
    }

    /// Validates that `rgba8` holds exactly four bytes for each of the
    /// `width * height` pixels.
    pub fn new(image: ImageId, revision: ImageRevision, width: u32, height: u32, rgba8: Vec<u8>) -> (result:
        Result<Self, ImageUpdateError>)
        ensures
            rgba8_len(width, height) > usize::MAX ==> result == Err::<Self, ImageUpdateError>(
                ImageUpdateError::DimensionsOverflow,
            ),
            rgba8_len(width, height) <= usize::MAX && rgba8@.len() != rgba8_len(width, height)
                ==> result == Err::<Self, ImageUpdateError>(
                ImageUpdateError::InvalidRgba8Length {
                    expected: rgba8_len(width, height) as usize,
                    actual: rgba8@.len() as usize,
                },
            ),
            rgba8@.len() == rgba8_len(width, height) ==> (match result {
                Ok(update) => update.image_spec() == image && update.revision_spec() == revision
                    && update.width_spec() == width && update.height_spec() == height
                    && update.rgba8_spec() == rgba8@,
                Err(_) => false,
            }),
    {
        let length = rgba8.len();
        let pixels = (width as usize).checked_mul(height as usize);
        let expected = match pixels {
            Some(pixels) => pixels.checked_mul(4),
            None => None,
        };
        proof {
            assert(width * height * 4 >= width * height) by (nonlinear_arith);
        }
        let expected = match expected {
            Some(expected) => expected,
            None => {
                return Err(ImageUpdateError::DimensionsOverflow);
            },
        };
        if length != expected {
            return Err(ImageUpdateError::InvalidRgba8Length { expected, actual: length });
        }
        Ok(Self { image, revision, width, height, rgba8 })
    }

    pub fn image(&self) -> (image: ImageId)
        ensures
            image == self.image_spec(),
    {
        self.image
    }

    pub fn revision(&self) -> (revision: ImageRevision)
        ensures
            revision == self.revision_spec(),
    {
        self.revision
    }

    pub fn dimensions(&self) -> (dimensions: (u32, u32))
        ensures
            dimensions == (self.width_spec(), self.height_spec()),
    {
        (self.width, self.height)
    }

    pub fn rgba8(&self) -> (rgba8: &[u8])
        ensures
            rgba8@ == self.rgba8_spec(),
    {
        self.rgba8.as_slice()
    }
}

/// One image placed on the screen.
#[derive(Debug, Clone, Copy, PartialEq, Eq, Structural)]
pub struct TileDraw {
    image: ImageId,
    revision: ImageRevision,
    destination: Rect,
    source: UvRect,
    layer: u32,
    opacity: u32,
}

impl TileDraw {
    pub closed spec fn image_spec(self) -> ImageId {
        self.image
    }

    pub closed spec fn revision_spec(self) -> ImageRevision {
        self.revision
    }

    pub closed spec fn destination_spec(self) -> Rect {
        self.destination
    }

    pub closed spec fn source_spec(self) -> UvRect {
        self.source
    }

    pub closed spec fn layer_spec(self) -> u32 {
        self.layer
    }

    /// Bit pattern of the opacity.
    pub closed spec fn opacity_spec(self) -> u32 {
        self.opacity
    }

    /// The opacity of every tile lies in `[0, 1]`.
    #[verifier::type_invariant]
    pub closed spec fn well_formed(self) -> bool {
        unit_interval_bits(self.opacity)
    }

    /// A fully opaque tile covering the whole image, with an empty destination.
    pub fn new(image: ImageId, revision: ImageRevision, layer: u32) -> (tile: Self)
        ensures
            tile.image_spec() == image,
            tile.revision_spec() == revision,
            tile.layer_spec() == layer,
            tile.destination_spec() == (Rect { x: 0, y: 0, width: 0, height: 0 }),
            tile.source_spec() == (UvRect {
                left: ZERO_BITS,
                top: ZERO_BITS,
                right: ONE_BITS,
                bottom: ONE_BITS,
            }),
            tile.opacity_spec() == ONE_BITS,
    {
        Self {
            image,
            revision,
            destination: Rect::new(0, 0, 0, 0),
            source: UvRect::full(),
            layer,
            opacity: ONE_BITS,
        }
    }

    pub fn image(&self) -> (image: ImageId)
        ensures
            image == self.image_spec(),
    {
        self.image
    }

    pub fn revision(&self) -> (revision: ImageRevision)
        ensures
            revision == self.revision_spec(),
    {
        self.revision
    }

    pub fn layer(&self) -> (layer: u32)
        ensures
            layer == self.layer_spec(),
    {
        self.layer
    }

    pub fn destination(&self) -> (destination: Rect)
        ensures
            destination == self.destination_spec(),
    {
        self.destination
    }

    pub fn source(&self) -> (source: UvRect)
        ensures
            source == self.source_spec(),
    {
        self.source
    }

    /// Bit pattern of the opacity, which lies in `[0, 1]`.
    pub fn opacity_bits(&self) -> (opacity: u32)
        ensures
            opacity == self.opacity_spec(),
            unit_interval_bits(opacity),
    {
        proof {
            use_type_invariant(self);
        }
        self.opacity
    }

    pub fn with_destination(self, destination: Rect) -> (tile: Self)
        ensures
            tile.image_spec() == self.image_spec(),
            tile.revision_spec() == self.revision_spec(),
            tile.destination_spec() == destination,
            tile.source_spec() == self.source_spec(),
            tile.layer_spec() == self.layer_spec(),
            tile.opacity_spec() == self.opacity_spec(),
    {
        proof {
            use_type_invariant(&self);
        }
        Self { destination, ..self }
    }

    pub fn with_source(self, source: UvRect) -> (tile: Self)
        ensures
            tile.image_spec() == self.image_spec(),
            tile.revision_spec() == self.revision_spec(),
            tile.destination_spec() == self.destination_spec(),
            tile.source_spec() == source,
            tile.layer_spec() == self.layer_spec(),
            tile.opacity_spec() == self.opacity_spec(),
    {
        proof {
            use_type_invariant(&self);
        }
        Self { source, ..self }
    }

    /// Sets the opacity, given as a bit pattern that must lie in `[0, 1]`.
    pub fn with_opacity_bits(self, opacity: u32) -> (tile: Self)
        requires
            unit_interval_bits(opacity),
        ensures
            tile.image_spec() == self.image_spec(),
            tile.revision_spec() == self.revision_spec(),
            tile.destination_spec() == self.destination_spec(),
            tile.source_spec() == self.source_spec(),
            tile.layer_spec() == self.layer_spec(),
            tile.opacity_spec() == opacity,
    {
        Self { opacity, ..self }
    }
}

#[derive(Debug, Clone, Copy, PartialEq, Eq, Structural)]
pub enum OverlayPrimitive {
    Image(TileDraw),
}

/// An immutable description of one frame: tiles first, then overlays.
#[derive(Debug, PartialEq, Eq)]
pub struct RenderFrame {
    frame_id: u64,
    viewport: Viewport,
    tiles: Vec<TileDraw>,
    overlays: Vec<OverlayPrimitive>,
}

impl RenderFrame {
    pub closed spec fn frame_id_spec(&self) -> u64 {
        self.frame_id
    }

    pub closed spec fn viewport_spec(&self) -> Viewport {
        self.viewport
    }

    pub closed spec fn tiles_spec(&self) -> Seq<TileDraw> {
        self.tiles@
    }

    pub closed spec fn overlays_spec(&self) -> Seq<OverlayPrimitive> {
        self.overlays@
    }

    pub fn new(frame_id: u64, viewport: Viewport) -> (frame: Self)
        ensures
            frame.frame_id_spec() == frame_id,
            frame.viewport_spec() == viewport,
            frame.tiles_spec() == Seq::<TileDraw>::empty(),
            frame.overlays_spec() == Seq::<OverlayPrimitive>::empty(),
    {
        Self { frame_id, viewport, tiles: Vec::new(), overlays: Vec::new() }
    }

    pub fn with_tile(self, tile: TileDraw) -> (frame: Self)
        ensures
            frame.frame_id_spec() == self.frame_id_spec(),
            frame.viewport_spec() == self.viewport_spec(),
            frame.tiles_spec() == self.tiles_spec().push(tile),
            frame.overlays_spec() == self.overlays_spec(),
    {
        let mut frame = self;
        frame.tiles.push(tile);
        frame
    }

    pub fn with_overlay(self, overlay: OverlayPrimitive) -> (frame: Self)
        ensures
            frame.frame_id_spec() == self.frame_id_spec(),
            frame.viewport_spec() == self.viewport_spec(),
            frame.tiles_spec() == self.tiles_spec(),
            frame.overlays_spec() == self.overlays_spec().push(overlay),
    {
        let mut frame = self;
        frame.overlays.push(overlay);
        frame
    }

    pub fn frame_id(&self) -> (frame_id: u64)
        ensures
            frame_id == self.frame_id_spec(),
    {
        self.frame_id
    }

    pub fn viewport(&self) -> (viewport: Viewport)
        ensures
            viewport == self.viewport_spec(),
    {
        self.viewport
    }

    pub fn tiles(&self) -> (tiles: &[TileDraw])
        ensures
            tiles@ == self.tiles_spec(),
    {
        self.tiles.as_slice()
    }

    pub fn overlays(&self) -> (overlays: &[OverlayPrimitive])
        ensures
            overlays@ == self.overlays_spec(),
    {
        self.overlays.as_slice()
    }
}

/// The draws of a frame: its tiles, then its overlays.
pub open spec fn frame_draws(frame: RenderFrame) -> Seq<TileDraw> {
    frame.tiles_spec() + frame.overlays_spec().map_values(
        |overlay: OverlayPrimitive|
            match overlay {
                OverlayPrimitive::Image(tile) => tile,
            },
    )
}

/// Whether `copy` holds the same update as `original`.
pub open spec fn same_update(copy: ImageUpdate, original: ImageUpdate) -> bool {
    &&& copy.image_spec() == original.image_spec()
    &&& copy.revision_spec() == original.revision_spec()
    &&& copy.width_spec() == original.width_spec()
    &&& copy.height_spec() == original.height_spec()
    &&& copy.rgba8_spec() == original.rgba8_spec()
}

/// Whether `copy` describes the same frame as `original`: the same frame
/// identity, viewport, draws and image updates.
pub open spec fn same_prepared_frame(copy: PreparedFrame, original: PreparedFrame) -> bool {
    &&& copy.frame_spec().frame_id_spec() == original.frame_spec().frame_id_spec()
    &&& copy.frame_spec().viewport_spec() == original.frame_spec().viewport_spec()
    &&& copy.frame_spec().tiles_spec() == original.frame_spec().tiles_spec()
    &&& copy.frame_spec().overlays_spec() == original.frame_spec().overlays_spec()
    &&& copy.image_updates_spec().len() == original.image_updates_spec().len()
    &&& forall|i: int|
        0 <= i < copy.image_updates_spec().len() ==> same_update(
            #[trigger] copy.image_updates_spec()[i],
            original.image_updates_spec()[i],
        )
}

/// A frame together with the image content it needs uploaded first.
#[derive(Debug, PartialEq, Eq)]
pub struct PreparedFrame {
    frame: RenderFrame,
    image_updates: Vec<ImageUpdate>,
}

impl PreparedFrame {
    pub closed spec fn frame_spec(&self) -> RenderFrame {
        self.frame
    }

    pub closed spec fn image_updates_spec(&self) -> Seq<ImageUpdate> {
        self.image_updates@
    }

    pub fn new(frame: RenderFrame, image_updates: Vec<ImageUpdate>) -> (prepared: Self)
        ensures
            prepared.frame_spec() == frame,
            prepared.image_updates_spec() == image_updates@,
    {
        Self { frame, image_updates }
    }

    pub fn frame(&self) -> (frame: &RenderFrame)
        ensures
            *frame == self.frame_spec(),
    {
        &self.frame
    }

    pub fn image_updates(&self) -> (image_updates: &[ImageUpdate])
        ensures
            image_updates@ == self.image_updates_spec(),
    {
        self.image_updates.as_slice()
    }
}

impl Clone for RenderFrame {
    fn clone(&self) -> (copy: Self)
        ensures
            copy.frame_id_spec() == self.frame_id_spec(),
            copy.viewport_spec() == self.viewport_spec(),
            copy.tiles_spec() == self.tiles_spec(),
            copy.overlays_spec() == self.overlays_spec(),
    {
        let tiles = self.tiles.clone();
        let overlays = self.overlays.clone();
        proof {
            assert(tiles@ =~= self.tiles@);
            assert(overlays@ =~= self.overlays@);
        }
        RenderFrame { frame_id: self.frame_id, viewport: self.viewport, tiles, overlays }
    }
}

impl Clone for PreparedFrame {
    fn clone(&self) -> (copy: Self)
        ensures
            same_prepared_frame(copy, *self),
    {
        let frame = self.frame.clone();
        let image_updates = self.image_updates.clone();
        proof {
            assert forall|i: int| 0 <= i < image_updates@.len() implies same_update(
                #[trigger] image_updates@[i],
                self.image_updates@[i],
            ) by {
                assert(vstd::pervasive::cloned(self.image_updates@[i], image_updates@[i]));
            }
        }
        PreparedFrame { frame, image_updates }
    }
}

#[derive(Debug, Clone, Copy, PartialEq, Eq, Structural)]
pub struct RenderCapabilities {
    pub partial_image_updates: bool,
    pub persistent_resources: bool,
}

impl Default for RenderCapabilities {
    fn default() -> (capabilities: Self)
        ensures
            capabilities == (RenderCapabilities {
                partial_image_updates: false,
                persistent_resources: false,
            }),
    {
        Self { partial_image_updates: false, persistent_resources: false }
    }
}

#[derive(Debug, Clone, Copy, PartialEq, Eq, Structural)]
pub enum SurfaceFailure {
    Lost,
    Outdated,
    DeviceRemoved,
}

#[derive(Debug, Clone, Copy, PartialEq, Eq)]
pub enum RenderError {
    InvalidFrame(&'static str),
    BackendUnavailable(&'static str),
}

#[derive(Debug, Clone, Copy, PartialEq, Eq, Structural)]
pub struct FrameOutcome {
    submitted: bool,
}

impl FrameOutcome {
    pub closed spec fn submitted_spec(self) -> bool {
        self.submitted
    }

    pub fn submitted() -> (outcome: Self)
        ensures
            outcome.submitted_spec(),
    {
        Self { submitted: true }
    }

    pub fn was_submitted(self) -> (submitted: bool)
        ensures
            submitted == self.submitted_spec(),
    {
        self.submitted
    }
}

/// A call a render target was handed, with the target's answer.
pub enum TargetCall {
    Resize(Viewport, Result<(), RenderError>),
    UpdateImages(Seq<ImageUpdate>, Result<(), RenderError>),
    Render(RenderFrame, Result<FrameOutcome, RenderError>),
    EvictImages(Seq<ImageId>),
    Recover(SurfaceFailure, Result<(), RenderError>),
}

/// The record of the calls a render target was handed, oldest first.
pub type TargetCalls = Seq<TargetCall>;

/// A surface that frames are drawn on, implemented by each backend.
///
/// Every target keeps the record of the calls it was handed and what it
/// answered; each call adds itself to that record.
pub trait RenderTarget {
    /// The calls this target was handed, oldest first, each with its answer.
    spec fn calls(&self) -> TargetCalls;

    fn capabilities(&self) -> RenderCapabilities;

    fn resize(&mut self, viewport: Viewport) -> (result: Result<(), RenderError>)
        ensures
            final(self).calls() == old(self).calls().push(TargetCall::Resize(viewport, result)),
    ;

    fn update_images(&mut self, updates: &[ImageUpdate]) -> (result: Result<(), RenderError>)
        ensures
            final(self).calls() == old(self).calls().push(
                TargetCall::UpdateImages(updates@, result),
            ),
    ;

    fn render(&mut self, frame: &RenderFrame) -> (result: Result<FrameOutcome, RenderError>)
        ensures
            final(self).calls() == old(self).calls().push(TargetCall::Render(*frame, result)),
    ;

    fn evict_images(&mut self, images: &[ImageId])
        ensures
            final(self).calls() == old(self).calls().push(TargetCall::EvictImages(images@)),
    ;

    fn recover(&mut self, reason: SurfaceFailure) -> (result: Result<(), RenderError>)
        ensures
            final(self).calls() == old(self).calls().push(TargetCall::Recover(reason, result)),
    ;
}

/// Whether `calls` are what an upload of `updates` followed by a render of
/// `frame` hands a target, stopping at the first failure, and `result` is
/// the answer: the failure, or the render's answer.
pub open spec fn upload_and_render_calls(
    updates: Seq<ImageUpdate>,
    frame: RenderFrame,
    calls: Seq<TargetCall>,
    result: Result<FrameOutcome, RenderError>,
) -> bool {
    &&& calls.len() > 0
    &&& match calls[0] {
        TargetCall::UpdateImages(handed, Ok(())) => {
            &&& handed == updates
            &&& calls.len() == 2
            &&& calls[1] == TargetCall::Render(frame, result)
        },
        TargetCall::UpdateImages(handed, Err(error)) => {
            &&& handed == updates
            &&& calls.len() == 1
            &&& result == Err::<FrameOutcome, RenderError>(error)
        },
        _ => false,
    }
}

/// Whether `calls` are what a submission hands a target: a resize to
/// `viewport` first when `resize` holds, stopping if it fails, then the
/// upload and the render.
pub open spec fn submission_calls(
    resize: bool,
    viewport: Viewport,
    updates: Seq<ImageUpdate>,
    frame: RenderFrame,
    calls: Seq<TargetCall>,
    result: Result<FrameOutcome, RenderError>,
) -> bool {
    if resize {
        &&& calls.len() > 0
        &&& match calls[0] {
            TargetCall::Resize(handed, Ok(())) => handed == viewport && upload_and_render_calls(
                updates,
                frame,
                calls.drop_first(),
                result,
            ),
            TargetCall::Resize(handed, Err(error)) => {
                &&& handed == viewport
                &&& calls.len() == 1
                &&& result == Err::<FrameOutcome, RenderError>(error)
            },
            _ => false,
        }
    } else {
        upload_and_render_calls(updates, frame, calls, result)
    }
}

/// Whether `after` is `before` followed by `added`.
pub open spec fn extends(before: Seq<TargetCall>, after: Seq<TargetCall>, added: Seq<TargetCall>) -> bool {
    after == before + added
}

/// Coordinates the lifecycle shared by every render target.
///
/// Platform adapters should feed frames through this type instead of deciding
/// independently when to resize, upload images, or render. The target remains
/// responsible only for backend-specific work.
pub struct RenderTargetSession<T> {
    target: T,
    viewport: Viewport,
}

impl<T: RenderTarget> RenderTargetSession<T> {
    pub closed spec fn target_spec(&self) -> T {
        self.target
    }

    /// The viewport the target was last resized to.
    pub closed spec fn viewport_spec(&self) -> Viewport {
        self.viewport
    }

    pub fn new(target: T, viewport: Viewport) -> (session: Self)
        ensures
            session.target_spec() == target,
            session.viewport_spec() == viewport,
    {
        Self { target, viewport }
    }

    pub fn target(&self) -> (target: &T)
        ensures
            *target == self.target_spec(),
    {
        &self.target
    }

    pub fn target_mut(&mut self) -> (target: &mut T)
        ensures
            *target == old(self).target_spec(),
            final(self).target_spec() == *final(target),
            final(self).viewport_spec() == old(self).viewport_spec(),
    {
        &mut self.target
    }

    /// Resizes the target when the viewport changed, then uploads the image
    /// updates and renders the frame, stopping at the first failure.
    pub fn submit(&mut self, viewport: Viewport, updates: &[ImageUpdate], frame: &RenderFrame) -> (result:
        Result<FrameOutcome, RenderError>)
        ensures
            old(self).viewport_spec() == viewport ==> final(self).viewport_spec() == viewport,
            final(self).viewport_spec() == viewport || final(self).viewport_spec() == old(self).viewport_spec(),
            result is Ok ==> final(self).viewport_spec() == viewport,
            final(self).target_spec().calls().len() >= old(self).target_spec().calls().len(),
            extends(
                old(self).target_spec().calls(),
                final(self).target_spec().calls(),
                final(self).target_spec().calls().skip(old(self).target_spec().calls().len() as int),
            ),
            submission_calls(
                old(self).viewport_spec() != viewport,
                viewport,
                updates@,
                *frame,
                final(self).target_spec().calls().skip(old(self).target_spec().calls().len() as int),
                result,
            ),
    {
        let ghost before = self.target.calls();
        let changed = self.viewport != viewport;
        if changed {
            let resized = self.target.resize(viewport);
            match resized {
                Ok(()) => {},
                Err(error) => {
                    proof {
                        let added = seq![TargetCall::Resize(viewport, resized)];
                        assert(self.target.calls() =~= before + added);
                        assert(self.target.calls().skip(before.len() as int) =~= added);
                    }
                    return Err(error);
                },
            }
            self.viewport = viewport;
        }
        let ghost middle = self.target.calls();
        let uploaded = self.target.update_images(updates);
        match uploaded {
            Ok(()) => {},
            Err(error) => {
                proof {
                    let added = middle.skip(before.len() as int).push(
                        TargetCall::UpdateImages(updates@, uploaded),
                    );
                    assert(self.target.calls() =~= before + added);
                    assert(self.target.calls().skip(before.len() as int) =~= added);
                    if changed {
                        assert(added.drop_first() =~= seq![TargetCall::UpdateImages(updates@, uploaded)]);
                    }
                }
                return Err(error);
            },
        }
        let answer = self.target.render(frame);
        proof {
            let added = middle.skip(before.len() as int).push(
                TargetCall::UpdateImages(updates@, uploaded),
            ).push(TargetCall::Render(*frame, answer));
            assert(self.target.calls() =~= before + added);
            assert(self.target.calls().skip(before.len() as int) =~= added);
            if changed {
                assert(added.drop_first() =~= seq![
                    TargetCall::UpdateImages(updates@, uploaded),
                    TargetCall::Render(*frame, answer),
                ]);
            }
        }
        answer
    }

    /// Hands `reason` to the target and returns the target's answer.
    pub fn recover(&mut self, reason: SurfaceFailure) -> (result: Result<(), RenderError>)
        ensures
            final(self).target_spec().calls() == old(self).target_spec().calls().push(
                TargetCall::Recover(reason, result),
            ),
            final(self).viewport_spec() == old(self).viewport_spec(),
    {
        self.target.recover(reason)
    }
}

/// Builds render targets for a viewport.
pub trait RenderTargetFactory {
    /// What the factory answers when asked for a target for `viewport`:
    /// `Ok` when it gives one, or the error it reports.
    spec fn create_answer(&self, viewport: Viewport) -> Result<(), RenderError>;

    /// A fresh target for `viewport`, or the factory's error.
    fn create(&self, viewport: Viewport) -> (result: Result<Box<dyn RenderTarget>, RenderError>)
        ensures
            match result {
                Ok(_) => self.create_answer(viewport) is Ok,
                Err(error) => self.create_answer(viewport) == Err::<(), RenderError>(error),
            },
    ;
}

/// Owns the backend-independent submission sequence for one render target.
pub struct RenderTargetPipeline {
    target: Box<dyn RenderTarget>,
    viewport: Viewport,
}

impl RenderTargetPipeline {
    /// The viewport the target was last resized to.
    pub closed spec fn viewport_spec(&self) -> Viewport {
        self.viewport
    }

    /// The calls the pipeline's target was handed, with its answers.
    pub closed spec fn calls_spec(&self) -> Seq<TargetCall> {
        self.target.calls()
    }

    pub fn create(factory: &dyn RenderTargetFactory, viewport: Viewport) -> (result: Result<
        Self,
        RenderError,
    >)
        ensures
            match result {
                Ok(pipeline) => {
                    &&& factory.create_answer(viewport) is Ok
                    &&& pipeline.viewport_spec() == viewport
                },
                Err(error) => factory.create_answer(viewport) == Err::<(), RenderError>(error),
            },
    {
        match factory.create(viewport) {
            Ok(target) => Ok(Self { target, viewport }),
            Err(error) => Err(error),
        }
    }

    /// Resizes the target when the prepared frame's viewport changed, then
    /// uploads the frame's image updates and renders it, stopping at the
    /// first failure.
    pub fn submit(&mut self, prepared: &PreparedFrame) -> (result: Result<FrameOutcome, RenderError>)
        ensures
            old(self).viewport_spec() == prepared.frame_spec().viewport_spec() ==> final(self).viewport_spec() == old(self).viewport_spec(),
            final(self).viewport_spec() == prepared.frame_spec().viewport_spec() || final(self).viewport_spec() == old(self).viewport_spec(),
            result is Ok ==> final(self).viewport_spec() == prepared.frame_spec().viewport_spec(),
            final(self).calls_spec().len() >= old(self).calls_spec().len(),
            extends(
                old(self).calls_spec(),
                final(self).calls_spec(),
                final(self).calls_spec().skip(old(self).calls_spec().len() as int),
            ),
            submission_calls(
                old(self).viewport_spec() != prepared.frame_spec().viewport_spec(),
                prepared.frame_spec().viewport_spec(),
                prepared.image_updates_spec(),
                prepared.frame_spec(),
                final(self).calls_spec().skip(old(self).calls_spec().len() as int),
                result,
            ),
    {
        let ghost before = self.target.calls();
        let viewport = prepared.frame().viewport();
        let changed = self.viewport != viewport;
        if changed {
            let resized = self.target.resize(viewport);
            match resized {
                Ok(()) => {},
                Err(error) => {
                    proof {
                        let added = seq![TargetCall::Resize(viewport, resized)];
                        assert(self.target.calls() =~= before + added);
                        assert(self.target.calls().skip(before.len() as int) =~= added);
                    }
                    return Err(error);
                },
            }
            self.viewport = viewport;
        }
        let ghost middle = self.target.calls();
        let updates = prepared.image_updates();
        let uploaded = self.target.update_images(updates);
        match uploaded {
            Ok(()) => {},
            Err(error) => {
                proof {
                    let added = middle.skip(before.len() as int).push(
                        TargetCall::UpdateImages(updates@, uploaded),
                    );
                    assert(self.target.calls() =~= before + added);
                    assert(self.target.calls().skip(before.len() as int) =~= added);
                    if changed {
                        assert(added.drop_first() =~= seq![TargetCall::UpdateImages(updates@, uploaded)]);
                    }
                }
                return Err(error);
            },
        }
        let frame = prepared.frame();
        let answer = self.target.render(frame);
        proof {
            let added = middle.skip(before.len() as int).push(
                TargetCall::UpdateImages(updates@, uploaded),
            ).push(TargetCall::Render(*frame, answer));
            assert(self.target.calls() =~= before + added);
            assert(self.target.calls().skip(before.len() as int) =~= added);
            if changed {
                assert(added.drop_first() =~= seq![
                    TargetCall::UpdateImages(updates@, uploaded),
                    TargetCall::Render(*frame, answer),
                ]);
            }
        }
        answer
    }

    /// Hands `images` to the target to evict.
    pub fn evict_images(&mut self, images: &[ImageId])
        ensures
            final(self).calls_spec() == old(self).calls_spec().push(
                TargetCall::EvictImages(images@),
            ),
            final(self).viewport_spec() == old(self).viewport_spec(),
    {
        self.target.evict_images(images);
    }

    /// Hands `reason` to the target and returns the target's answer.
    pub fn recover(&mut self, reason: SurfaceFailure) -> (result: Result<(), RenderError>)
        ensures
            final(self).calls_spec() == old(self).calls_spec().push(
                TargetCall::Recover(reason, result),
            ),
            final(self).viewport_spec() == old(self).viewport_spec(),
    {
        self.target.recover(reason)
    }
}

/// Builds software render targets.
#[derive(Debug, Default, Clone, Copy)]
pub struct CpuRenderTargetFactory;

impl CpuRenderTargetFactory {
    pub fn create_cpu_target(&self, viewport: Viewport) -> (target: cpu::CpuRenderTarget)
        requires
            cpu::fits_in_memory(viewport),
        ensures
            target.viewport_spec() == viewport,
            target.framebuffer_spec() == cpu::zeros(cpu::framebuffer_len(viewport)),
            target.images_spec() == Map::<u64, cpu::StoredImageView>::empty(),
            target.calls() == Seq::<TargetCall>::empty(),
    {
        cpu::CpuRenderTarget::new(viewport)
    }
}

impl RenderTargetFactory for CpuRenderTargetFactory {
    /// A software target whenever its framebuffer can be addressed.
    open spec fn create_answer(&self, viewport: Viewport) -> Result<(), RenderError> {
        if cpu::fits_in_memory(viewport) {
            Ok(())
        } else {
            Err(RenderError::BackendUnavailable("framebuffer does not fit in memory"))
        }
    }

    /// A software target, or an unavailable backend when the framebuffer
    /// cannot be addressed.
    fn create(&self, viewport: Viewport) -> (result: Result<Box<dyn RenderTarget>, RenderError>)
        ensures
            result is Ok <==> cpu::fits_in_memory(viewport),
    {
        if cpu::CpuRenderTarget::fits(viewport) {
            Ok(Box::new(self.create_cpu_target(viewport)))
        } else {
            Err(RenderError::BackendUnavailable("framebuffer does not fit in memory"))
        }
    }
}

/// Hands out consecutive frame identities, wrapping after the largest one.
#[derive(Debug)]
pub struct FrameBuilder {
    next_frame_id: u64,
}

/// The identity that follows `frame_id`.
pub open spec fn next_frame_id(frame_id: u64) -> u64 {
    if frame_id == u64::MAX {
        0
    } else {
        (frame_id + 1) as u64
    }
}

impl Default for FrameBuilder {
    fn default() -> (builder: Self)
        ensures
            builder.next_frame_id_spec() == 0,
    {
        Self::new()
    }
}

impl FrameBuilder {
    /// The identity of the next frame built.
    pub closed spec fn next_frame_id_spec(&self) -> u64 {
        self.next_frame_id
    }

    pub fn new() -> (builder: Self)
        ensures
            builder.next_frame_id_spec() == 0,
    {
        Self { next_frame_id: 0 }
    }

    /// Snapshots a frame under the next identity.
    pub fn build(&mut self, viewport: Viewport, tiles: Vec<TileDraw>, overlays: Vec<OverlayPrimitive>) -> (frame:
        RenderFrame)
        ensures
            frame.frame_id_spec() == old(self).next_frame_id_spec(),
            frame.viewport_spec() == viewport,
            frame.tiles_spec() == tiles@,
            frame.overlays_spec() == overlays@,
            final(self).next_frame_id_spec() == next_frame_id(old(self).next_frame_id_spec()),
    {
        let frame = RenderFrame { frame_id: self.next_frame_id, viewport, tiles, overlays };
        self.next_frame_id = self.next_frame_id.wrapping_add(1);
        frame
    }
}

/// Two frames built one after the other carry consecutive identities, so
/// identities only repeat after every `u64` has been handed out.
pub proof fn lemma_frame_ids_are_consecutive(first: u64, second: u64)
    requires
        second == next_frame_id(first),
    ensures
        first < u64::MAX ==> second == first + 1,
        first == u64::MAX ==> second == 0,
        second != first,
{
}

/// The identity a builder that started at `start` hands out after `count`
/// builds.
pub open spec fn frame_id_after(start: u64, count: nat) -> u64
    decreases count,
{
    if count == 0 {
        start
    } else {
        next_frame_id(frame_id_after(start, (count - 1) as nat))
    }
}

/// A new builder hands the frame built after `count` others the identity
/// `count` modulo `2^64`.
pub proof fn lemma_frame_id_counts_builds(count: nat)
    ensures
        frame_id_after(0, count) == count % 0x1_0000_0000_0000_0000,
    decreases count,
{
    let modulus: int = 0x1_0000_0000_0000_0000;
    if count == 0 {
        assert(0nat % 0x1_0000_0000_0000_0000 == 0) by (nonlinear_arith);
    } else {
        let previous = (count - 1) as nat;
        lemma_frame_id_counts_builds(previous);
        let quotient = previous as int / modulus;
        let remainder = previous as int % modulus;
        vstd::arithmetic::div_mod::lemma_fundamental_div_mod(previous as int, modulus);
        vstd::arithmetic::div_mod::lemma_mod_bound(previous as int, modulus);
        if remainder < modulus - 1 {
            vstd::arithmetic::div_mod::lemma_fundamental_div_mod_converse(
                count as int,
                modulus,
                quotient,
                remainder + 1,
            );
        } else {
            assert(count as int == (quotient + 1) * modulus + 0) by (nonlinear_arith)
                requires
                    previous as int == modulus * quotient + remainder,
                    remainder == modulus - 1,
                    count == previous + 1,
            ;
            vstd::arithmetic::div_mod::lemma_fundamental_div_mod_converse(
                count as int,
                modulus,
                quotient + 1,
                0,
            );
        }
    }
}

} // verus!

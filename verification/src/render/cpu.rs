//! Software render target that composes frames into an RGBA8 framebuffer.
use std::collections::HashMap;
use vstd::prelude::*;

use super::{
    frame_draws, FrameOutcome, ImageId, ImageRevision, ImageUpdate, OverlayPrimitive, Rect,
    RenderCapabilities, RenderError, RenderFrame, RenderTarget, SurfaceFailure, TargetCall,
    TileDraw, Viewport,
};
use crate::{lemma_row_major, lemma_row_major_split, lemma_scaled_source_bound, scaled_source};

verus! {

broadcast use vstd::std_specs::hash::group_hash_axioms;

/// An uploaded image as the target keeps it.
pub struct StoredImage {
    revision: ImageRevision,
    width: u32,
    height: u32,
    rgba8: Vec<u8>,
}

/// What the target knows of an uploaded image: its revision, size and pixels.
pub struct StoredImageView {
    pub revision: u64,
    pub width: u32,
    pub height: u32,
    pub rgba8: Seq<u8>,
}

impl View for StoredImage {
    type V = StoredImageView;

    closed spec fn view(&self) -> StoredImageView {
        StoredImageView {
            revision: self.revision@,
            width: self.width,
            height: self.height,
            rgba8: self.rgba8@,
        }
    }
}

impl StoredImage {
    #[verifier::type_invariant]
    closed spec fn well_formed(self) -> bool {
        self.rgba8@.len() == super::rgba8_len(self.width, self.height)
    }
}

/// Bytes of an RGBA8 framebuffer for `viewport`.
pub open spec fn framebuffer_len(viewport: Viewport) -> int {
    super::rgba8_len(viewport.width_spec(), viewport.height_spec())
}

/// Whether a framebuffer for `viewport` can be addressed in memory.
pub open spec fn fits_in_memory(viewport: Viewport) -> bool {
    framebuffer_len(viewport) <= usize::MAX
}

/// Whether screen pixel `pixel` of a `viewport_width`-wide, `viewport_height`
/// tall screen lies in `destination`.
pub open spec fn in_destination(
    viewport_width: int,
    viewport_height: int,
    destination: Rect,
    pixel: int,
) -> bool {
    let x = pixel % viewport_width;
    let y = pixel / viewport_width;
    &&& y < viewport_height
    &&& destination.x <= x < destination.x + destination.width
    &&& destination.y <= y < destination.y + destination.height
}

/// Byte `channel` of the image pixel that screen pixel `pixel` samples when
/// the image is stretched over `destination`.
pub open spec fn sampled_byte(
    viewport_width: int,
    destination: Rect,
    image: StoredImageView,
    pixel: int,
    channel: int,
) -> u8 {
    let column = pixel % viewport_width - destination.x;
    let row = pixel / viewport_width - destination.y;
    image.rgba8[(scaled_source(row, image.height as int, destination.height as int)
        * image.width + scaled_source(column, image.width as int, destination.width as int)) * 4
        + channel]
}

/// The framebuffer `old` after `image` is stretched over `destination`: the
/// covered pixels take the sampled image pixel, the others keep their bytes.
pub open spec fn composed(
    old: Seq<u8>,
    viewport_width: int,
    viewport_height: int,
    destination: Rect,
    image: StoredImageView,
) -> Seq<u8> {
    Seq::new(
        old.len(),
        |byte: int|
            if image.width > 0 && image.height > 0 && in_destination(
                viewport_width,
                viewport_height,
                destination,
                byte / 4,
            ) {
                sampled_byte(viewport_width, destination, image, byte / 4, byte % 4)
            } else {
                old[byte]
            },
    )
}

/// `composed` restricted to the destination pixels before row `done_row`, or
/// in row `done_row` before column `done_column`.
pub open spec fn composed_prefix(
    old: Seq<u8>,
    viewport_width: int,
    viewport_height: int,
    destination: Rect,
    image: StoredImageView,
    done_row: int,
    done_column: int,
) -> Seq<u8> {
    Seq::new(
        old.len(),
        |byte: int|
            {
                let pixel = byte / 4;
                let row = pixel / viewport_width - destination.y;
                let column = pixel % viewport_width - destination.x;
                if image.width > 0 && image.height > 0 && in_destination(
                    viewport_width,
                    viewport_height,
                    destination,
                    pixel,
                ) && (row < done_row || (row == done_row && column < done_column)) {
                    sampled_byte(viewport_width, destination, image, pixel, byte % 4)
                } else {
                    old[byte]
                }
            },
    )
}

/// The framebuffer after each draw whose image is stored with the draw's
/// revision is composed in order; the other draws are skipped.
pub open spec fn compose_all(
    framebuffer: Seq<u8>,
    viewport: Viewport,
    draws: Seq<TileDraw>,
    images: Map<u64, StoredImageView>,
) -> Seq<u8>
    decreases draws.len(),
{
    if draws.len() == 0 {
        framebuffer
    } else {
        let before = compose_all(framebuffer, viewport, draws.drop_last(), images);
        let tile = draws.last();
        let key = tile.image_spec()@;
        if images.contains_key(key) && images[key].revision == tile.revision_spec()@ {
            composed(
                before,
                viewport.width_spec() as int,
                viewport.height_spec() as int,
                tile.destination_spec(),
                images[key],
            )
        } else {
            before
        }
    }
}

/// Byte `byte` of a framebuffer lies in pixel `byte / 4` at channel `byte % 4`.
proof fn lemma_pixel_bytes(pixel: int, channel: int)
    requires
        pixel >= 0,
        0 <= channel < 4,
    ensures
        (pixel * 4 + channel) / 4 == pixel,
        (pixel * 4 + channel) % 4 == channel,
{
    vstd::arithmetic::div_mod::lemma_fundamental_div_mod_converse(pixel * 4 + channel, 4, pixel, channel);
}

/// The bytes of one screen pixel, written from the sampled image pixel, move
/// the composition one destination pixel further.
proof fn lemma_compose_step(
    framebuffer: Seq<u8>,
    next: Seq<u8>,
    old: Seq<u8>,
    viewport_width: int,
    viewport_height: int,
    destination: Rect,
    image: StoredImageView,
    done_row: int,
    done_column: int,
)
    requires
        viewport_width > 0,
        0 <= done_row < destination.height,
        0 <= done_column < destination.width,
        old.len() == viewport_width * viewport_height * 4,
        framebuffer == composed_prefix(old, viewport_width, viewport_height, destination, image,
            done_row, done_column),
        ({
            let x = destination.x + done_column;
            let y = destination.y + done_row;
            let inside = 0 <= x < viewport_width && 0 <= y < viewport_height && image.width > 0
                && image.height > 0;
            &&& inside ==> next.len() == framebuffer.len() && forall|byte: int|
                #![trigger next[byte]]
                0 <= byte < next.len() ==> next[byte] == if byte / 4 == y * viewport_width + x {
                    sampled_byte(viewport_width, destination, image, byte / 4, byte % 4)
                } else {
                    framebuffer[byte]
                }
            &&& !inside ==> next == framebuffer
        }),
    ensures
        next == composed_prefix(old, viewport_width, viewport_height, destination, image,
            done_row, done_column + 1),
{
    let goal = composed_prefix(old, viewport_width, viewport_height, destination, image, done_row,
        done_column + 1);
    let x = destination.x + done_column;
    let y = destination.y + done_row;
    let inside = 0 <= x < viewport_width && 0 <= y < viewport_height && image.width > 0
        && image.height > 0;
    if inside {
        lemma_row_major(viewport_width, y, x);
    }
    assert forall|byte: int| 0 <= byte < next.len() implies next[byte] == goal[byte] by {
        vstd::arithmetic::div_mod::lemma_fundamental_div_mod(byte, 4);
        vstd::arithmetic::div_mod::lemma_div_pos_is_pos(byte, 4);
        let pixel = byte / 4;
        lemma_row_major_split(viewport_width, pixel);
        if pixel / viewport_width == y && pixel % viewport_width == x {
            assert(pixel == y * viewport_width + x);
        }
        if inside && pixel == y * viewport_width + x {
            assert(pixel / viewport_width == y && pixel % viewport_width == x);
        }
        if !inside && pixel / viewport_width == y && pixel % viewport_width == x && image.width > 0
            && image.height > 0 {
            assert(!in_destination(viewport_width, viewport_height, destination, pixel));
        }
    }
    assert(next =~= goal);
}

/// The end of a destination row is the start of the next; after the last
/// row the composition is complete.
proof fn lemma_compose_row(
    old: Seq<u8>,
    viewport_width: int,
    viewport_height: int,
    destination: Rect,
    image: StoredImageView,
    done_row: int,
)
    ensures
        composed_prefix(old, viewport_width, viewport_height, destination, image, done_row,
            destination.width as int) == composed_prefix(old, viewport_width, viewport_height,
            destination, image, done_row + 1, 0),
        composed_prefix(old, viewport_width, viewport_height, destination, image,
            destination.height as int, 0) == composed(old, viewport_width, viewport_height,
            destination, image),
        composed_prefix(old, viewport_width, viewport_height, destination, image, 0, 0) == old,
{
    assert(composed_prefix(old, viewport_width, viewport_height, destination, image, done_row,
        destination.width as int) =~= composed_prefix(old, viewport_width, viewport_height,
        destination, image, done_row + 1, 0));
    assert(composed_prefix(old, viewport_width, viewport_height, destination, image,
        destination.height as int, 0) =~= composed(old, viewport_width, viewport_height,
        destination, image));
    assert(composed_prefix(old, viewport_width, viewport_height, destination, image, 0, 0) =~= old);
}

/// A target that composes frames in memory.
pub struct CpuRenderTarget {
    viewport: Viewport,
    framebuffer: Vec<u8>,
    images: HashMap<u64, StoredImage>,
    calls: Ghost<Seq<TargetCall>>,
}

/// A zeroed framebuffer for `viewport`, or `None` when it cannot be addressed.
fn zeroed_framebuffer(viewport: Viewport) -> (framebuffer: Option<Vec<u8>>)
    ensures
        match framebuffer {
            Some(framebuffer) => fits_in_memory(viewport) && framebuffer@ == zeros(
                framebuffer_len(viewport),
            ),
            None => !fits_in_memory(viewport),
        },
{
    let pixels = (viewport.width() as usize).checked_mul(viewport.height() as usize);
    proof {
        assert(viewport.width_spec() * viewport.height_spec() * 4 >= viewport.width_spec()
            * viewport.height_spec()) by (nonlinear_arith);
    }
    match pixels {
        Some(pixels) => match pixels.checked_mul(4) {
            Some(length) => {
                let framebuffer = vec![0u8; length];
                proof {
                    assert(framebuffer@ =~= zeros(framebuffer_len(viewport)));
                }
                Some(framebuffer)
            },
            None => None,
        },
        None => None,
    }
}

/// A sequence of `length` zero bytes.
pub open spec fn zeros(length: int) -> Seq<u8> {
    Seq::new(length as nat, |i: int| 0u8)
}

impl CpuRenderTarget {
    /// The framebuffer always has the length its viewport asks for.
    #[verifier::type_invariant]
    closed spec fn well_formed(self) -> bool {
        &&& fits_in_memory(self.viewport)
        &&& self.framebuffer@.len() == framebuffer_len(self.viewport)
    }

    pub closed spec fn viewport_spec(&self) -> Viewport {
        self.viewport
    }

    /// The RGBA8 bytes of the screen, row by row.
    pub closed spec fn framebuffer_spec(&self) -> Seq<u8> {
        self.framebuffer@
    }

    /// The uploaded images, keyed by the value of their identity.
    pub closed spec fn images_spec(&self) -> Map<u64, StoredImageView> {
        self.images@.map_values(|image: StoredImage| image@)
    }

    pub fn new(viewport: Viewport) -> (target: Self)
        requires
            fits_in_memory(viewport),
        ensures
            target.viewport_spec() == viewport,
            target.framebuffer_spec() == zeros(framebuffer_len(viewport)),
            target.images_spec() == Map::<u64, StoredImageView>::empty(),
            target.calls() == Seq::<TargetCall>::empty(),
    {
        let framebuffer = match zeroed_framebuffer(viewport) {
            Some(framebuffer) => framebuffer,
            None => Vec::new(),
        };
        let target = Self {
            viewport,
            framebuffer,
            images: HashMap::new(),
            calls: Ghost(Seq::empty()),
        };
        proof {
            assert(target.images_spec() =~= Map::<u64, StoredImageView>::empty());
        }
        target
    }

    /// The RGBA8 bytes of screen pixel `(x, y)`, if it lies on the screen.
    pub fn pixel_rgba8(&self, x: u32, y: u32) -> (pixel: Option<[u8; 4]>)
        ensures
            match pixel {
                Some(bytes) => {
                    let offset = (y * self.viewport_spec().width_spec() + x) * 4;
                    &&& x < self.viewport_spec().width_spec()
                    &&& y < self.viewport_spec().height_spec()
                    &&& offset + 4 <= self.framebuffer_spec().len()
                    &&& bytes@ == self.framebuffer_spec().subrange(offset, offset + 4)
                },
                None => x >= self.viewport_spec().width_spec() || y
                    >= self.viewport_spec().height_spec() || (y * self.viewport_spec().width_spec()
                    + x) * 4 + 4 > self.framebuffer_spec().len(),
            },
    {
        if x >= self.viewport.width() || y >= self.viewport.height() {
            return None;
        }
        proof {
            assert(y * self.viewport.width_spec() <= u32::MAX * u32::MAX) by (nonlinear_arith)
                requires
                    y <= u32::MAX,
                    self.viewport.width_spec() <= u32::MAX,
            ;
        }
        let offset = (y as u128 * self.viewport.width() as u128 + x as u128) * 4;
        if offset > self.framebuffer.len() as u128 || self.framebuffer.len() as u128 - offset < 4 {
            return None;
        }
        let offset = offset as usize;
        let bytes = [
            self.framebuffer[offset],
            self.framebuffer[offset + 1],
            self.framebuffer[offset + 2],
            self.framebuffer[offset + 3],
        ];
        proof {
            assert(bytes@ =~= self.framebuffer@.subrange(offset as int, offset + 4));
        }
        Some(bytes)
    }

    /// Stretches `image` over the tile's destination, clipping to the screen.
    fn draw_image(
        viewport_width: u32,
        viewport_height: u32,
        framebuffer: &mut Vec<u8>,
        image: &StoredImage,
        destination: Rect,
    )
        requires
            viewport_width * viewport_height * 4 <= usize::MAX,
            old(framebuffer)@.len() == viewport_width * viewport_height * 4,
        ensures
            final(framebuffer)@ == composed(
                old(framebuffer)@,
                viewport_width as int,
                viewport_height as int,
                destination,
                image@,
            ),
        no_unwind
    {
        proof {
            use_type_invariant(image);
        }
        let ghost original = framebuffer@;
        let ghost vw = viewport_width as int;
        let ghost vh = viewport_height as int;
        if destination.width == 0 || destination.height == 0 || viewport_width == 0
            || viewport_height == 0 {
            proof {
                assert(framebuffer@ =~= composed(original, vw, vh, destination, image@)) by {
                    if viewport_width == 0 || viewport_height == 0 {
                        assert(original.len() == 0) by (nonlinear_arith)
                            requires
                                original.len() == vw * vh * 4,
                                vw == 0 || vh == 0,
                        ;
                    }
                }
            }
            return;
        }
        let length = framebuffer.len();
        let image_length = image.rgba8.len();
        proof {
            lemma_compose_row(original, vw, vh, destination, image@, 0);

        }
        let mut target_y: u32 = 0;
        while target_y < destination.height
            invariant
                image.well_formed(),
                image_length == image.rgba8@.len(),
                vw == viewport_width,
                vh == viewport_height,
                vw > 0,
                vh > 0,
                length == original.len(),
                original.len() == vw * vh * 4,
                framebuffer@.len() == original.len(),
                destination.width > 0,
                destination.height > 0,
                target_y <= destination.height,
                framebuffer@ == composed_prefix(original, vw, vh, destination, image@,
                    target_y as int, 0),
            decreases destination.height - target_y,
        {
            let mut target_x: u32 = 0;
            while target_x < destination.width
                invariant
                    image.well_formed(),
                    image_length == image.rgba8@.len(),
                    vw == viewport_width,
                    vh == viewport_height,
                    vw > 0,
                    vh > 0,
                    length == original.len(),
                    original.len() == vw * vh * 4,
                    framebuffer@.len() == original.len(),
                        destination.width > 0,
                    destination.height > 0,
                    target_y < destination.height,
                    target_x <= destination.width,
                    framebuffer@ == composed_prefix(original, vw, vh, destination, image@,
                        target_y as int, target_x as int),
                decreases destination.width - target_x,
            {
                let ghost before = framebuffer@;
                let screen_x = destination.x as i64 + target_x as i64;
                let screen_y = destination.y as i64 + target_y as i64;
                if screen_x >= 0 && screen_y >= 0 && screen_x < viewport_width as i64 && screen_y
                    < viewport_height as i64 {
                    proof {
                        assert(target_x * image.width <= u32::MAX * u32::MAX) by (nonlinear_arith)
                            requires
                                target_x <= u32::MAX,
                                image.width <= u32::MAX,
                        ;
                        assert(target_y * image.height <= u32::MAX * u32::MAX) by (nonlinear_arith)
                            requires
                                target_y <= u32::MAX,
                                image.height <= u32::MAX,
                        ;
                    }
                    let source_x = (target_x as u64 * image.width as u64 / destination.width as u64)
                        as usize;
                    let source_y = (target_y as u64 * image.height as u64
                        / destination.height as u64) as usize;
                    proof {
                        assert(target_x * image.width <= u32::MAX * u32::MAX) by (nonlinear_arith)
                            requires
                                target_x <= u32::MAX,
                                image.width <= u32::MAX,
                        ;
                        assert(target_y * image.height <= u32::MAX * u32::MAX) by (nonlinear_arith)
                            requires
                                target_y <= u32::MAX,
                                image.height <= u32::MAX,
                        ;
                        assert(screen_y * vw + screen_x < vw * vh) by (nonlinear_arith)
                            requires
                                0 <= screen_y < vh,
                                0 <= screen_x < vw,
                        ;
                        if image.width > 0 && image.height > 0 {
                            lemma_scaled_source_bound(target_x as int, image.width as int,
                                destination.width as int);
                            lemma_scaled_source_bound(target_y as int, image.height as int,
                                destination.height as int);
                            assert((source_y * image.width + source_x) * 4 + 4 <= image.width
                                * image.height * 4) by (nonlinear_arith)
                                requires
                                    source_y < image.height,
                                    source_x < image.width,
                            ;
                        }
                    }
                    let pixel = screen_y as usize * viewport_width as usize + screen_x as usize;
                    if image.width > 0 && image.height > 0 {
                        let source = (source_y * image.width as usize + source_x) * 4;
                        let target = pixel * 4;
                        framebuffer[target] = image.rgba8[source];
                        framebuffer[target + 1] = image.rgba8[source + 1];
                        framebuffer[target + 2] = image.rgba8[source + 2];
                        framebuffer[target + 3] = image.rgba8[source + 3];
                        proof {
                            assert forall|byte: int|
                                #![trigger framebuffer@[byte]]
                                0 <= byte < framebuffer@.len() implies framebuffer@[byte] == if byte
                                    / 4 == pixel {
                                    sampled_byte(vw, destination, image@, byte / 4, byte % 4)
                                } else {
                                    before[byte]
                                } by {
                                vstd::arithmetic::div_mod::lemma_fundamental_div_mod(byte, 4);
                                vstd::arithmetic::div_mod::lemma_mod_bound(byte, 4);
                                if byte / 4 == pixel {
                                    lemma_pixel_bytes(pixel as int, byte % 4);
                                    lemma_row_major(vw, screen_y as int, screen_x as int);
                                } else {
                                    assert(byte < target || byte >= target + 4);
                                }
                            }
                        }
                    }
                }
                proof {
                    lemma_compose_step(before, framebuffer@, original, vw, vh, destination, image@,
                        target_y as int, target_x as int);
                }
                target_x = target_x + 1;
            }
            proof {
                lemma_compose_row(original, vw, vh, destination, image@, target_y as int);
            }
            target_y = target_y + 1;
        }
        proof {
            lemma_compose_row(original, vw, vh, destination, image@, target_y as int);
        }
    }
}

/// What the target stores of an update.
pub open spec fn stored_view(update: ImageUpdate) -> StoredImageView {
    StoredImageView {
        revision: update.revision_spec()@,
        width: update.width_spec(),
        height: update.height_spec(),
        rgba8: update.rgba8_spec(),
    }
}

/// The stored images after each update replaces the image it names.
pub open spec fn store_all(images: Map<u64, StoredImageView>, updates: Seq<ImageUpdate>) -> Map<
    u64,
    StoredImageView,
>
    decreases updates.len(),
{
    if updates.len() == 0 {
        images
    } else {
        store_all(images, updates.drop_last()).insert(
            updates.last().image_spec()@,
            stored_view(updates.last()),
        )
    }
}

impl CpuRenderTarget {
    /// Whether a framebuffer for `viewport` can be addressed.
    pub fn fits(viewport: Viewport) -> (fits: bool)
        ensures
            fits == fits_in_memory(viewport),
    {
        let pixels = (viewport.width() as usize).checked_mul(viewport.height() as usize);
        proof {
            assert(viewport.width_spec() * viewport.height_spec() * 4 >= viewport.width_spec()
                * viewport.height_spec()) by (nonlinear_arith);
        }
        match pixels {
            Some(pixels) => pixels.checked_mul(4).is_some(),
            None => false,
        }
    }

    /// Sets every byte of the framebuffer to zero.
    fn clear(&mut self)
        ensures
            final(self).calls@ == old(self).calls@,
            final(self).framebuffer_spec() == zeros(old(self).framebuffer_spec().len() as int),
            final(self).viewport_spec() == old(self).viewport_spec(),
            final(self).images_spec() == old(self).images_spec(),
    {
        proof {
            use_type_invariant(&*self);
        }
        let length = self.framebuffer.len();
        let framebuffer = vec![0u8; length];
        proof {
            assert(framebuffer@ =~= zeros(length as int));
        }
        self.framebuffer = framebuffer;
    }

    /// Composes one draw when its image is stored with the draw's revision.
    fn compose_draw(&mut self, tile: &TileDraw)
        ensures
            final(self).calls@ == old(self).calls@,
            final(self).framebuffer_spec() == compose_all(
                old(self).framebuffer_spec(),
                old(self).viewport_spec(),
                seq![*tile],
                old(self).images_spec(),
            ),
            final(self).viewport_spec() == old(self).viewport_spec(),
            final(self).images_spec() == old(self).images_spec(),
    {
        proof {
            use_type_invariant(&*self);
            assert(seq![*tile].drop_last() =~= Seq::<TileDraw>::empty());
            assert(compose_all(self.framebuffer@, self.viewport, Seq::<TileDraw>::empty(), self.images_spec())
                == self.framebuffer@);
        }
        let viewport_width = self.viewport.width();
        let viewport_height = self.viewport.height();
        match self.images.get(&tile.image().value()) {
            Some(image) => {
                proof {
                    image.revision.lemma_view_injective(tile.revision_spec());
                    assert(self.images_spec()[tile.image_spec()@] == image@);
                }
                if image.revision == tile.revision() {
                    Self::draw_image(
                        viewport_width,
                        viewport_height,
                        &mut self.framebuffer,
                        image,
                        tile.destination(),
                    );
                }
            },
            None => {},
        }
    }
}

impl CpuRenderTarget {
    /// Adds `call` to the record of calls.
    fn record(&mut self, call: Ghost<TargetCall>)
        ensures
            final(self).calls@ == old(self).calls@.push(call@),
            final(self).viewport_spec() == old(self).viewport_spec(),
            final(self).framebuffer_spec() == old(self).framebuffer_spec(),
            final(self).images_spec() == old(self).images_spec(),
    {
        proof {
            use_type_invariant(&*self);
        }
        self.calls = Ghost(self.calls@.push(call@));
    }
}

impl RenderTarget for CpuRenderTarget {
    closed spec fn calls(&self) -> Seq<TargetCall> {
        self.calls@
    }

    fn capabilities(&self) -> (capabilities: RenderCapabilities)
        ensures
            capabilities == (RenderCapabilities {
                partial_image_updates: true,
                persistent_resources: true,
            }),
    {
        RenderCapabilities { partial_image_updates: true, persistent_resources: true }
    }

    /// Takes the new viewport with a zeroed framebuffer; fails, changing
    /// nothing, when that framebuffer cannot be addressed.
    fn resize(&mut self, viewport: Viewport) -> (result: Result<(), RenderError>)
        ensures
            result is Ok <==> fits_in_memory(viewport),
            result is Ok ==> final(self).viewport_spec() == viewport,
            result is Ok ==> final(self).framebuffer_spec() == zeros(framebuffer_len(viewport)),
            result is Err ==> final(self).viewport_spec() == old(self).viewport_spec()
                && final(self).framebuffer_spec() == old(self).framebuffer_spec(),
            final(self).images_spec() == old(self).images_spec(),
    {
        proof {
            use_type_invariant(&*self);
        }
        let result = match zeroed_framebuffer(viewport) {
            Some(framebuffer) => {
                let mut images = HashMap::new();
                std::mem::swap(&mut images, &mut self.images);
                let calls = self.calls;
                *self = CpuRenderTarget { viewport, framebuffer, images, calls };
                Ok(())
            },
            None => Err(RenderError::BackendUnavailable("framebuffer does not fit in memory")),
        };
        self.record(Ghost(TargetCall::Resize(viewport, result)));
        result
    }

    /// Stores each update under its image, replacing earlier content.
    fn update_images(&mut self, updates: &[ImageUpdate]) -> (result: Result<(), RenderError>)
        ensures
            result is Ok,
            final(self).images_spec() == store_all(old(self).images_spec(), updates@),
            final(self).viewport_spec() == old(self).viewport_spec(),
            final(self).framebuffer_spec() == old(self).framebuffer_spec(),
    {
        proof {
            use_type_invariant(&*self);
        }
        let ghost original = self.images_spec();
        let mut images = HashMap::new();
        std::mem::swap(&mut images, &mut self.images);
        let mut index: usize = 0;
        proof {
            assert(updates@.take(0) =~= Seq::<ImageUpdate>::empty());
        }
        while index < updates.len()
            invariant
                index <= updates@.len(),
                images@.map_values(|image: StoredImage| image@) == store_all(
                    original,
                    updates@.take(index as int),
                ),
            decreases updates.len() - index,
        {
            let update = &updates[index];
            let (width, height) = update.dimensions();
            proof {
                use_type_invariant(update);
            }
            let stored = StoredImage {
                revision: update.revision(),
                width,
                height,
                rgba8: vstd::slice::slice_to_vec(update.rgba8()),
            };
            let ghost before = images@;
            images.insert(update.image().value(), stored);
            proof {
                assert(updates@.take(index + 1).drop_last() =~= updates@.take(index as int));
                assert(images@.map_values(|image: StoredImage| image@) =~= before.map_values(
                    |image: StoredImage| image@,
                ).insert(update.image_spec()@, stored_view(*update)));
            }
            index = index + 1;
        }
        proof {
            assert(updates@.take(updates@.len() as int) =~= updates@);
        }
        std::mem::swap(&mut images, &mut self.images);
        let result = Ok(());
        self.record(Ghost(TargetCall::UpdateImages(updates@, result)));
        result
    }

    /// Clears the screen, then composes the tiles and overlays in order; a
    /// frame for another viewport is refused.
    fn render(&mut self, frame: &RenderFrame) -> (result: Result<FrameOutcome, RenderError>)
        ensures
            frame.viewport_spec() != old(self).viewport_spec() ==> result == Err::<
                FrameOutcome,
                RenderError,
            >(RenderError::InvalidFrame("frame viewport differs from target viewport"))
                && final(self).framebuffer_spec() == old(self).framebuffer_spec(),
            frame.viewport_spec() == old(self).viewport_spec() ==> (match result {
                Ok(outcome) => outcome.submitted_spec() && final(self).framebuffer_spec()
                    == compose_all(
                    zeros(old(self).framebuffer_spec().len() as int),
                    old(self).viewport_spec(),
                    frame_draws(*frame),
                    old(self).images_spec(),
                ),
                Err(_) => false,
            }),
            final(self).viewport_spec() == old(self).viewport_spec(),
            final(self).images_spec() == old(self).images_spec(),
    {
        if frame.viewport() != self.viewport {
            proof {
                frame.viewport_spec().lemma_equal(self.viewport);
            }
            let result = Err(RenderError::InvalidFrame("frame viewport differs from target viewport"));
            self.record(Ghost(TargetCall::Render(*frame, result)));
            return result;
        }
        let ghost calls = self.calls@;
        let ghost cleared = zeros(self.framebuffer@.len() as int);
        let ghost images = self.images_spec();
        let ghost viewport = self.viewport;
        let ghost draws = frame_draws(*frame);
        self.clear();
        let tiles = frame.tiles();
        let overlays = frame.overlays();
        let mut index: usize = 0;
        proof {
            assert(draws.take(0) =~= Seq::<TileDraw>::empty());
        }
        while index < tiles.len()
            invariant
                tiles@ == frame.tiles_spec(),
                overlays@ == frame.overlays_spec(),
                draws == frame_draws(*frame),
                index <= tiles@.len(),
                self.viewport == viewport,
                self.images_spec() == images,
                self.calls@ == calls,
                self.framebuffer_spec() == compose_all(cleared, viewport, draws.take(index as int), images),
            decreases tiles.len() - index,
        {
            let tile = &tiles[index];
            proof {
                assert(draws[index as int] == *tile);
            }
            let ghost before = self.framebuffer_spec();
            self.compose_draw(tile);
            proof {
                lemma_compose_one(cleared, viewport, draws, index as int, images);
            }
            index = index + 1;
        }
        let mut position: usize = 0;
        while position < overlays.len()
            invariant
                tiles@ == frame.tiles_spec(),
                overlays@ == frame.overlays_spec(),
                draws == frame_draws(*frame),
                position <= overlays@.len(),
                self.viewport == viewport,
                self.images_spec() == images,
                self.calls@ == calls,
                self.framebuffer_spec() == compose_all(
                    cleared,
                    viewport,
                    draws.take(tiles@.len() + position),
                    images,
                ),
            decreases overlays.len() - position,
        {
            let tile = match &overlays[position] {
                OverlayPrimitive::Image(tile) => tile,
            };
            proof {
                assert(draws[tiles@.len() + position] == *tile);
            }
            self.compose_draw(tile);
            proof {
                lemma_compose_one(cleared, viewport, draws, tiles@.len() + position, images);
            }
            position = position + 1;
        }
        proof {
            assert(draws.take(draws.len() as int) =~= draws);
        }
        let result = Ok(FrameOutcome::submitted());
        self.record(Ghost(TargetCall::Render(*frame, result)));
        result
    }

    fn evict_images(&mut self, images: &[ImageId])
        ensures
            final(self).images_spec() == old(self).images_spec().remove_keys(
                super::device::image_values(images@),
            ),
            final(self).viewport_spec() == old(self).viewport_spec(),
            final(self).framebuffer_spec() == old(self).framebuffer_spec(),
    {
        proof {
            use_type_invariant(&*self);
        }
        let ghost original = self.images_spec();
        let mut stored = HashMap::new();
        std::mem::swap(&mut stored, &mut self.images);
        let mut position: usize = 0;
        while position < images.len()
            invariant
                position <= images@.len(),
                stored@.map_values(|image: StoredImage| image@) == original.remove_keys(
                    super::device::image_values_prefix(images@, position as int),
                ),
            decreases images.len() - position,
        {
            let image = images[position].value();
            let ghost before = stored@;
            stored.remove(&image);
            proof {
                assert(stored@ == before.remove(image));
                assert(stored@.map_values(|image: StoredImage| image@) =~= before.map_values(
                    |image: StoredImage| image@,
                ).remove(image));
                assert(super::device::image_values_prefix(images@, position + 1) =~= super::device::image_values_prefix(
                    images@,
                    position as int,
                ).insert(image)) by {
                    assert forall|value: u64|
                        super::device::image_values_prefix(images@, position + 1).contains(
                            value,
                        ) implies super::device::image_values_prefix(images@, position as int).insert(
                            image,
                        ).contains(value) by {
                        let j = choose|j: int|
                            #![trigger images@[j]]
                            0 <= j < position + 1 && images@[j]@ == value;
                        if j < position {
                            assert(super::device::image_values_prefix(images@, position as int).contains(value));
                        }
                    }
                    assert forall|value: u64|
                        super::device::image_values_prefix(images@, position as int).insert(image).contains(
                            value,
                        ) implies super::device::image_values_prefix(images@, position + 1).contains(value) by {
                        if value == image {
                            assert(images@[position as int]@ == image);
                        } else {
                            let j = choose|j: int|
                                #![trigger images@[j]]
                                0 <= j < position && images@[j]@ == value;
                            assert(images@[j]@ == value);
                        }
                    }
                }
                assert(stored@.map_values(|image: StoredImage| image@) =~= original.remove_keys(
                    super::device::image_values_prefix(images@, position + 1),
                ));
            }
            position = position + 1;
        }
        std::mem::swap(&mut stored, &mut self.images);
        self.record(Ghost(TargetCall::EvictImages(images@)));
    }

    /// Clears the screen.
    fn recover(&mut self, reason: SurfaceFailure) -> (result: Result<(), RenderError>)
        ensures
            result is Ok,
            final(self).framebuffer_spec() == zeros(old(self).framebuffer_spec().len() as int),
            final(self).viewport_spec() == old(self).viewport_spec(),
            final(self).images_spec() == old(self).images_spec(),
    {
        self.clear();
        let result = Ok(());
        self.record(Ghost(TargetCall::Recover(reason, result)));
        result
    }
}

/// Composing one more draw extends the composition of the draws before it.
proof fn lemma_compose_one(
    framebuffer: Seq<u8>,
    viewport: Viewport,
    draws: Seq<TileDraw>,
    index: int,
    images: Map<u64, StoredImageView>,
)
    requires
        0 <= index < draws.len(),
    ensures
        compose_all(framebuffer, viewport, draws.take(index + 1), images) == compose_all(
            compose_all(framebuffer, viewport, draws.take(index), images),
            viewport,
            seq![draws[index]],
            images,
        ),
{
    assert(draws.take(index + 1).drop_last() =~= draws.take(index));
    assert(seq![draws[index]].drop_last() =~= Seq::<TileDraw>::empty());
    let before = compose_all(framebuffer, viewport, draws.take(index), images);
    assert(compose_all(before, viewport, Seq::<TileDraw>::empty(), images) == before);
}

} // verus!

//! Fixed-point fractal arithmetic, tile composition and frame preparation.
use vstd::prelude::*;

pub mod app;
pub mod calculator;
pub mod config;
pub mod config_ui;
pub mod fixed;
pub mod geometry;
pub mod gpu;
pub mod gpu_window;
pub mod input;
pub mod limbs;
pub mod orchestrator;
pub mod output;
pub mod precision;
pub mod render;
pub mod renderer;
pub mod tile_grid;

pub use calculator::{Mandelbrot, MandelbrotFixed};
pub use fixed::Fixed;
pub use precision::{
    PrecisionDecisionManager, PrecisionRenderPlan, PrecisionSpec, PrecisionTechnique, RenderMethod,
};

verus! {

/// A small, packed RGBA sprite.
#[derive(Debug, PartialEq, Eq)]
pub struct Sprite {
    width: usize,
    height: usize,
    pixels: Vec<u32>,
}

/// Whether framebuffer index `i` receives a pixel when a `width` by `height`
/// image is placed with its top-left corner at `(x, y)` on a framebuffer of
/// `framebuffer_width` columns and `framebuffer_height` rows.
pub open spec fn covers(
    framebuffer_width: int,
    framebuffer_height: int,
    x: int,
    y: int,
    width: int,
    height: int,
    i: int,
) -> bool {
    let column = i % framebuffer_width;
    let row = i / framebuffer_width;
    &&& row < framebuffer_height
    &&& x <= column < x + width
    &&& y <= row < y + height
}

/// The source coordinate that target coordinate `t` samples when a line of
/// `source_size` pixels is stretched over `target_size` pixels.
pub open spec fn scaled_source(t: int, source_size: int, target_size: int) -> int {
    t * source_size / target_size
}

/// The framebuffer `old` after a `source_width` by `source_height` image is
/// stretched over a `width` by `height` rectangle whose top-left corner is at
/// `(x, y)`: every covered index takes the sampled source pixel, every other
/// index keeps its value.
pub open spec fn placed(
    old: Seq<u32>,
    framebuffer_width: int,
    x: int,
    y: int,
    width: int,
    height: int,
    source: Seq<u32>,
    source_width: int,
    source_height: int,
) -> Seq<u32> {
    let framebuffer_height = old.len() as int / framebuffer_width;
    Seq::new(
        old.len(),
        |i: int|
            if covers(framebuffer_width, framebuffer_height, x, y, width, height, i) {
                source[scaled_source(i / framebuffer_width - y, source_height, height)
                    * source_width + scaled_source(i % framebuffer_width - x, source_width, width)]
            } else {
                old[i]
            },
    )
}

/// `placed` restricted to the target pixels that come before row `done_row`,
/// or in row `done_row` before column `done_column`.
pub open spec fn placed_prefix(
    old: Seq<u32>,
    framebuffer_width: int,
    x: int,
    y: int,
    width: int,
    height: int,
    source: Seq<u32>,
    source_width: int,
    source_height: int,
    done_row: int,
    done_column: int,
) -> Seq<u32> {
    let framebuffer_height = old.len() as int / framebuffer_width;
    Seq::new(
        old.len(),
        |i: int|
            {
                let row = i / framebuffer_width - y;
                let column = i % framebuffer_width - x;
                if covers(framebuffer_width, framebuffer_height, x, y, width, height, i) && (
                row < done_row || (row == done_row && column < done_column)) {
                    source[scaled_source(row, source_height, height) * source_width
                        + scaled_source(column, source_width, width)]
                } else {
                    old[i]
                }
            },
    )
}

/// The index arithmetic of a framebuffer row: `row * width + column` splits
/// back into its row and column.
pub proof fn lemma_row_major(width: int, row: int, column: int)
    requires
        width > 0,
        row >= 0,
        0 <= column < width,
    ensures
        (row * width + column) / width == row,
        (row * width + column) % width == column,
{
    vstd::arithmetic::div_mod::lemma_fundamental_div_mod_converse(
        row * width + column,
        width,
        row,
        column,
    );
}

/// Every index is its row times the width plus its column.
pub proof fn lemma_row_major_split(width: int, i: int)
    requires
        width > 0,
        i >= 0,
    ensures
        i == (i / width) * width + i % width,
        i / width >= 0,
        0 <= i % width < width,
{
    vstd::arithmetic::div_mod::lemma_fundamental_div_mod(i, width);
    vstd::arithmetic::div_mod::lemma_div_pos_is_pos(i, width);
    vstd::arithmetic::div_mod::lemma_mod_bound(i, width);
    vstd::arithmetic::mul::lemma_mul_is_commutative(width, i / width);
}


/// Whether `(column, row)` is a pixel of a framebuffer of `length` pixels
/// laid out in rows of `framebuffer_width`.
pub open spec fn inside_framebuffer(length: int, framebuffer_width: int, column: int, row: int) -> bool {
    0 <= column < framebuffer_width && 0 <= row < length / framebuffer_width
}

/// One target pixel further: the pixel at `(done_row, done_column)` of the
/// target rectangle is written when it lies inside the framebuffer.
proof fn lemma_prefix_step(
    framebuffer: Seq<u32>,
    next: Seq<u32>,
    old: Seq<u32>,
    framebuffer_width: int,
    x: int,
    y: int,
    width: int,
    height: int,
    source: Seq<u32>,
    source_width: int,
    source_height: int,
    done_row: int,
    done_column: int,
)
    requires
        framebuffer_width > 0,
        0 <= done_row < height,
        0 <= done_column < width,
        framebuffer == placed_prefix(old, framebuffer_width, x, y, width, height, source,
            source_width, source_height, done_row, done_column),
        inside_framebuffer(old.len() as int, framebuffer_width, x + done_column, y + done_row)
            ==> next == framebuffer.update(
            (y + done_row) * framebuffer_width + x + done_column,
            source[scaled_source(done_row, source_height, height) * source_width + scaled_source(
                done_column,
                source_width,
                width,
            )],
        ),
        !inside_framebuffer(old.len() as int, framebuffer_width, x + done_column, y + done_row)
            ==> next == framebuffer,
    ensures
        next == placed_prefix(old, framebuffer_width, x, y, width, height, source, source_width,
            source_height, done_row, done_column + 1),
{
    let goal = placed_prefix(old, framebuffer_width, x, y, width, height, source, source_width,
        source_height, done_row, done_column + 1);
    let column = x + done_column;
    let row = y + done_row;
    let inside = inside_framebuffer(old.len() as int, framebuffer_width, column, row);
    if inside {
        lemma_row_major(framebuffer_width, row, column);
        lemma_inside(old.len() as int, framebuffer_width, row, column);
    }
    let value = source[scaled_source(done_row, source_height, height) * source_width
        + scaled_source(done_column, source_width, width)];
    assert(next.len() == goal.len());
    assert forall|i: int| 0 <= i < next.len() implies next[i] == goal[i] by {
        lemma_row_major_split(framebuffer_width, i);
        let r = i / framebuffer_width;
        let c = i % framebuffer_width;
        if r == row && c == column {
            assert(i == row * framebuffer_width + column);
            if inside {
                assert(next[i] == value);
                assert(goal[i] == value);
            } else {
                assert(!covers(framebuffer_width, old.len() as int / framebuffer_width, x, y, width,
                    height, i));
            }
        } else {
            if inside {
                assert(i != row * framebuffer_width + column);
            }
            assert(next[i] == framebuffer[i]);
        }
    }
    assert(next =~= goal);
}

/// The end of a target row is the start of the next one.
proof fn lemma_prefix_row(
    old: Seq<u32>,
    framebuffer_width: int,
    x: int,
    y: int,
    width: int,
    height: int,
    source: Seq<u32>,
    source_width: int,
    source_height: int,
    done_row: int,
)
    requires
        framebuffer_width > 0,
    ensures
        placed_prefix(old, framebuffer_width, x, y, width, height, source, source_width,
            source_height, done_row, width) == placed_prefix(old, framebuffer_width, x, y, width,
            height, source, source_width, source_height, done_row + 1, 0),
        placed_prefix(old, framebuffer_width, x, y, width, height, source, source_width,
            source_height, height, 0) == placed(old, framebuffer_width, x, y, width, height, source,
            source_width, source_height),
{
    assert(placed_prefix(old, framebuffer_width, x, y, width, height, source, source_width,
        source_height, done_row, width) =~= placed_prefix(old, framebuffer_width, x, y, width,
        height, source, source_width, source_height, done_row + 1, 0));
    assert(placed_prefix(old, framebuffer_width, x, y, width, height, source, source_width,
        source_height, height, 0) =~= placed(old, framebuffer_width, x, y, width, height, source,
        source_width, source_height));
}

/// A pixel at row `row` and column `column` of a framebuffer with
/// `framebuffer_height` full rows lies inside the buffer.
proof fn lemma_inside(length: int, framebuffer_width: int, row: int, column: int)
    requires
        framebuffer_width > 0,
        0 <= row < length / framebuffer_width,
        0 <= column < framebuffer_width,
        length >= 0,
    ensures
        row * framebuffer_width + column < length,
{
    vstd::arithmetic::div_mod::lemma_fundamental_div_mod(length, framebuffer_width);
    vstd::arithmetic::div_mod::lemma_mod_bound(length, framebuffer_width);
    let rows = length / framebuffer_width;
    assert(row * framebuffer_width + column < rows * framebuffer_width) by (nonlinear_arith)
        requires
            0 <= row < rows,
            0 <= column < framebuffer_width,
    ;
    vstd::arithmetic::mul::lemma_mul_is_commutative(framebuffer_width, rows);
}

/// The sampled source coordinate of a target coordinate stays inside the source.
pub(crate) proof fn lemma_scaled_source_bound(t: int, source_size: int, target_size: int)
    requires
        0 <= t < target_size,
        source_size > 0,
    ensures
        0 <= scaled_source(t, source_size, target_size) < source_size,
{
    assert(t * source_size < target_size * source_size) by (nonlinear_arith)
        requires
            0 <= t < target_size,
            source_size > 0,
    ;
    assert(0 <= t * source_size) by (nonlinear_arith)
        requires
            0 <= t,
            source_size > 0,
    ;
    vstd::arithmetic::div_mod::lemma_multiply_divide_lt(t * source_size, target_size, source_size);
    vstd::arithmetic::div_mod::lemma_div_pos_is_pos(t * source_size, target_size);
}

/// A source pixel index `row * width + column` lies inside a `width` by `height` image.
proof fn lemma_source_index(row: int, column: int, width: int, height: int)
    requires
        0 <= row < height,
        0 <= column < width,
    ensures
        0 <= row * width + column < width * height,
        row * width <= width * height,
{
    assert(0 <= row * width + column < width * height && row * width <= width * height)
        by (nonlinear_arith)
        requires
            0 <= row < height,
            0 <= column < width,
    ;
}

/// At its own size nothing is stretched: each covered framebuffer pixel
/// takes the sprite pixel at the same offset from the corner, so
/// `draw_into` and `draw_into_scaled` with the sprite's size agree.
pub proof fn lemma_unscaled_placement(
    old: Seq<u32>,
    framebuffer_width: int,
    x: int,
    y: int,
    source: Seq<u32>,
    source_width: int,
    source_height: int,
)
    requires
        framebuffer_width > 0,
        source_width > 0,
        source_height > 0,
    ensures
        placed(old, framebuffer_width, x, y, source_width, source_height, source, source_width,
            source_height) == Seq::new(
            old.len(),
            |i: int|
                if covers(
                    framebuffer_width,
                    old.len() as int / framebuffer_width,
                    x,
                    y,
                    source_width,
                    source_height,
                    i,
                ) {
                    source[(i / framebuffer_width - y) * source_width + (i % framebuffer_width - x)]
                } else {
                    old[i]
                },
        ),
{
    let placed_seq = placed(old, framebuffer_width, x, y, source_width, source_height, source,
        source_width, source_height);
    assert forall|i: int| 0 <= i < old.len() implies placed_seq[i] == (if covers(
        framebuffer_width,
        old.len() as int / framebuffer_width,
        x,
        y,
        source_width,
        source_height,
        i,
    ) {
        source[(i / framebuffer_width - y) * source_width + (i % framebuffer_width - x)]
    } else {
        old[i]
    }) by {
        if covers(
            framebuffer_width,
            old.len() as int / framebuffer_width,
            x,
            y,
            source_width,
            source_height,
            i,
        ) {
            let row = i / framebuffer_width - y;
            let column = i % framebuffer_width - x;
            vstd::arithmetic::div_mod::lemma_div_by_multiple(row, source_height);
            vstd::arithmetic::div_mod::lemma_div_by_multiple(column, source_width);
        }
    }
    assert(placed_seq =~= Seq::new(
        old.len(),
        |i: int|
            if covers(
                framebuffer_width,
                old.len() as int / framebuffer_width,
                x,
                y,
                source_width,
                source_height,
                i,
            ) {
                source[(i / framebuffer_width - y) * source_width + (i % framebuffer_width - x)]
            } else {
                old[i]
            },
    ));
}

impl Clone for Sprite {
    fn clone(&self) -> (copy: Self)
        ensures
            copy.width_spec() == self.width_spec(),
            copy.height_spec() == self.height_spec(),
            copy.pixels_spec() == self.pixels_spec(),
    {
        proof {
            use_type_invariant(self);
        }
        let pixels = self.pixels.clone();
        proof {
            assert(pixels@ =~= self.pixels@);
        }
        Sprite { width: self.width, height: self.height, pixels }
    }
}

impl Sprite {
    #[verifier::type_invariant]
    pub closed spec fn well_formed(self) -> bool {
        &&& self.width > 0
        &&& self.height > 0
        &&& self.pixels@.len() == self.width * self.height
    }

    pub closed spec fn width_spec(&self) -> nat {
        self.width as nat
    }

    pub closed spec fn height_spec(&self) -> nat {
        self.height as nat
    }

    /// The pixels, row by row.
    pub closed spec fn pixels_spec(&self) -> Seq<u32> {
        self.pixels@
    }

    /// The pixel in column `x` of row `y`: rows are stored one after the
    /// other, each `width` pixels long.
    pub open spec fn pixel_at(&self, x: int, y: int) -> u32 {
        self.pixels_spec()[y * self.width_spec() + x]
    }

    /// Every position of a sprite holds a pixel of its buffer, and every
    /// pixel of the buffer is at exactly one position.
    pub proof fn lemma_pixels_are_row_major(&self, x: int, y: int, i: int)
        requires
            self.well_formed(),
        ensures
            0 <= x < self.width_spec() && 0 <= y < self.height_spec() ==> 0 <= y * self.width_spec()
                + x < self.pixels_spec().len(),
            0 <= i < self.pixels_spec().len() ==> {
                &&& 0 <= i % (self.width_spec() as int) < self.width_spec()
                &&& 0 <= i / (self.width_spec() as int) < self.height_spec()
                &&& self.pixel_at(i % (self.width_spec() as int), i / (self.width_spec() as int))
                    == self.pixels_spec()[i]
            },
    {
        let w = self.width_spec() as int;
        let h = self.height_spec() as int;
        if 0 <= x < w && 0 <= y < h {
            assert(0 <= y * w + x < w * h) by (nonlinear_arith)
                requires
                    0 <= x < w,
                    0 <= y < h,
            ;
        }
        if 0 <= i < self.pixels_spec().len() {
            lemma_row_major_split(w, i);
            assert(i / w < h) by (nonlinear_arith)
                requires
                    0 <= i < w * h,
                    i == (i / w) * w + i % w,
                    0 <= i % w,
                    w > 0,
            ;
            assert((i / w) * w + i % w == i);
        }
    }

    /// Every sprite has a size and a pixel for each position.
    pub proof fn lemma_well_formed(&self)
        requires
            self.well_formed(),
        ensures
            self.width_spec() > 0,
            self.height_spec() > 0,
            self.pixels_spec().len() == self.width_spec() * self.height_spec(),
    {
    }

    /// Creates a sprite from a row-major pixel buffer.
    pub fn from_pixels(width: usize, height: usize, pixels: Vec<u32>) -> (sprite: Self)
        requires
            width > 0 && height > 0,
            pixels@.len() == width * height,
        ensures
            sprite.width_spec() == width,
            sprite.height_spec() == height,
            sprite.pixels_spec() == pixels@,
            forall|x: int, y: int|
                0 <= x < width && 0 <= y < height ==> #[trigger] sprite.pixel_at(x, y) == pixels@[y
                    * width + x],
    {
        Self { width, height, pixels }
    }

    /// Creates a solid-color sprite.
    pub fn solid(width: usize, height: usize, color: u32) -> (sprite: Self)
        requires
            width > 0 && height > 0,
            width * height <= usize::MAX,
        ensures
            sprite.width_spec() == width,
            sprite.height_spec() == height,
            sprite.pixels_spec() == Seq::new((width * height) as nat, |i: int| color),
    {
        let pixels = vec![color; width * height];
        proof {
            assert(pixels@ =~= Seq::new((width * height) as nat, |i: int| color));
        }
        Self::from_pixels(width, height, pixels)
    }

    pub fn width(&self) -> (width: usize)
        ensures
            width == self.width_spec(),
    {
        self.width
    }

    pub fn height(&self) -> (height: usize)
        ensures
            height == self.height_spec(),
    {
        self.height
    }

    pub fn pixels(&self) -> (pixels: &[u32])
        ensures
            pixels@ == self.pixels_spec(),
    {
        self.pixels.as_slice()
    }
    /// Copies the sprite into a framebuffer, clipping pixels outside its bounds.
    pub fn draw_into(&self, framebuffer: &mut [u32], framebuffer_width: usize, x: isize, y: isize)
        requires
            framebuffer_width > 0,
            self.width_spec() <= isize::MAX,
            self.height_spec() <= isize::MAX,
            x + self.width_spec() <= isize::MAX + 1,
            y + self.height_spec() <= isize::MAX + 1,
        ensures
            final(framebuffer)@ == placed(
                old(framebuffer)@,
                framebuffer_width as int,
                x as int,
                y as int,
                self.width_spec() as int,
                self.height_spec() as int,
                self.pixels_spec(),
                self.width_spec() as int,
                self.height_spec() as int,
            ),
    {
        proof {
            use_type_invariant(self);
        }
        let ghost original = framebuffer@;
        let ghost fbw = framebuffer_width as int;
        let ghost sw = self.width as int;
        let ghost sh = self.height as int;
        let framebuffer_height = framebuffer.len() / framebuffer_width;
        let pixel_count = self.pixels.len();
        let framebuffer_length = framebuffer.len();
        let mut sprite_y: usize = 0;
        while sprite_y < self.height
            invariant
                self.well_formed(),
                pixel_count == self.pixels@.len(),
                framebuffer_length == original.len(),
                framebuffer_width > 0,
                fbw == framebuffer_width,
                sw == self.width,
                sh == self.height,
                framebuffer_height == original.len() as int / fbw,
                framebuffer@.len() == original.len(),
                self.width <= isize::MAX,
                self.height <= isize::MAX,
                x + self.width <= isize::MAX + 1,
                y + self.height <= isize::MAX + 1,
                sprite_y <= self.height,
                framebuffer@ == placed_prefix(original, fbw, x as int, y as int, sw, sh,
                    self.pixels@, sw, sh, sprite_y as int, 0),
            decreases self.height - sprite_y,
        {
            let mut sprite_x: usize = 0;
            while sprite_x < self.width
                invariant
                    self.well_formed(),
                    pixel_count == self.pixels@.len(),
                framebuffer_length == original.len(),
                    framebuffer_width > 0,
                    fbw == framebuffer_width,
                    sw == self.width,
                    sh == self.height,
                    framebuffer_height == original.len() as int / fbw,
                    framebuffer@.len() == original.len(),
                    self.width <= isize::MAX,
                    self.height <= isize::MAX,
                    x + self.width <= isize::MAX + 1,
                    y + self.height <= isize::MAX + 1,
                    sprite_y < self.height,
                    sprite_x <= self.width,
                    framebuffer@ == placed_prefix(original, fbw, x as int, y as int, sw, sh,
                        self.pixels@, sw, sh, sprite_y as int, sprite_x as int),
                decreases self.width - sprite_x,
            {
                let ghost before = framebuffer@;
                let target_x = x + sprite_x as isize;
                let target_y = y + sprite_y as isize;
                proof {
                    vstd::arithmetic::div_mod::lemma_div_by_multiple(sprite_y as int, sh);
                    vstd::arithmetic::div_mod::lemma_div_by_multiple(sprite_x as int, sw);
                    lemma_source_index(sprite_y as int, sprite_x as int, sw, sh);
                }
                if target_x >= 0 && target_y >= 0 && (target_x as usize) < framebuffer_width
                    && (target_y as usize) < framebuffer_height {
                    proof {
                        lemma_inside(original.len() as int, fbw, target_y as int, target_x as int);
                    }
                    let source = sprite_y * self.width + sprite_x;
                    let target = target_y as usize * framebuffer_width + target_x as usize;
                    framebuffer[target] = self.pixels[source];
                }
                proof {
                    lemma_prefix_step(before, framebuffer@, original, fbw, x as int, y as int, sw,
                        sh, self.pixels@, sw, sh, sprite_y as int, sprite_x as int);
                }
                sprite_x = sprite_x + 1;
            }
            proof {
                lemma_prefix_row(original, fbw, x as int, y as int, sw, sh, self.pixels@, sw, sh,
                    sprite_y as int);
            }
            sprite_y = sprite_y + 1;
        }
        proof {
            lemma_prefix_row(original, fbw, x as int, y as int, sw, sh, self.pixels@, sw, sh,
                sprite_y as int);
        }
    }

    /// Stretches the sprite over a `width` by `height` rectangle of the
    /// framebuffer, sampling the nearest source pixel and clipping pixels
    /// outside the framebuffer.
    pub fn draw_into_scaled(
        &self,
        framebuffer: &mut [u32],
        framebuffer_width: usize,
        x: isize,
        y: isize,
        width: usize,
        height: usize,
    )
        requires
            framebuffer_width > 0,
            width <= isize::MAX,
            height <= isize::MAX,
            x + width <= isize::MAX + 1,
            y + height <= isize::MAX + 1,
            (width - 1) * self.width_spec() <= usize::MAX,
            (height - 1) * self.height_spec() <= usize::MAX,
        ensures
            final(framebuffer)@ == placed(
                old(framebuffer)@,
                framebuffer_width as int,
                x as int,
                y as int,
                width as int,
                height as int,
                self.pixels_spec(),
                self.width_spec() as int,
                self.height_spec() as int,
            ),
    {
        proof {
            use_type_invariant(self);
        }
        let ghost original = framebuffer@;
        let ghost fbw = framebuffer_width as int;
        let ghost sw = self.width as int;
        let ghost sh = self.height as int;
        let framebuffer_height = framebuffer.len() / framebuffer_width;
        let pixel_count = self.pixels.len();
        let framebuffer_length = framebuffer.len();
        let mut target_y: usize = 0;
        while target_y < height
            invariant
                self.well_formed(),
                pixel_count == self.pixels@.len(),
                framebuffer_length == original.len(),
                framebuffer_width > 0,
                fbw == framebuffer_width,
                sw == self.width,
                sh == self.height,
                framebuffer_height == original.len() as int / fbw,
                framebuffer@.len() == original.len(),
                width <= isize::MAX,
                height <= isize::MAX,
                x + width <= isize::MAX + 1,
                y + height <= isize::MAX + 1,
                (width - 1) * self.width <= usize::MAX,
                (height - 1) * self.height <= usize::MAX,
                target_y <= height,
                framebuffer@ == placed_prefix(original, fbw, x as int, y as int, width as int,
                    height as int, self.pixels@, sw, sh, target_y as int, 0),
            decreases height - target_y,
        {
            let mut target_x: usize = 0;
            while target_x < width
                invariant
                    self.well_formed(),
                    pixel_count == self.pixels@.len(),
                framebuffer_length == original.len(),
                    framebuffer_width > 0,
                    fbw == framebuffer_width,
                    sw == self.width,
                    sh == self.height,
                    framebuffer_height == original.len() as int / fbw,
                    framebuffer@.len() == original.len(),
                    width <= isize::MAX,
                    height <= isize::MAX,
                    x + width <= isize::MAX + 1,
                    y + height <= isize::MAX + 1,
                    (width - 1) * self.width <= usize::MAX,
                    (height - 1) * self.height <= usize::MAX,
                    target_y < height,
                    target_x <= width,
                    framebuffer@ == placed_prefix(original, fbw, x as int, y as int, width as int,
                        height as int, self.pixels@, sw, sh, target_y as int, target_x as int),
                decreases width - target_x,
            {
                let ghost before = framebuffer@;
                let destination_x = x + target_x as isize;
                let destination_y = y + target_y as isize;
                if destination_x >= 0 && destination_y >= 0 && (destination_x as usize)
                    < framebuffer_width && (destination_y as usize) < framebuffer_height {
                    proof {
                        assert(target_x * self.width <= (width - 1) * self.width) by (nonlinear_arith)
                            requires
                                target_x < width,
                        ;
                        assert(target_y * self.height <= (height - 1) * self.height) by (nonlinear_arith)
                            requires
                                target_y < height,
                        ;
                        lemma_scaled_source_bound(target_x as int, sw, width as int);
                        lemma_scaled_source_bound(target_y as int, sh, height as int);
                        lemma_source_index(
                            scaled_source(target_y as int, sh, height as int),
                            scaled_source(target_x as int, sw, width as int),
                            sw,
                            sh,
                        );
                        lemma_inside(
                            original.len() as int,
                            fbw,
                            destination_y as int,
                            destination_x as int,
                        );
                    }
                    let source_x = target_x * self.width / width;
                    let source_y = target_y * self.height / height;
                    let source = source_y * self.width + source_x;
                    let destination = destination_y as usize * framebuffer_width
                        + destination_x as usize;
                    framebuffer[destination] = self.pixels[source];
                }
                proof {
                    lemma_prefix_step(before, framebuffer@, original, fbw, x as int, y as int,
                        width as int, height as int, self.pixels@, sw, sh, target_y as int,
                        target_x as int);
                }
                target_x = target_x + 1;
            }
            proof {
                lemma_prefix_row(original, fbw, x as int, y as int, width as int, height as int,
                    self.pixels@, sw, sh, target_y as int);
            }
            target_y = target_y + 1;
        }
        proof {
            lemma_prefix_row(original, fbw, x as int, y as int, width as int, height as int,
                self.pixels@, sw, sh, target_y as int);
        }
    }
}

} // verus!

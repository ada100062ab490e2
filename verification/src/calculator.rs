//! Mandelbrot escape-time calculators.
use crate::fixed::{
    fixed_fits, fixed_from_integer, fixed_product, magnitude_of, signed, Fixed, MAX_LIMBS,
};
use crate::limbs::{fraction_scale, lemma_radix_is_pow2, radix};
use vstd::arithmetic::div_mod::{lemma_fundamental_div_mod, lemma_small_mod};
use vstd::arithmetic::power2::{lemma2_to64, lemma_pow2_adds, lemma_pow2_strictly_increases, pow2};
use vstd::prelude::*;

verus! {

/// CPU Mandelbrot calculator; its `f64` iteration lives with the native front end.
pub struct Mandelbrot {
    max_iterations: u32,
}

/// CPU Mandelbrot calculator using a signed fixed-point coordinate type.
pub struct MandelbrotFixed<const N: usize> {
    max_iterations: u32,
}

/// `4` as a fixed-point value with `n` limbs: the squared escape radius.
pub open spec fn escape_radius_squared(n: nat) -> int {
    fixed_from_integer(4, n)
}

/// The real part of `z * z + c`, as the fixed-point recurrence computes it.
pub open spec fn next_real(n: nat, c_real: int, z_real: int, z_imaginary: int) -> int {
    (fixed_product(z_real, z_real, n) - fixed_product(z_imaginary, z_imaginary, n)) + c_real
}

/// The imaginary part of `z * z + c`, as the fixed-point recurrence computes it.
pub open spec fn next_imaginary(n: nat, c_imaginary: int, z_real: int, z_imaginary: int) -> int {
    fixed_product(fixed_product(z_real, z_imaginary, n), fixed_from_integer(2, n), n)
        + c_imaginary
}

/// `|z|^2` as the fixed-point recurrence computes it.
pub open spec fn magnitude_squared(n: nat, z_real: int, z_imaginary: int) -> int {
    fixed_product(z_real, z_real, n) + fixed_product(z_imaginary, z_imaginary, n)
}

/// The iteration at which the orbit of `c`, continued from `z` at `iteration`,
/// first has `|z|^2 > 4`, or `limit` if it never does before `limit`.
pub open spec fn escape_count(
    n: nat,
    c_real: int,
    c_imaginary: int,
    z_real: int,
    z_imaginary: int,
    iteration: nat,
    limit: nat,
) -> nat
    decreases limit - iteration,
{
    if iteration >= limit {
        limit
    } else if magnitude_squared(n, z_real, z_imaginary) > escape_radius_squared(n) {
        iteration
    } else {
        escape_count(
            n,
            c_real,
            c_imaginary,
            next_real(n, c_real, z_real, z_imaginary),
            next_imaginary(n, c_imaginary, z_real, z_imaginary),
            iteration + 1,
            limit,
        )
    }
}

/// Whether every sum and difference of the orbit fits in `n` limbs, so that
/// the fixed-point recurrence can be carried out up to its escape or `limit`.
pub open spec fn escape_representable(
    n: nat,
    c_real: int,
    c_imaginary: int,
    z_real: int,
    z_imaginary: int,
    iteration: nat,
    limit: nat,
) -> bool
    decreases limit - iteration,
{
    if iteration >= limit {
        true
    } else {
        let rr = fixed_product(z_real, z_real, n);
        let ii = fixed_product(z_imaginary, z_imaginary, n);
        &&& fixed_fits(rr + ii, n)
        &&& rr + ii > escape_radius_squared(n) || {
            &&& fixed_fits(rr - ii, n)
            &&& fixed_fits(next_real(n, c_real, z_real, z_imaginary), n)
            &&& fixed_fits(next_imaginary(n, c_imaginary, z_real, z_imaginary), n)
            &&& escape_representable(
                n,
                c_real,
                c_imaginary,
                next_real(n, c_real, z_real, z_imaginary),
                next_imaginary(n, c_imaginary, z_real, z_imaginary),
                iteration + 1,
                limit,
            )
        }
    }
}

/// Whether `value` lies strictly above `bound`.
fn exceeds<const N: usize>(value: Fixed<N>, bound: Fixed<N>) -> (above: bool)
    ensures
        above == (value@ > bound@),
{
    match value.compare(bound) {
        core::cmp::Ordering::Greater => true,
        core::cmp::Ordering::Equal => false,
        core::cmp::Ordering::Less => false,
    }
}

impl<const N: usize> MandelbrotFixed<N> {
    /// The iteration limit.
    pub closed spec fn limit(&self) -> nat {
        self.max_iterations as nat
    }

    /// A calculator that stops after `max_iterations` iterations.
    pub fn new(max_iterations: u32) -> (calculator: Self)
        requires
            max_iterations > 0,
        ensures
            calculator.limit() == max_iterations,
    {
        Self { max_iterations }
    }

    /// Returns the iteration at which `c` escapes, or the limit if it does not.
    pub fn escape_iterations(&self, real_part: Fixed<N>, imaginary: Fixed<N>) -> (iterations: u32)
        requires
            escape_representable(N as nat, real_part@, imaginary@, 0, 0, 0, self.limit()),
        ensures
            iterations == escape_count(N as nat, real_part@, imaginary@, 0, 0, 0, self.limit()),
    {
        proof {
            use_type_invariant(real_part);
            real_part.lemma_well_formed();
        }
        let zero: Fixed<N> = Fixed::zero();
        let radius_squared: Fixed<N> = Fixed::from_i64(4);
        let two: Fixed<N> = Fixed::from_i64(2);
        let mut z_real = zero;
        let mut z_imaginary = zero;
        let ghost n = N as nat;
        let ghost limit = self.limit();
        let mut iteration: u32 = 0;
        while iteration < self.max_iterations
            invariant
                0 < N <= MAX_LIMBS,
                limit == self.limit(),
                iteration <= limit,
                radius_squared@ == escape_radius_squared(n),
                two@ == fixed_from_integer(2, n),
                n == N,
                escape_representable(n, real_part@, imaginary@, z_real@, z_imaginary@, iteration as nat, limit),
                escape_count(n, real_part@, imaginary@, z_real@, z_imaginary@, iteration as nat, limit)
                    == escape_count(n, real_part@, imaginary@, 0, 0, 0, limit),
            decreases self.max_iterations - iteration,
        {
            let magnitude_squared = z_real.square().add(z_imaginary.square());
            if exceeds(magnitude_squared, radius_squared) {
                return iteration;
            }
            let next_real = z_real.square().sub(z_imaginary.square()).add(real_part);
            z_imaginary = z_real.mul(z_imaginary).mul(two).add(imaginary);
            z_real = next_real;
            iteration = iteration + 1;
        }
        self.max_iterations
    }
}

/// The centre column (or row) of a tile `size` pixels wide: `(size - 1) / 2`.
pub open spec fn tile_center(size: nat) -> int {
    (size as int - 1) / 2
}

/// The fixed-point offset of pixel `index` from the tile centre, in pixels.
pub open spec fn pixel_offset(n: nat, index: int, size: nat) -> int {
    fixed_from_integer((index as i64) as int, n) - fixed_from_integer(tile_center(size), n)
}

/// The real coordinate of column `x`: columns grow to the right.
pub open spec fn pixel_real(n: nat, center_real: int, delta: int, x: int, width: nat) -> int {
    center_real + fixed_product(delta, pixel_offset(n, x, width), n)
}

/// The imaginary coordinate of row `y`: rows grow downwards.
pub open spec fn pixel_imaginary(
    n: nat,
    center_imaginary: int,
    delta: int,
    y: int,
    height: nat,
) -> int {
    center_imaginary + fixed_product(delta, -pixel_offset(n, y, height), n)
}

/// Whether the coordinates of pixel `(x, y)` and its orbit fit in `n` limbs.
pub open spec fn pixel_representable(
    n: nat,
    center_real: int,
    center_imaginary: int,
    delta: int,
    x: int,
    y: int,
    width: nat,
    height: nat,
    limit: nat,
) -> bool {
    &&& fixed_fits(pixel_offset(n, x, width), n)
    &&& fixed_fits(-pixel_offset(n, y, height), n)
    &&& fixed_fits(pixel_real(n, center_real, delta, x, width), n)
    &&& fixed_fits(pixel_imaginary(n, center_imaginary, delta, y, height), n)
    &&& escape_representable(
        n,
        pixel_real(n, center_real, delta, x, width),
        pixel_imaginary(n, center_imaginary, delta, y, height),
        0,
        0,
        0,
        limit,
    )
}

/// The escape count of pixel `(x, y)` of a tile.
pub open spec fn pixel_iterations(
    n: nat,
    center_real: int,
    center_imaginary: int,
    delta: int,
    x: int,
    y: int,
    width: nat,
    height: nat,
    limit: nat,
) -> nat {
    escape_count(
        n,
        pixel_real(n, center_real, delta, x, width),
        pixel_imaginary(n, center_imaginary, delta, y, height),
        0,
        0,
        0,
        limit,
    )
}

impl<const N: usize> MandelbrotFixed<N> {
    /// Calculates every pixel in a centered row-major tile using fixed-point
    /// coordinate arithmetic throughout the traversal.
    pub fn render_tile(
        &self,
        center_real: Fixed<N>,
        center_imaginary: Fixed<N>,
        delta: Fixed<N>,
        width: usize,
        height: usize,
    ) -> (iterations: Vec<u32>)
        requires
            width > 0,
            height > 0,
            width * height <= usize::MAX,
            forall|x: int, y: int|
                0 <= x < width && 0 <= y < height ==> #[trigger] pixel_representable(
                    N as nat,
                    center_real@,
                    center_imaginary@,
                    delta@,
                    x,
                    y,
                    width as nat,
                    height as nat,
                    self.limit(),
                ),
        ensures
            iterations@.len() == width * height,
            forall|i: int|
                0 <= i < width * height ==> #[trigger] iterations@[i] == pixel_iterations(
                    N as nat,
                    center_real@,
                    center_imaginary@,
                    delta@,
                    i % width as int,
                    i / width as int,
                    width as nat,
                    height as nat,
                    self.limit(),
                ),
    {
        proof {
            use_type_invariant(delta);
            delta.lemma_well_formed();
        }
        let ghost n = N as nat;
        let center_x: Fixed<N> = Fixed::from_i64((width.saturating_sub(1) / 2) as i64);
        let center_y: Fixed<N> = Fixed::from_i64((height.saturating_sub(1) / 2) as i64);
        let mut iterations: Vec<u32> = Vec::with_capacity(width * height);
        let mut y: usize = 0;
        while y < height
            invariant
                0 < N <= MAX_LIMBS,
                n == N,
                0 <= y <= height,
                width > 0,
                width * height <= usize::MAX,
                center_x@ == fixed_from_integer(tile_center(width as nat), n),
                center_y@ == fixed_from_integer(tile_center(height as nat), n),
                iterations@.len() == y * width,
                forall|x: int, y: int|
                    0 <= x < width && 0 <= y < height ==> #[trigger] pixel_representable(
                        n,
                        center_real@,
                        center_imaginary@,
                        delta@,
                        x,
                        y,
                        width as nat,
                        height as nat,
                        self.limit(),
                    ),
                forall|i: int|
                    0 <= i < iterations@.len() ==> #[trigger] iterations@[i] == pixel_iterations(
                        n,
                        center_real@,
                        center_imaginary@,
                        delta@,
                        i % width as int,
                        i / width as int,
                        width as nat,
                        height as nat,
                        self.limit(),
                    ),
            decreases height - y,
        {
            let mut x: usize = 0;
            proof {
                assert((y + 1) * width <= width * height) by (nonlinear_arith)
                    requires
                        y + 1 <= height,
                ;
            }
            while x < width
                invariant
                    0 < N <= MAX_LIMBS,
                    n == N,
                    0 <= y < height,
                    0 <= x <= width,
                    (y + 1) * width <= usize::MAX,
                    center_x@ == fixed_from_integer(tile_center(width as nat), n),
                    center_y@ == fixed_from_integer(tile_center(height as nat), n),
                    iterations@.len() == y * width + x,
                    forall|x: int, y: int|
                        0 <= x < width && 0 <= y < height ==> #[trigger] pixel_representable(
                            n,
                            center_real@,
                            center_imaginary@,
                            delta@,
                            x,
                            y,
                            width as nat,
                            height as nat,
                            self.limit(),
                        ),
                    forall|i: int|
                        0 <= i < iterations@.len() ==> #[trigger] iterations@[i]
                            == pixel_iterations(
                            n,
                            center_real@,
                            center_imaginary@,
                            delta@,
                            i % width as int,
                            i / width as int,
                            width as nat,
                            height as nat,
                            self.limit(),
                        ),
                decreases width - x,
            {
                proof {
                    assert(pixel_representable(
                        n,
                        center_real@,
                        center_imaginary@,
                        delta@,
                        x as int,
                        y as int,
                        width as nat,
                        height as nat,
                        self.limit(),
                    ));
                }
                let x_offset = Fixed::from_i64(x as i64).sub(center_x);
                let y_offset = center_y.sub(Fixed::from_i64(y as i64));
                let real_part = center_real.add(delta.mul(x_offset));
                let imaginary = center_imaginary.add(delta.mul(y_offset));
                let value = self.escape_iterations(real_part, imaginary);
                proof {
                    let i = (y * width + x) as int;
                    vstd::arithmetic::div_mod::lemma_fundamental_div_mod_converse(
                        i,
                        width as int,
                        y as int,
                        x as int,
                    );
                }
                iterations.push(value);
                x = x + 1;
            }
            proof {
                assert((y + 1) * width == y * width + width) by (nonlinear_arith);
            }
            y = y + 1;
        }
        proof {
            assert(height * width == width * height) by (nonlinear_arith);
        }
        iterations
    }
}

impl Mandelbrot {
    /// The iteration limit.
    pub closed spec fn limit(&self) -> nat {
        self.max_iterations as nat
    }

    /// A calculator that stops after `max_iterations` iterations.
    pub fn new(max_iterations: u32) -> (calculator: Self)
        requires
            max_iterations > 0,
        ensures
            calculator.limit() == max_iterations,
    {
        Self { max_iterations }
    }

    /// The iteration limit.
    pub fn max_iterations(&self) -> (max_iterations: u32)
        ensures
            max_iterations == self.limit(),
    {
        self.max_iterations
    }
}

/// The real coordinate of column `x` of a tile anchored at its top-left
/// sample `origin_real`: columns grow along the real axis.
pub open spec fn sample_real(n: nat, origin_real: int, delta: int, x: int) -> int {
    origin_real + fixed_product(delta, fixed_from_integer(x, n), n)
}

/// The imaginary coordinate of row `y` of a tile anchored at its top-left
/// sample `origin_imaginary`: rows grow down the imaginary axis.
pub open spec fn sample_imaginary(n: nat, origin_imaginary: int, delta: int, y: int) -> int {
    origin_imaginary - fixed_product(delta, fixed_from_integer(y, n), n)
}

/// Whether sample `(x, y)` of an anchored tile and its orbit fit in `n` limbs.
pub open spec fn sample_representable(
    n: nat,
    origin_real: int,
    origin_imaginary: int,
    delta: int,
    x: int,
    y: int,
    limit: nat,
) -> bool {
    &&& fixed_fits(sample_real(n, origin_real, delta, x), n)
    &&& fixed_fits(sample_imaginary(n, origin_imaginary, delta, y), n)
    &&& escape_representable(
        n,
        sample_real(n, origin_real, delta, x),
        sample_imaginary(n, origin_imaginary, delta, y),
        0,
        0,
        0,
        limit,
    )
}

/// The escape count of sample `(x, y)` of an anchored tile.
pub open spec fn sample_iterations(
    n: nat,
    origin_real: int,
    origin_imaginary: int,
    delta: int,
    x: int,
    y: int,
    limit: nat,
) -> nat {
    escape_count(
        n,
        sample_real(n, origin_real, delta, x),
        sample_imaginary(n, origin_imaginary, delta, y),
        0,
        0,
        0,
        limit,
    )
}

/// Calculates, row-major, the escape counts of a `width` by `height` tile
/// whose top-left sample is `(origin_real, origin_imaginary)` and whose
/// samples lie `delta` apart, in `N`-limb fixed point throughout: the work a
/// tile worker does for a fixed-precision render plan.
pub fn calculate_fixed_tile<const N: usize>(
    max_iterations: u32,
    origin_real: Fixed<N>,
    origin_imaginary: Fixed<N>,
    delta: Fixed<N>,
    width: u32,
    height: u32,
) -> (iterations: Vec<u64>)
    requires
        max_iterations > 0,
        width * height <= usize::MAX,
        forall|x: int, y: int|
            0 <= x < width && 0 <= y < height ==> #[trigger] sample_representable(
                N as nat,
                origin_real@,
                origin_imaginary@,
                delta@,
                x,
                y,
                max_iterations as nat,
            ),
    ensures
        iterations@.len() == width * height,
        forall|i: int|
            0 <= i < width * height ==> #[trigger] iterations@[i] == sample_iterations(
                N as nat,
                origin_real@,
                origin_imaginary@,
                delta@,
                i % width as int,
                i / width as int,
                max_iterations as nat,
            ),
{
    proof {
        use_type_invariant(delta);
        delta.lemma_well_formed();
    }
    let ghost n = N as nat;
    let fractal: MandelbrotFixed<N> = MandelbrotFixed::new(max_iterations);
    let ghost limit = max_iterations as nat;
    let mut iterations: Vec<u64> = Vec::new();
    let mut y: u32 = 0;
    while y < height
        invariant
            0 < N <= MAX_LIMBS,
            n == N,
            0 <= y <= height,
            width * height <= usize::MAX,
            fractal.limit() == limit,
            iterations@.len() == y * width,
            forall|x: int, y: int|
                0 <= x < width && 0 <= y < height ==> #[trigger] sample_representable(
                    n,
                    origin_real@,
                    origin_imaginary@,
                    delta@,
                    x,
                    y,
                    limit,
                ),
            forall|i: int|
                0 <= i < iterations@.len() ==> #[trigger] iterations@[i] == sample_iterations(
                    n,
                    origin_real@,
                    origin_imaginary@,
                    delta@,
                    i % width as int,
                    i / width as int,
                    limit,
                ),
        decreases height - y,
    {
        let mut x: u32 = 0;
        proof {
            assert((y + 1) * width <= width * height) by (nonlinear_arith)
                requires
                    y + 1 <= height,
            ;
        }
        while x < width
            invariant
                0 < N <= MAX_LIMBS,
                n == N,
                0 <= y < height,
                0 <= x <= width,
                (y + 1) * width <= usize::MAX,
                fractal.limit() == limit,
                iterations@.len() == y * width + x,
                forall|x: int, y: int|
                    0 <= x < width && 0 <= y < height ==> #[trigger] sample_representable(
                        n,
                        origin_real@,
                        origin_imaginary@,
                        delta@,
                        x,
                        y,
                        limit,
                    ),
                forall|i: int|
                    0 <= i < iterations@.len() ==> #[trigger] iterations@[i] == sample_iterations(
                        n,
                        origin_real@,
                        origin_imaginary@,
                        delta@,
                        i % width as int,
                        i / width as int,
                        limit,
                    ),
            decreases width - x,
        {
            proof {
                assert(sample_representable(
                    n,
                    origin_real@,
                    origin_imaginary@,
                    delta@,
                    x as int,
                    y as int,
                    limit,
                ));
            }
            let real_part = origin_real.add(delta.mul(Fixed::from_i64(x as i64)));
            let imaginary = origin_imaginary.sub(delta.mul(Fixed::from_i64(y as i64)));
            let value = fractal.escape_iterations(real_part, imaginary);
            proof {
                let i = (y * width + x) as int;
                vstd::arithmetic::div_mod::lemma_fundamental_div_mod_converse(
                    i,
                    width as int,
                    y as int,
                    x as int,
                );
            }
            iterations.push(value as u64);
            x = x + 1;
        }
        proof {
            assert((y + 1) * width == y * width + width) by (nonlinear_arith);
        }
        y = y + 1;
    }
    proof {
        assert(height * width == width * height) by (nonlinear_arith);
    }
    iterations
}

/// With at least one limb the scale is at least 2^32 and the radix is the
/// scale squared.
proof fn lemma_scale_facts(n: nat)
    requires
        n >= 1,
    ensures
        fraction_scale(n) >= 0x1_0000_0000,
        radix(n) == fraction_scale(n) * fraction_scale(n),
{
    lemma_radix_is_pow2(n);
    lemma_pow2_adds(32 * n, 32 * n);
    assert(32 * n + 32 * n == 64 * n);
    lemma2_to64();
    if n > 1 {
        lemma_pow2_strictly_increases(32, 32 * n);
    }
}

/// A fixed-point product that does not wrap is the exact product of the
/// magnitudes scaled back, with the sign of the product.
proof fn lemma_product_exact(a: int, b: int, n: nat)
    requires
        n >= 1,
        magnitude_of(a) * magnitude_of(b) < fraction_scale(n) * radix(n),
    ensures
        magnitude_of(a) * magnitude_of(b) / fraction_scale(n) < radix(n),
        fixed_product(a, b, n) == signed(
            (a < 0) != (b < 0),
            magnitude_of(a) * magnitude_of(b) / fraction_scale(n),
        ),
{
    let s = fraction_scale(n) as int;
    let p = (magnitude_of(a) * magnitude_of(b)) as int;
    lemma_scale_facts(n);
    lemma_fundamental_div_mod(p, s);
    assert(p / s < radix(n)) by (nonlinear_arith)
        requires
            p == s * (p / s) + p % s,
            p % s >= 0,
            p < s * radix(n),
            s > 0,
    ;
    assert(p / s >= 0) by (nonlinear_arith)
        requires
            p >= 0,
            s > 0,
    ;
    lemma_small_mod((p / s) as nat, radix(n));
}

/// An integer `value` below 2^32 is `value` times the scale in fixed point.
proof fn lemma_small_integer(value: int, n: nat)
    requires
        n >= 1,
        0 <= value < 0x1_0000_0000,
    ensures
        fixed_from_integer(value, n) == value * fraction_scale(n),
{
    let s = fraction_scale(n);
    lemma_scale_facts(n);
    assert(value * s < radix(n)) by (nonlinear_arith)
        requires
            0 <= value < 0x1_0000_0000,
            s >= 0x1_0000_0000,
            radix(n) == s * s,
    ;
    lemma_small_mod((value * s) as nat, radix(n));
}

/// The magnitude of a signed value is its magnitude part.
proof fn lemma_magnitude_of_signed(negative: bool, magnitude: nat)
    ensures
        magnitude_of(signed(negative, magnitude)) == magnitude,
        (signed(negative, magnitude) < 0) ==> negative,
{
}

/// Orbits of points within 2^13 of the origin, started within 2^14 of it,
/// stay representable: before the orbit escapes, `|z|^2 <= 4` keeps every
/// intermediate value within 2^14, far inside `n` limbs.
proof fn lemma_orbit_representable(
    n: nat,
    c_real: int,
    c_imaginary: int,
    z_real: int,
    z_imaginary: int,
    iteration: nat,
    limit: nat,
)
    requires
        n >= 1,
        magnitude_of(c_real) <= 0x2000 * fraction_scale(n),
        magnitude_of(c_imaginary) <= 0x2000 * fraction_scale(n),
        magnitude_of(z_real) <= 0x4000 * fraction_scale(n),
        magnitude_of(z_imaginary) <= 0x4000 * fraction_scale(n),
    ensures
        escape_representable(n, c_real, c_imaginary, z_real, z_imaginary, iteration, limit),
    decreases limit - iteration,
{
    if iteration < limit {
        let s = fraction_scale(n) as int;
        lemma_scale_facts(n);
        let r = radix(n) as int;
        let mr = magnitude_of(z_real) as int;
        let mi = magnitude_of(z_imaginary) as int;
        assert(mr * mr <= 0x1000_0000 * (s * s) && mi * mi <= 0x1000_0000 * (s * s))
            by (nonlinear_arith)
            requires
                0 <= mr <= 0x4000 * s,
                0 <= mi <= 0x4000 * s,
        ;
        assert(0x1000_0000 * (s * s) < s * r) by (nonlinear_arith)
            requires
                s >= 0x1_0000_0000,
                r == s * s,
        ;
        lemma_product_exact(z_real, z_real, n);
        lemma_product_exact(z_imaginary, z_imaginary, n);
        let rr = fixed_product(z_real, z_real, n);
        let ii = fixed_product(z_imaginary, z_imaginary, n);
        assert(rr == (mr * mr) / s && ii == (mi * mi) / s);
        assert(0 <= rr <= 0x1000_0000 * s && 0 <= ii <= 0x1000_0000 * s) by (nonlinear_arith)
            requires
                rr == (mr * mr) / s,
                ii == (mi * mi) / s,
                0 <= mr * mr <= 0x1000_0000 * (s * s),
                0 <= mi * mi <= 0x1000_0000 * (s * s),
                s > 0,
        {
            vstd::arithmetic::div_mod::lemma_div_is_ordered(mr * mr, 0x1000_0000 * (s * s), s);
            vstd::arithmetic::div_mod::lemma_div_is_ordered(mi * mi, 0x1000_0000 * (s * s), s);
            vstd::arithmetic::div_mod::lemma_div_is_ordered(0, mr * mr, s);
            vstd::arithmetic::div_mod::lemma_div_is_ordered(0, mi * mi, s);
            assert(0x1000_0000 * (s * s) == (0x1000_0000 * s) * s) by (nonlinear_arith);
            vstd::arithmetic::div_mod::lemma_div_by_multiple(0x1000_0000 * s, s);
        }
        assert(0x2000_0000 * s < r) by (nonlinear_arith)
            requires
                s >= 0x1_0000_0000,
                r == s * s,
        ;
        lemma_small_integer(4, n);
        if rr + ii <= escape_radius_squared(n) {
            // Before escaping, both squares are at most 4, so each coordinate
            // is at most about 2 and their product at most about 4.
            lemma_fundamental_div_mod(mr * mr, s);
            lemma_fundamental_div_mod(mi * mi, s);
            assert(mr * mi < (4 * s + 1) * s) by (nonlinear_arith)
                requires
                    mr * mr == s * ((mr * mr) / s) + (mr * mr) % s,
                    mi * mi == s * ((mi * mi) / s) + (mi * mi) % s,
                    (mr * mr) % s < s,
                    (mi * mi) % s < s,
                    (mr * mr) / s <= 4 * s,
                    (mi * mi) / s <= 4 * s,
                    mr >= 0,
                    mi >= 0,
                    s > 0,
            ;
            assert(mr * mi < s * r) by (nonlinear_arith)
                requires
                    0 <= mr * mi < (4 * s + 1) * s,
                    s >= 0x1_0000_0000,
                    r == s * s,
            ;
            lemma_product_exact(z_real, z_imaginary, n);
            let p = fixed_product(z_real, z_imaginary, n);
            let mp = magnitude_of(p) as int;
            lemma_magnitude_of_signed((z_real < 0) != (z_imaginary < 0), ((mr * mi) / s) as nat);
            assert(mp <= 4 * s) by (nonlinear_arith)
                requires
                    mp == (mr * mi) / s,
                    0 <= mr * mi < (4 * s + 1) * s,
                    s > 0,
            {
                lemma_fundamental_div_mod(mr * mi, s);
            }
            lemma_small_integer(2, n);
            let two = fixed_from_integer(2, n);
            assert(mp * (2 * s) < s * r) by (nonlinear_arith)
                requires
                    0 <= mp <= 4 * s,
                    s >= 0x1_0000_0000,
                    r == s * s,
            ;
            lemma_product_exact(p, two, n);
            assert(mp * (2 * s) / s == 2 * mp) by {
                assert(mp * (2 * s) == (2 * mp) * s) by (nonlinear_arith);
                vstd::arithmetic::div_mod::lemma_div_by_multiple(2 * mp, s);
            }
            let q = fixed_product(p, two, n);
            lemma_magnitude_of_signed((p < 0) != (two < 0), (2 * mp) as nat);
            assert(magnitude_of(q) <= 8 * s);
            let next_r = next_real(n, c_real, z_real, z_imaginary);
            let next_i = next_imaginary(n, c_imaginary, z_real, z_imaginary);
            assert(magnitude_of(next_r) <= 0x4000 * s);
            assert(magnitude_of(next_i) <= 0x4000 * s);
            lemma_orbit_representable(n, c_real, c_imaginary, next_r, next_i, iteration + 1, limit);
        }
    }
}

/// Whether `value` lies within `bound` of zero.
fn within<const N: usize>(value: Fixed<N>, bound: Fixed<N>) -> (inside: bool)
    ensures
        inside == (-bound@ <= value@ <= bound@),
{
    !exceeds(value, bound) && !exceeds(core::ops::Neg::neg(bound), value)
}

/// The rule of `fixed_tile_fits` over the values the arguments denote with
/// `n` limbs: an empty tile fits; otherwise the top-left sample lies within
/// 4096 of the origin on both axes, the spacing is at most 1, and the spans
/// from the first to the last sample, as fixed-point products, lie within
/// 4096.
pub open spec fn tile_fits(
    n: nat,
    origin_real: int,
    origin_imaginary: int,
    delta: int,
    width: int,
    height: int,
) -> bool {
    let bound = fixed_from_integer(0x1000, n);
    let one = fixed_from_integer(1, n);
    let span_x = fixed_product(delta, fixed_from_integer(width - 1, n), n);
    let span_y = fixed_product(delta, fixed_from_integer(height - 1, n), n);
    width == 0 || height == 0 || {
        &&& -bound <= origin_real <= bound
        &&& -bound <= origin_imaginary <= bound
        &&& -one <= delta <= one
        &&& -bound <= span_x <= bound
        &&& -bound <= span_y <= bound
    }
}

/// Whether a tile is small enough for `calculate_fixed_tile`: its top-left
/// sample lies within 4096 of the origin on both axes, its samples lie at
/// most 1 apart, and its far samples lie within 4096 of the top-left one.
/// Every sample then lies within 8192 of the origin, and every orbit that
/// the calculation follows stays representable in `N` limbs.
pub fn fixed_tile_fits<const N: usize>(
    origin_real: Fixed<N>,
    origin_imaginary: Fixed<N>,
    delta: Fixed<N>,
    width: u32,
    height: u32,
) -> (fits: bool)
    ensures
        fits == tile_fits(
            N as nat,
            origin_real@,
            origin_imaginary@,
            delta@,
            width as int,
            height as int,
        ),
        fits ==> forall|x: int, y: int, limit: nat|
            0 <= x < width && 0 <= y < height ==> #[trigger] sample_representable(
                N as nat,
                origin_real@,
                origin_imaginary@,
                delta@,
                x,
                y,
                limit,
            ),
{
    proof {
        use_type_invariant(delta);
        delta.lemma_well_formed();
    }
    if width == 0 || height == 0 {
        return true;
    }
    let ghost n = N as nat;
    let bound: Fixed<N> = Fixed::from_i64(0x1000);
    let one: Fixed<N> = Fixed::from_i64(1);
    let real_inside = within(origin_real, bound);
    let imaginary_inside = within(origin_imaginary, bound);
    let delta_inside = within(delta, one);
    if !(real_inside && imaginary_inside && delta_inside) {
        return false;
    }
    let span_x = delta.mul(Fixed::from_i64((width - 1) as i64));
    let span_y = delta.mul(Fixed::from_i64((height - 1) as i64));
    let span_x_inside = within(span_x, bound);
    let span_y_inside = within(span_y, bound);
    if !(span_x_inside && span_y_inside) {
        return false;
    }
    proof {
        let s = fraction_scale(n) as int;
        lemma_scale_facts(n);
        let r = radix(n) as int;
        lemma_small_integer(0x1000, n);
        lemma_small_integer(1, n);
        let md = magnitude_of(delta@) as int;
        assert(one@ == fixed_from_integer(1, n));
        assert(fixed_from_integer(1, n) == 1 * fraction_scale(n));
        assert(one@ == s);
        assert(-s <= delta@ <= s);
        assert(bound@ == fixed_from_integer(0x1000, n));
        assert(bound@ == 0x1000 * s);
        let b = bound@;
        assert(span_x@ == fixed_product(delta@, fixed_from_integer((width - 1) as int, n), n));
        assert(span_y@ == fixed_product(delta@, fixed_from_integer((height - 1) as int, n), n));
        assert(-b <= origin_real@ <= b);
        assert(-b <= origin_imaginary@ <= b);
        assert(-b <= span_x@ <= b);
        assert(-b <= span_y@ <= b);
        assert(md <= s);
        lemma_small_integer((width - 1) as int, n);
        lemma_small_integer((height - 1) as int, n);
        assert forall|x: int, y: int, limit: nat|
            0 <= x < width && 0 <= y < height implies #[trigger] sample_representable(
                n,
                origin_real@,
                origin_imaginary@,
                delta@,
                x,
                y,
                limit,
            ) by {
            lemma_small_integer(x, n);
            lemma_small_integer(y, n);
            let last_x = (width - 1) as int;
            let last_y = (height - 1) as int;
            assert(md * (x * s) < s * r && md * (y * s) < s * r && md * (last_x * s) < s * r
                && md * (last_y * s) < s * r) by (nonlinear_arith)
                requires
                    0 <= md <= s,
                    0 <= x < 0x1_0000_0000,
                    0 <= y < 0x1_0000_0000,
                    0 <= last_x < 0x1_0000_0000,
                    0 <= last_y < 0x1_0000_0000,
                    s >= 0x1_0000_0000,
                    r == s * s,
            ;
            lemma_product_exact(delta@, x * s, n);
            lemma_product_exact(delta@, y * s, n);
            lemma_product_exact(delta@, last_x * s, n);
            lemma_product_exact(delta@, last_y * s, n);
            assert(magnitude_of(x * s) == x * s);
            assert(magnitude_of(y * s) == y * s);
            assert(magnitude_of(last_x * s) == last_x * s);
            assert(magnitude_of(last_y * s) == last_y * s);
            assert(md * (x * s) / s == md * x && md * (last_x * s) / s == md * last_x && md * (
            y * s) / s == md * y && md * (last_y * s) / s == md * last_y) by {
                assert(md * (x * s) == (md * x) * s) by (nonlinear_arith);
                assert(md * (y * s) == (md * y) * s) by (nonlinear_arith);
                assert(md * (last_x * s) == (md * last_x) * s) by (nonlinear_arith);
                assert(md * (last_y * s) == (md * last_y) * s) by (nonlinear_arith);
                assert(md * x >= 0 && md * y >= 0 && md * last_x >= 0 && md * last_y >= 0)
                    by (nonlinear_arith)
                    requires
                        md >= 0,
                        x >= 0,
                        y >= 0,
                        last_x >= 0,
                        last_y >= 0,
                ;
                vstd::arithmetic::div_mod::lemma_div_by_multiple(md * x, s);
                vstd::arithmetic::div_mod::lemma_div_by_multiple(md * y, s);
                vstd::arithmetic::div_mod::lemma_div_by_multiple(md * last_x, s);
                vstd::arithmetic::div_mod::lemma_div_by_multiple(md * last_y, s);
            }
            lemma_magnitude_of_signed((delta@ < 0) != (x * s < 0), (md * x) as nat);
            lemma_magnitude_of_signed((delta@ < 0) != (y * s < 0), (md * y) as nat);
            lemma_magnitude_of_signed((delta@ < 0) != (last_x * s < 0), (md * last_x) as nat);
            lemma_magnitude_of_signed((delta@ < 0) != (last_y * s < 0), (md * last_y) as nat);
            assert(md * x <= md * last_x && md * y <= md * last_y) by (nonlinear_arith)
                requires
                    md >= 0,
                    0 <= x <= last_x,
                    0 <= y <= last_y,
            ;
            assert(magnitude_of(fixed_product(delta@, x * s, n)) == md * x);
            assert(magnitude_of(fixed_product(delta@, y * s, n)) == md * y);
            assert(magnitude_of(span_x@) == md * last_x);
            assert(magnitude_of(span_y@) == md * last_y);
            assert(md * last_x <= 0x1000 * s);
            assert(md * last_y <= 0x1000 * s);
            let fx = fixed_product(delta@, fixed_from_integer(x, n), n);
            let fy = fixed_product(delta@, fixed_from_integer(y, n), n);
            assert(fx == fixed_product(delta@, x * s, n));
            assert(fy == fixed_product(delta@, y * s, n));
            assert(-b <= fx <= b);
            assert(-b <= fy <= b);
            let real_part = sample_real(n, origin_real@, delta@, x);
            let imaginary = sample_imaginary(n, origin_imaginary@, delta@, y);
            assert(real_part == origin_real@ + fx);
            assert(imaginary == origin_imaginary@ - fy);
            assert(-2 * b <= real_part <= 2 * b);
            assert(-2 * b <= imaginary <= 2 * b);
            lemma_small_integer(0x1000, n);
            assert(b == 0x1000 * s);
            assert(2 * b == 0x2000 * s) by (nonlinear_arith)
                requires
                    b == 0x1000 * s,
            ;
            assert(magnitude_of(real_part) <= 0x2000 * s);
            assert(magnitude_of(imaginary) <= 0x2000 * s);
            assert(0x2000 * s < r) by (nonlinear_arith)
                requires
                    s >= 0x1_0000_0000,
                    r == s * s,
            ;
            lemma_orbit_representable(n, real_part, imaginary, 0, 0, 0, limit);
        }
    }
    true
}

} // verus!

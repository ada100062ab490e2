use fractal_explorer::calculator::{calculate_fixed_tile, fixed_tile_fits, MandelbrotFixed};
use fractal_explorer::fixed::Fixed;
use fractal_explorer::geometry::{ComplexEnvelope, ComplexPoint, ScreenPoint, ScreenSize};
use fractal_explorer::precision::{
    PrecisionDecisionManager, PrecisionRenderPlan, PrecisionSettings, PrecisionSpec,
    PrecisionTechnique, RenderMethod,
};
use fractal_explorer::Sprite;

#[test]
fn creates_a_solid_sprite_with_expected_size_and_pixels() {
    let sprite = Sprite::solid(2, 3, 0x00ff00);

    assert_eq!(sprite.width(), 2);
    assert_eq!(sprite.height(), 3);
    assert_eq!(sprite.pixels(), &[0x00ff00; 6]);
}

#[test]
fn draws_sprite_at_position_and_clips_to_framebuffer() {
    let color = 0xabcdef;
    let sprite = Sprite::solid(2, 2, color);
    let mut framebuffer = vec![0; 3 * 3];

    sprite.draw_into(&mut framebuffer, 3, -1, 1);

    assert_eq!(framebuffer, vec![0, 0, 0, color, 0, 0, color, 0, 0]);
}

#[test]
fn scaled_drawing_stretches_each_source_pixel() {
    let sprite = Sprite::from_pixels(2, 1, vec![1, 2]);
    let mut framebuffer = vec![0; 4 * 2];

    sprite.draw_into_scaled(&mut framebuffer, 4, 0, 1, 4, 1);

    assert_eq!(framebuffer, vec![0, 0, 0, 0, 1, 1, 2, 2]);
}

#[test]
fn scaled_drawing_clips_to_the_framebuffer() {
    let sprite = Sprite::solid(1, 1, 7);
    let mut framebuffer = vec![0; 2 * 2];

    sprite.draw_into_scaled(&mut framebuffer, 2, 1, -1, 3, 3);

    assert_eq!(framebuffer, vec![0, 7, 0, 7]);
}

#[test]
fn limb_count_controls_fractional_precision() {
    assert_eq!(Fixed::<1>::fractional_bits(), 32);
    assert_eq!(Fixed::<2>::fractional_bits(), 64);
    assert_eq!(Fixed::<4>::fractional_bits(), 128);
}

#[test]
fn fixed_addition_carries_across_limbs() {
    let half = Fixed::<2>::from_scaled_magnitude(1u128 << 63, false);
    let one = half.add(half);

    assert_eq!(one.limbs(), Fixed::<2>::from_i64(1).limbs());
    assert!(!one.is_negative());
}

#[test]
fn fixed_subtraction_and_multiplication_keep_signs() {
    let two = Fixed::<2>::from_i64(2);
    let three = Fixed::<2>::from_i64(3);
    let minus_one = two.sub(three);

    assert!(minus_one.is_negative());
    assert_eq!(minus_one.limbs(), Fixed::<2>::from_i64(1).limbs());
    assert_eq!(minus_one.mul(minus_one).limbs(), Fixed::<2>::from_i64(1).limbs());
    assert_eq!(three.square().limbs(), Fixed::<2>::from_i64(9).limbs());
    assert_eq!(two.compare(three), std::cmp::Ordering::Less);
    assert_eq!(minus_one.compare(Fixed::zero()), std::cmp::Ordering::Less);
    assert_eq!(three.compare(three), std::cmp::Ordering::Equal);
}

#[test]
fn fixed_origin_is_inside_the_set() {
    let fractal = MandelbrotFixed::<2>::new(32);

    assert_eq!(fractal.escape_iterations(Fixed::zero(), Fixed::zero()), 32);
}

#[test]
fn fixed_point_outside_the_set_escapes() {
    let fractal = MandelbrotFixed::<2>::new(32);

    assert!(fractal.escape_iterations(Fixed::from_i64(2), Fixed::zero()) < 32);
}

#[test]
fn fixed_render_tile_calculates_every_pixel_without_float_coordinates() {
    let fractal = MandelbrotFixed::<2>::new(32);
    let iterations = fractal.render_tile(Fixed::zero(), Fixed::zero(), Fixed::from_i64(1), 3, 3);

    assert_eq!(iterations.len(), 9);
    assert_eq!(iterations[4], 32);
    assert!(iterations[0] < 32);
}

#[test]
fn represents_complex_and_screen_coordinates() {
    let complex = ComplexPoint::new(-2.0, 1.5);
    let screen = ScreenPoint::new(10, 20);
    let envelope = ComplexEnvelope::new(-2.0, 2.0, -1.5, 1.5);

    assert_eq!(complex, ComplexPoint { x: -2.0, y: 1.5 });
    assert_eq!(screen, ScreenPoint { x: 10, y: 20 });
    assert_eq!(envelope.xmin, -2.0);
    assert_eq!(envelope.xmax, 2.0);
    assert_eq!(envelope.ymin, -1.5);
    assert_eq!(envelope.ymax, 1.5);
}

#[test]
fn screen_size_keeps_its_dimensions() {
    let size = ScreenSize::new(640, 480);

    assert_eq!((size.width, size.height), (640, 480));
}

#[test]
fn direct_plan_has_one_precision_spec() {
    let plan = PrecisionRenderPlan::new(RenderMethod::Direct {
        precision: PrecisionSpec::fixed(2),
    })
    .unwrap();

    assert_eq!(
        plan.method(),
        RenderMethod::Direct {
            precision: PrecisionSpec::fixed(2)
        }
    );
}

#[test]
fn perturbation_plan_separates_seed_and_delta_precision() {
    let plan = PrecisionRenderPlan::new(RenderMethod::Perturbation {
        seed: PrecisionSpec::fixed(4),
        delta: PrecisionSpec::float(1),
    })
    .unwrap();

    assert_eq!(
        plan.method(),
        RenderMethod::Perturbation {
            seed: PrecisionSpec {
                technique: PrecisionTechnique::Fixed,
                level: 4
            },
            delta: PrecisionSpec::float(1),
        }
    );
}

#[test]
fn precision_levels_start_at_one() {
    assert!(PrecisionRenderPlan::new(RenderMethod::Direct {
        precision: PrecisionSpec::fixed(0),
    })
    .is_err());
}

#[test]
fn float_precision_level_is_normalized_to_one() {
    assert_eq!(
        PrecisionSpec::float(64).normalized(),
        PrecisionSpec::float(1)
    );
}

#[test]
fn manager_uses_one_selector_for_perturbation_seed_and_f64_delta() {
    let settings = PrecisionSettings {
        rendering_method: "perturbation".to_string(),
        precision_technique: "fixed".to_string(),
        precision_level: 4,
        perturbation_fallback: false,
    };

    assert_eq!(
        PrecisionDecisionManager::from_config(&settings)
            .unwrap()
            .method(),
        RenderMethod::Perturbation {
            seed: PrecisionSpec::fixed(4),
            delta: PrecisionSpec::float(1),
        }
    );
}

#[test]
fn manager_reads_technique_names_in_any_case() {
    let settings = PrecisionSettings {
        rendering_method: "direct".to_string(),
        precision_technique: "FIXED".to_string(),
        precision_level: 3,
        perturbation_fallback: true,
    };
    let plan = PrecisionDecisionManager::from_config(&settings).unwrap();

    assert_eq!(
        plan.method(),
        RenderMethod::Direct {
            precision: PrecisionSpec::fixed(3)
        }
    );
    assert!(plan.perturbation_fallback());
}

#[test]
fn manager_rejects_unknown_names() {
    let settings = PrecisionSettings {
        rendering_method: "sideways".to_string(),
        precision_technique: "fixed".to_string(),
        precision_level: 3,
        perturbation_fallback: false,
    };

    assert!(PrecisionDecisionManager::from_config(&settings).is_err());
}

#[test]
fn fixed_tile_samples_grow_right_along_real_and_down_along_imaginary() {
    let calculator = MandelbrotFixed::<2>::new(40);
    // Top-left sample at (-2, 1), samples a quarter apart.
    let origin_real = Fixed::<2>::from_i64(-2);
    let origin_imaginary = Fixed::<2>::from_i64(1);
    let delta = Fixed::<2>::from_scaled_magnitude(1u128 << 62, false);
    assert!(fixed_tile_fits(origin_real, origin_imaginary, delta, 5, 3));
    let iterations = calculate_fixed_tile(40, origin_real, origin_imaginary, delta, 5, 3);

    assert_eq!(iterations.len(), 15);
    for y in 0..3i64 {
        for x in 0..5i64 {
            let real = origin_real.add(delta.mul(Fixed::from_i64(x)));
            let imaginary = origin_imaginary.sub(delta.mul(Fixed::from_i64(y)));
            assert_eq!(
                iterations[(y * 5 + x) as usize],
                calculator.escape_iterations(real, imaginary) as u64
            );
        }
    }
    // (-2, 1) escapes after one step, (-1, 0.5) stays bounded for longer.
    assert_eq!(iterations[0], 1);
    assert!(iterations[2 * 5 + 4] > iterations[0]);
}

#[test]
fn fixed_tiles_far_from_the_origin_or_with_coarse_samples_are_refused() {
    let origin = Fixed::<1>::from_i64(-1);
    let fine = Fixed::<1>::from_scaled_magnitude(1u128 << 20, false);
    assert!(fixed_tile_fits(origin, origin, fine, 800, 600));
    // Samples more than 1 apart.
    assert!(!fixed_tile_fits(origin, origin, Fixed::<1>::from_i64(2), 2, 2));
    // A top-left sample beyond 4096.
    let far = Fixed::<1>::from_i64(5000);
    assert!(!fixed_tile_fits(far, origin, fine, 2, 2));
    // A tile that spans more than 4096.
    assert!(!fixed_tile_fits(origin, origin, Fixed::<1>::from_i64(1), 5000, 2));
    // An empty tile holds no sample.
    assert!(fixed_tile_fits(far, far, Fixed::<1>::from_i64(9), 0, 3));
}

/// The `Fixed<1>` nearest to `value`.
fn fixed_from_f64(value: f64) -> Fixed<1> {
    let magnitude = (value.abs() * 2f64.powi(32)).round() as u128;
    Fixed::from_scaled_magnitude(magnitude, value.is_sign_negative())
}

/// The number a fixed-point value denotes.
fn fixed_to_f64<const N: usize>(value: Fixed<N>) -> f64 {
    let mut number = 0.0;
    for &limb in value.limbs().iter().rev() {
        number = number * 18_446_744_073_709_551_616.0 + limb as f64;
    }
    let number = number / 2f64.powi(Fixed::<N>::fractional_bits() as i32);
    if value.is_negative() {
        -number
    } else {
        number
    }
}

#[test]
fn fixed_one_represents_fractional_values() {
    let value = fixed_from_f64(1.5);

    assert_eq!(fixed_to_f64(value), 1.5);
}

#[test]
fn supports_signed_addition_and_subtraction() {
    let value = fixed_from_f64(1.5).add(fixed_from_f64(-0.25));

    assert_eq!(fixed_to_f64(value), 1.25);
    assert_eq!(fixed_to_f64(value.sub(fixed_from_f64(2.0))), -0.75);
}

#[test]
fn multiplication_and_square_preserve_fractional_values() {
    let value = fixed_from_f64(-1.5).mul(fixed_from_f64(2.0));

    assert_eq!(fixed_to_f64(value), -3.0);
    assert_eq!(fixed_to_f64(value.square()), 9.0);
}

#[test]
fn two_limbs_carry_across_the_word_boundary() {
    let value = Fixed::<2>::from_i64(1 << 40);

    assert_eq!(fixed_to_f64(value), (1u64 << 40) as f64);
}

#[test]
fn compares_signed_values() {
    assert_eq!(
        fixed_from_f64(-1.0).compare(fixed_from_f64(0.0)),
        std::cmp::Ordering::Less
    );
    assert_eq!(
        fixed_from_f64(2.0).compare(fixed_from_f64(1.0)),
        std::cmp::Ordering::Greater
    );
    assert_eq!(
        fixed_from_f64(1.0).compare(fixed_from_f64(1.0)),
        std::cmp::Ordering::Equal
    );
}

#[test]
fn a_fixed_value_is_determined_by_the_number_it_denotes() {
    let a = fixed_from_f64(1.5);
    let b = fixed_from_f64(-0.25);

    assert_eq!(a.sub(b), a.add(-b));
    assert_eq!(a.sub(a), Fixed::zero());
    assert_eq!(b.square(), b.mul(b));
}

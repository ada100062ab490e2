use fractal_explorer::geometry::{ScreenPoint, ScreenSize};
use fractal_explorer::gpu::{
    debug_overlay_upload, hash_pixels, prepare_tile_batch, texture_keys_for_commands, to_rgba8, PreparedTileBatch,
    TextureCache, TextureKey, TextureUpload, TileDrawCommand, VisibleTile,
};
use fractal_explorer::gpu_window::{
    format_gpu_frame_overlay_header, needs_batch_rebuild, next_vertex_buffer_slot,
    overlay_cache_key, overlay_needs_refresh, uses_persistent_composition,
    vertex_buffer_capacity, vertex_buffer_needs_recreation, GpuFrameMetrics,
};
use fractal_explorer::orchestrator::FrameEventKind;
use fractal_explorer::renderer::{
    draw_mouse_marker, draw_rectangle_outline, draw_text, glyph, has_live_window_size,
    cpu_tile_image_id, prepared_cpu_tile, sprite_from_iterations, IterationBuffer, shade_color,
    swap_red_and_blue, FrameTimingRing, ScreenRect,
};
use fractal_explorer::render::{ImageId, ImageRevision, Rect};
use fractal_explorer::Sprite;
use std::time::Duration;

#[test]
fn texture_upload_preserves_dimensions_and_rgba_payload_size() {
    let upload = TextureUpload {
        key: TextureKey {
            tile: 7,
            content_hash: 11,
        },
        width: 3,
        height: 2,
        rgba8: vec![0; 3 * 2 * 4],
    };
    assert_eq!(
        upload.rgba8.len(),
        upload.width as usize * upload.height as usize * 4
    );
    assert!(upload.is_well_formed());
}

#[test]
fn empty_or_short_uploads_are_not_well_formed() {
    let empty = TextureUpload {
        key: TextureKey {
            tile: 1,
            content_hash: 1,
        },
        width: 0,
        height: 2,
        rgba8: Vec::new(),
    };
    let short = TextureUpload {
        key: TextureKey {
            tile: 1,
            content_hash: 1,
        },
        width: 1,
        height: 1,
        rgba8: vec![0; 3],
    };
    assert!(!empty.is_well_formed());
    assert!(!short.is_well_formed());
}

#[test]
fn visible_batch_keys_are_unique_and_follow_draw_order() {
    let first = TextureKey {
        tile: 1,
        content_hash: 10,
    };
    let second = TextureKey {
        tile: 2,
        content_hash: 20,
    };
    let commands = vec![
        TileDrawCommand {
            texture: first,
            position: ScreenPoint::new(0, 0),
            size: (1, 1),
        },
        TileDrawCommand {
            texture: first,
            position: ScreenPoint::new(1, 0),
            size: (1, 1),
        },
        TileDrawCommand {
            texture: second,
            position: ScreenPoint::new(2, 0),
            size: (1, 1),
        },
    ];

    assert_eq!(texture_keys_for_commands(&commands), vec![first, second]);
}

#[test]
fn pixel_hash_is_the_fnv_fold_of_the_pixels() {
    assert_eq!(hash_pixels(&[]), 0xcbf29ce484222325);
    let expected = (0xcbf29ce484222325u64 ^ 1).wrapping_mul(0x100000001b3);
    assert_eq!(hash_pixels(&[1]), expected);
    assert_ne!(hash_pixels(&[1, 2]), hash_pixels(&[2, 1]));
}

#[test]
fn rgba_conversion_uses_little_endian_bytes_and_opaque_alpha() {
    assert_eq!(
        to_rgba8(&[0x00112233, 0x80445566]),
        vec![0x33, 0x22, 0x11, 255, 0x66, 0x55, 0x44, 0x80]
    );
}

#[test]
fn uploads_a_new_sprite_only_once_and_emits_rgba_pixels() {
    let sprite = Sprite::from_pixels(2, 1, vec![0x00112233, 0x00445566]);
    let mut cache = TextureCache::default();
    let upload = cache.prepare(5, &sprite).unwrap();
    assert_eq!(upload.rgba8, vec![0x33, 0x22, 0x11, 255, 0x66, 0x55, 0x44, 255]);
    assert!(cache.prepare(5, &sprite).is_none());
}

#[test]
fn tile_batch_uploads_new_content_once_and_keeps_draw_order() {
    let first_sprite = Sprite::solid(2, 2, 0x00ff00);
    let second_sprite = Sprite::solid(2, 2, 0xff0000);
    let tiles = [
        VisibleTile {
            tile: 1,
            position: ScreenPoint::new(3, 4),
            size: (4, 4),
            sprite: &first_sprite,
        },
        VisibleTile {
            tile: 2,
            position: ScreenPoint::new(9, 4),
            size: (2, 2),
            sprite: &second_sprite,
        },
    ];
    let mut cache = TextureCache::default();

    let first_batch = prepare_tile_batch(&mut cache, &tiles);
    let second_batch = prepare_tile_batch(&mut cache, &tiles);

    assert_eq!(first_batch.uploads.len(), 2);
    assert_eq!(first_batch.commands.len(), 2);
    assert_eq!(first_batch.commands[0].position, ScreenPoint::new(3, 4));
    assert_eq!(first_batch.commands[1].position, ScreenPoint::new(9, 4));
    assert!(second_batch.uploads.is_empty());
    assert_eq!(second_batch.commands.len(), 2);
    assert!(first_batch.uploads.iter().all(TextureUpload::is_well_formed));
    assert_eq!(first_batch.uploads[0].key, first_batch.commands[0].texture);
}

#[test]
fn compares_gpu_visible_tiles_with_cpu_reference_count() {
    let metrics = GpuFrameMetrics::from_batch(
        &PreparedTileBatch {
            uploads: Vec::new(),
            commands: vec![TileDrawCommand {
                texture: TextureKey {
                    tile: 1,
                    content_hash: 2,
                },
                position: ScreenPoint::new(0, 0),
                size: (1, 1),
            }],
        },
        Duration::ZERO,
    );
    assert!(metrics.matches_cpu_visible_tiles(1));
    assert!(!metrics.matches_cpu_visible_tiles(2));
}

#[test]
fn frame_stats_describe_visible_tiles_and_new_uploads() {
    let batch = PreparedTileBatch {
        uploads: vec![TextureUpload {
            key: TextureKey {
                tile: 1,
                content_hash: 2,
            },
            width: 1,
            height: 1,
            rgba8: vec![1, 2, 3, 4],
        }],
        commands: vec![TileDrawCommand {
            texture: TextureKey {
                tile: 1,
                content_hash: 2,
            },
            position: ScreenPoint::new(0, 0),
            size: (1, 1),
        }],
    };

    assert_eq!(
        GpuFrameMetrics::from_batch(&batch, Duration::from_millis(3)).description(),
        "tiles rasterizados neste frame: 1, texturas novas neste frame: 1"
    );
    assert_eq!(GpuFrameMetrics::from_batch(&batch, Duration::ZERO).draw_calls(), 1);
    assert_eq!(
        GpuFrameMetrics::from_batch(&batch, Duration::from_millis(3)).prepare_duration(),
        Duration::from_millis(3)
    );
}

#[test]
fn gpu_upload_stage_events_are_distinct() {
    let kinds = [
        FrameEventKind::GpuBatchTextureUpload,
        FrameEventKind::GpuBatchTextureRetention,
        FrameEventKind::GpuBatchVertexUpload,
        FrameEventKind::GpuBatchOverlayUpload,
        FrameEventKind::GpuBatchEnvelopeUpload,
    ];
    assert_eq!(kinds.len(), 5);
    for (index, kind) in kinds.iter().enumerate() {
        assert!(kinds[index + 1..].iter().all(|other| other != kind));
    }
}

#[test]
fn overlay_cache_reuses_an_unchanged_image_and_refreshes_changed_content() {
    let first = TextureUpload {
        key: TextureKey {
            tile: usize::MAX,
            content_hash: 10,
        },
        width: 240,
        height: 16,
        rgba8: vec![0; 240 * 16 * 4],
    };
    let same = TextureUpload {
        key: TextureKey {
            tile: usize::MAX,
            content_hash: 10,
        },
        width: 240,
        height: 16,
        rgba8: vec![255; 240 * 16 * 4],
    };
    let changed = TextureUpload {
        key: TextureKey {
            tile: usize::MAX,
            content_hash: 11,
        },
        width: 240,
        height: 32,
        rgba8: vec![0; 240 * 32 * 4],
    };
    let first_key = overlay_cache_key(&first);

    assert!(overlay_needs_refresh(None, first_key));
    assert!(!overlay_needs_refresh(Some(first_key), overlay_cache_key(&same)));
    assert!(overlay_needs_refresh(Some(first_key), overlay_cache_key(&changed)));
}

#[test]
fn resize_invalidates_vertices_only_when_surface_dimensions_change() {
    assert!(!needs_batch_rebuild((800, 600), (800, 600)));
    assert!(needs_batch_rebuild((800, 600), (1024, 768)));
}

#[test]
fn vertex_buffer_capacity_grows_only_when_required_vertices_do_not_fit() {
    assert_eq!(vertex_buffer_capacity(96, 48), 96);
    assert_eq!(vertex_buffer_capacity(96, 97), 192);
    assert_eq!(vertex_buffer_capacity(0, 1), 1);
}

#[test]
fn vertex_buffer_capacity_falls_back_to_the_requirement_when_doubling_saturates() {
    assert_eq!(vertex_buffer_capacity(usize::MAX / 2 + 1, usize::MAX - 1), usize::MAX - 1);
    assert_eq!(vertex_buffer_capacity(3, 13), 24);
}

#[test]
fn vertex_buffer_recreation_is_needed_only_after_capacity_is_exceeded() {
    assert!(!vertex_buffer_needs_recreation(96, 96));
    assert!(!vertex_buffer_needs_recreation(96, 48));
    assert!(vertex_buffer_needs_recreation(96, 97));
}

#[test]
fn vertex_buffer_ring_rotates_slots_without_reusing_the_current_slot() {
    assert_eq!(next_vertex_buffer_slot(0, 3), 1);
    assert_eq!(next_vertex_buffer_slot(1, 3), 2);
    assert_eq!(next_vertex_buffer_slot(2, 3), 0);
    assert_eq!(next_vertex_buffer_slot(0, 0), 0);
}

#[test]
fn persistent_composition_is_used_only_when_frame_preservation_is_enabled() {
    assert!(uses_persistent_composition(true));
    assert!(!uses_persistent_composition(false));
}

#[test]
fn frame_overlay_header_uses_frame_number_instead_of_tile_count() {
    assert_eq!(format_gpu_frame_overlay_header(1530, 84), "Frame #1530, tiles:84");
    assert_eq!(format_gpu_frame_overlay_header(0, 0), "Frame #0, tiles:0");
}

#[test]
fn does_not_poll_mouse_position_for_a_zero_sized_window() {
    assert!(!has_live_window_size((0, 540)));
    assert!(!has_live_window_size((960, 0)));
    assert!(has_live_window_size((960, 540)));
}

#[test]
fn frame_timing_ring_keeps_physical_slot_order() {
    let mut ring = FrameTimingRing::default();
    for frame_number in 1..=31 {
        ring.push(frame_number, Duration::from_millis(frame_number));
    }

    let entries: Vec<_> = ring.entries_in_ring_order();
    assert_eq!(entries[0].unwrap().frame_number, 31);
    assert_eq!(entries[1].unwrap().frame_number, 2);
    assert_eq!(entries[29].unwrap().frame_number, 30);
    assert_eq!(entries[29].unwrap().duration, Duration::from_millis(30));
}

#[test]
fn draws_only_the_one_pixel_red_outline_when_requested() {
    let size = ScreenSize::new(5, 5);
    let mut framebuffer = vec![0; 25];

    draw_rectangle_outline(
        &mut framebuffer,
        size,
        ScreenRect {
            left: 1,
            top: 1,
            right: 3,
            bottom: 3,
        },
        0xff0000,
    );

    assert_eq!(framebuffer[1 + 5], 0xff0000);
    assert_eq!(framebuffer[2 + 5], 0xff0000);
    assert_eq!(framebuffer[2 + 5 * 2], 0);
}

#[test]
fn outline_is_clipped_to_the_screen() {
    let size = ScreenSize::new(3, 3);
    let mut framebuffer = vec![0; 9];

    draw_rectangle_outline(
        &mut framebuffer,
        size,
        ScreenRect {
            left: -1,
            top: -1,
            right: 1,
            bottom: 1,
        },
        5,
    );

    assert_eq!(framebuffer, vec![0, 5, 0, 5, 5, 0, 0, 0, 0]);
}

#[test]
fn draws_a_mouse_marker_as_a_cross() {
    let size = ScreenSize::new(9, 9);
    let mut framebuffer = vec![0; 81];

    draw_mouse_marker(&mut framebuffer, size, ScreenPoint::new(4, 4), 0x00ffff);

    assert_eq!(framebuffer[4 * 9 + 0], 0x00ffff);
    assert_eq!(framebuffer[0 * 9 + 4], 0x00ffff);
    assert_eq!(framebuffer[4 * 9 + 4], 0x00ffff);
    assert_eq!(framebuffer[0], 0);
}

#[test]
fn shade_darkens_linearly_with_iterations() {
    assert_eq!(shade_color(0, 10), 0xffffff);
    assert_eq!(shade_color(10, 10), 0x0000ff);
    assert_eq!(shade_color(5, 10), 0x8080ff);
}

#[test]
fn inverted_rainbow_swaps_red_and_blue_channels() {
    assert_eq!(swap_red_and_blue(0x123456), 0x563412);
}

#[test]
fn debug_overlay_upload_contains_transparent_background_and_text_pixels() {
    let upload = debug_overlay_upload("C1", 64, 16);
    assert_eq!((upload.width, upload.height), (64, 16));
    assert_eq!(upload.rgba8.len(), 64 * 16 * 4);
    assert!(upload.rgba8.chunks_exact(4).any(|pixel| pixel[3] == 0));
    assert!(upload.rgba8.chunks_exact(4).any(|pixel| pixel[3] == 255));
}

#[test]
fn debug_overlay_places_the_first_glyph_two_pixels_from_the_corner() {
    let upload = debug_overlay_upload("1", 16, 12);
    let alpha_at = |x: usize, y: usize| upload.rgba8[(y * 16 + x) * 4 + 3];
    // The top row of '1' lights only its middle column.
    assert_eq!(alpha_at(2 + 2, 2), 255);
    assert_eq!(alpha_at(2 + 1, 2), 0);
    assert_eq!(alpha_at(0, 0), 0);
    assert_eq!(upload.key.tile, usize::MAX);
    assert_eq!(upload.key.content_hash, hash_pixels(&upload
        .rgba8
        .chunks_exact(4)
        .map(|p| u32::from_le_bytes([p[0], p[1], p[2], p[3]]))
        .collect::<Vec<_>>()));
}

#[test]
fn glyph_table_has_digits_and_rejects_unknown_characters() {
    assert_eq!(
        glyph('1'),
        Some([0b00100, 0b01100, 0b00100, 0b00100, 0b00100, 0b00100, 0b01110])
    );
    assert_eq!(glyph('\u{263a}'), None);
}

#[test]
fn draw_text_advances_six_pixels_per_character_and_clips() {
    let size = ScreenSize::new(12, 8);
    let mut framebuffer = vec![0u32; 12 * 8];
    draw_text(&mut framebuffer, size, 0, 0, "11", 7);
    // Middle column of each '1' on the top row: x = 2 and x = 8.
    assert_eq!(framebuffer[2], 7);
    assert_eq!(framebuffer[8], 7);
    assert_eq!(framebuffer[0], 0);
    // Bottom row of '1' (row 6) lights columns 1..=3.
    assert_eq!(framebuffer[6 * 12 + 1], 7);
    assert_eq!(framebuffer[6 * 12 + 4], 0);

    let mut clipped = vec![0u32; 12 * 8];
    draw_text(&mut clipped, size, -1, -2, "1", 5);
    assert_eq!(clipped.iter().filter(|&&pixel| pixel == 5).count(), 1 + 1 + 1 + 1 + 3);
}

#[test]
fn converts_iteration_buffer_to_a_sprite() {
    let image = IterationBuffer::new(3, 1, 32, vec![32, 0, 16]);
    let sprite = sprite_from_iterations(&image);

    assert_eq!((sprite.width(), sprite.height()), (3, 1));
    // Points that never escaped are black; the others are grey, lighter for
    // fewer iterations, with blue at full.
    assert_eq!(sprite.pixels(), &[0, 0xffffff, 0x8080ff]);
}

#[test]
fn cpu_tile_ids_pack_layer_row_and_column() {
    assert_eq!(
        cpu_tile_image_id(1, 2, 3).value(),
        (1u64 << 42) | (2u64 << 21) | 3
    );
    assert_ne!(cpu_tile_image_id(0, 1, 0), cpu_tile_image_id(0, 0, 1));
    assert_ne!(cpu_tile_image_id(1, 0, 0), cpu_tile_image_id(0, 0, 0));
}

#[test]
fn prepared_cpu_tile_uploads_opaque_rgb_bytes_and_draws_over_the_destination() {
    let sprite = Sprite::from_pixels(2, 1, vec![0x123456, 0xabcdef]);
    let destination = Rect::new(-3, 4, 20, 10);
    let (draw, update) = prepared_cpu_tile(
        ImageId::new(7),
        ImageRevision::new(1),
        2,
        destination,
        &sprite,
    );

    assert_eq!(update.dimensions(), (2, 1));
    assert_eq!(
        update.rgba8(),
        &[0x12, 0x34, 0x56, 0xff, 0xab, 0xcd, 0xef, 0xff]
    );
    assert_eq!(draw.image(), ImageId::new(7));
    assert_eq!(draw.layer(), 2);
    assert_eq!(draw.destination(), destination);
}

#[test]
fn prepares_cpu_sprite_as_the_shared_image_contract() {
    let sprite = Sprite::from_pixels(2, 1, vec![0x00112233, 0x00445566]);

    let (draw, update) = prepared_cpu_tile(
        ImageId::new(7),
        ImageRevision::new(3),
        2,
        Rect::new(-1, 4, 3, 2),
        &sprite,
    );

    assert_eq!(draw.image(), ImageId::new(7));
    assert_eq!(draw.revision(), ImageRevision::new(3));
    assert_eq!(draw.layer(), 2);
    assert_eq!(draw.destination(), Rect::new(-1, 4, 3, 2));
    assert_eq!(update.image(), ImageId::new(7));
    assert_eq!(update.revision(), ImageRevision::new(3));
    assert_eq!(update.dimensions(), (2, 1));
    assert_eq!(
        update.rgba8(),
        &[0x11, 0x22, 0x33, 0xff, 0x44, 0x55, 0x66, 0xff]
    );
}

#[test]
fn tile_batch_uploads_are_well_formed_and_match_commands() {
    let sprite = Sprite::solid(1, 1, 0x123456);
    let tiles = [VisibleTile {
        tile: 0,
        position: ScreenPoint::new(0, 0),
        size: (1, 1),
        sprite: &sprite,
    }];
    let mut cache = TextureCache::default();
    let batch = prepare_tile_batch(&mut cache, &tiles);

    assert!(batch.uploads.iter().all(TextureUpload::is_well_formed));
    assert_eq!(batch.uploads[0].key, batch.commands[0].texture);
}

use fractal_explorer::render::cpu::CpuRenderTarget;
use fractal_explorer::render::device::{
    BufferDescriptor, BufferUsage, Command, CommandList, DeviceError, GraphicsDevice,
    MockGraphicsDevice, TextureDescriptor, TextureFormat, TextureHandle, TextureResourceCache,
    validate_commands,
};
use fractal_explorer::render::gpu::GpuRenderTarget;
use fractal_explorer::render::{
    CpuRenderTargetFactory, FrameBuilder, ImageId, ImageRevision, ImageUpdate, ImageUpdateError,
    OverlayPrimitive, PreparedFrame, Rect, RenderFrame, RenderTarget, RenderTargetFactory,
    RenderTargetPipeline, RenderTargetSession, SurfaceFailure, TileDraw, Viewport, ONE_BITS,
};
use fractal_explorer::render::{FrameOutcome, RenderCapabilities, RenderError, TargetCalls};
use std::sync::{Arc, Mutex};

#[derive(Default)]
struct RecordingTarget {
    resized: Vec<Viewport>,
    updated_images: usize,
    rendered_frames: Vec<u64>,
    evicted_images: usize,
    recovered: Vec<SurfaceFailure>,
}

impl RenderTarget for RecordingTarget {
    // The record of calls is a specification of the target; it has no
    // value when the program runs.
    fn calls(&self) -> TargetCalls {
        unreachable!()
    }

    fn capabilities(&self) -> fractal_explorer::render::RenderCapabilities {
        fractal_explorer::render::RenderCapabilities::default()
    }

    fn resize(&mut self, viewport: Viewport) -> Result<(), fractal_explorer::render::RenderError> {
        self.resized.push(viewport);
        Ok(())
    }

    fn update_images(
        &mut self,
        updates: &[ImageUpdate],
    ) -> Result<(), fractal_explorer::render::RenderError> {
        self.updated_images += updates.len();
        Ok(())
    }

    fn render(
        &mut self,
        frame: &RenderFrame,
    ) -> Result<fractal_explorer::render::FrameOutcome, fractal_explorer::render::RenderError> {
        self.rendered_frames.push(frame.frame_id());
        Ok(fractal_explorer::render::FrameOutcome::submitted())
    }

    fn evict_images(&mut self, images: &[ImageId]) {
        self.evicted_images += images.len();
    }

    fn recover(&mut self, reason: SurfaceFailure) -> Result<(), fractal_explorer::render::RenderError> {
        self.recovered.push(reason);
        Ok(())
    }
}

struct RecordingFactory {
    target: Arc<Mutex<RecordingTarget>>,
}

impl RenderTargetFactory for RecordingFactory {
    fn create_answer(&self, _viewport: Viewport) -> Result<(), RenderError> {
        Ok(())
    }

    fn create(&self, _viewport: Viewport) -> Result<Box<dyn RenderTarget>, RenderError> {
        Ok(Box::new(SharedRecordingTarget {
            target: Arc::clone(&self.target),
        }))
    }
}

struct SharedRecordingTarget {
    target: Arc<Mutex<RecordingTarget>>,
}

impl RenderTarget for SharedRecordingTarget {
    // The record of calls is a specification of the target; it has no
    // value when the program runs.
    fn calls(&self) -> TargetCalls {
        unreachable!()
    }

    fn capabilities(&self) -> RenderCapabilities {
        RenderCapabilities::default()
    }

    fn resize(&mut self, viewport: Viewport) -> Result<(), RenderError> {
        self.target.lock().unwrap().resize(viewport)
    }

    fn update_images(&mut self, updates: &[ImageUpdate]) -> Result<(), RenderError> {
        self.target.lock().unwrap().update_images(updates)
    }

    fn render(&mut self, frame: &RenderFrame) -> Result<FrameOutcome, RenderError> {
        self.target.lock().unwrap().render(frame)
    }

    fn evict_images(&mut self, images: &[ImageId]) {
        self.target.lock().unwrap().evict_images(images)
    }

    fn recover(&mut self, reason: SurfaceFailure) -> Result<(), RenderError> {
        self.target.lock().unwrap().recover(reason)
    }
}

#[test]
fn render_target_contract_keeps_lifecycle_independent_of_backend() {
    let mut target = RecordingTarget::default();
    target.resize(Viewport::new(640, 480)).unwrap();
    target.update_images(&[]).unwrap();
    target
        .render(&RenderFrame::new(11, Viewport::new(640, 480)))
        .unwrap();
    target.evict_images(&[ImageId::new(3)]);
    target.recover(SurfaceFailure::Lost).unwrap();

    assert_eq!(target.resized, vec![Viewport::new(640, 480)]);
    assert_eq!(target.updated_images, 0);
    assert_eq!(target.rendered_frames, vec![11]);
    assert_eq!(target.evicted_images, 1);
    assert_eq!(target.recovered, vec![SurfaceFailure::Lost]);
}

#[test]
fn render_target_pipeline_submits_prepared_frame_lifecycle_in_order() {
    let target = Arc::new(Mutex::new(RecordingTarget::default()));
    let factory = RecordingFactory {
        target: Arc::clone(&target),
    };
    let mut pipeline = RenderTargetPipeline::create(&factory, Viewport::new(320, 200)).unwrap();
    let update = ImageUpdate::new(
        ImageId::new(9),
        ImageRevision::new(1),
        1,
        1,
        vec![1, 2, 3, 255],
    )
    .unwrap();
    let prepared = PreparedFrame::new(RenderFrame::new(12, Viewport::new(640, 400)), vec![update]);

    assert!(pipeline.submit(&prepared).unwrap().was_submitted());
    pipeline.evict_images(&[ImageId::new(9)]);
    pipeline.recover(SurfaceFailure::Lost).unwrap();

    let target = target.lock().unwrap();
    assert_eq!(target.resized, vec![Viewport::new(640, 400)]);
    assert_eq!(target.updated_images, 1);
    assert_eq!(target.rendered_frames, vec![12]);
    assert_eq!(target.evicted_images, 1);
    assert_eq!(target.recovered, vec![SurfaceFailure::Lost]);
}

#[test]
fn cpu_factory_creates_the_common_render_target_contract() {
    let factory = CpuRenderTargetFactory;
    let mut target = factory
        .create(Viewport::new(320, 200))
        .expect("CPU target should be available");

    assert_eq!(target.capabilities().persistent_resources, true);
    target
        .render(&RenderFrame::new(0, Viewport::new(320, 200)))
        .expect("empty frame should render");
}

#[test]
fn image_update_keeps_revision_and_validates_rgba_dimensions() {
    let update = ImageUpdate::new(
        ImageId::new(4),
        ImageRevision::new(8),
        2,
        1,
        vec![10, 20, 30, 255, 40, 50, 60, 255],
    )
    .expect("valid RGBA image");

    assert_eq!(update.image(), ImageId::new(4));
    assert_eq!(update.revision(), ImageRevision::new(8));
    assert_eq!(update.dimensions(), (2, 1));
    assert_eq!(update.rgba8(), &[10, 20, 30, 255, 40, 50, 60, 255]);
    assert!(ImageUpdate::new(ImageId::new(4), ImageRevision::new(9), 2, 1, vec![0; 4]).is_err());
}

#[test]
fn image_update_reports_the_expected_and_actual_lengths() {
    assert_eq!(
        ImageUpdate::new(ImageId::new(1), ImageRevision::new(1), 2, 2, vec![0; 4]),
        Err(ImageUpdateError::InvalidRgba8Length {
            expected: 16,
            actual: 4
        })
    );
}

#[test]
fn frame_references_stable_images_and_preserves_draw_order() {
    let frame = RenderFrame::new(7, Viewport::new(800, 600))
        .with_tile(TileDraw::new(ImageId::new(2), ImageRevision::new(3), 10))
        .with_tile(TileDraw::new(ImageId::new(1), ImageRevision::new(9), 20));

    assert_eq!(frame.frame_id(), 7);
    assert_eq!(frame.viewport(), Viewport::new(800, 600));
    assert_eq!(frame.tiles()[0].image(), ImageId::new(2));
    assert_eq!(frame.tiles()[0].revision(), ImageRevision::new(3));
    assert_eq!(frame.tiles()[0].layer(), 10);
    assert_eq!(frame.tiles()[1].image(), ImageId::new(1));
    assert_eq!(frame.tiles()[1].layer(), 20);
    assert_eq!(frame.tiles()[1].opacity_bits(), ONE_BITS);
}

#[test]
fn frame_builder_assigns_monotonic_ids_to_immutable_snapshots() {
    let mut builder = FrameBuilder::new();
    let first = builder.build(Viewport::new(320, 200), Vec::new(), Vec::new());
    let second = builder.build(
        Viewport::new(640, 400),
        vec![TileDraw::new(ImageId::new(1), ImageRevision::new(2), 0)],
        Vec::new(),
    );

    assert_eq!(first.frame_id(), 0);
    assert_eq!(second.frame_id(), 1);
    assert_eq!(first.viewport(), Viewport::new(320, 200));
    assert!(first.tiles().is_empty());
    assert_eq!(second.tiles().len(), 1);
}

#[test]
fn prepared_frame_keeps_logical_frame_separate_from_image_updates() {
    let frame = RenderFrame::new(4, Viewport::new(2, 1)).with_tile(
        TileDraw::new(ImageId::new(7), ImageRevision::new(11), 0)
            .with_destination(Rect::new(1, 0, 1, 1)),
    );
    let update =
        ImageUpdate::new(ImageId::new(7), ImageRevision::new(11), 1, 1, vec![10, 20, 30, 255])
            .unwrap();

    let prepared = PreparedFrame::new(frame.clone(), vec![update.clone()]);

    assert_eq!(prepared.frame(), &frame);
    assert_eq!(prepared.image_updates(), &[update]);
}

#[test]
fn render_target_session_resizes_only_when_viewport_changes() {
    let target = RecordingTarget::default();
    let mut session = RenderTargetSession::new(target, Viewport::new(320, 200));
    let frame = RenderFrame::new(3, Viewport::new(640, 400));

    session
        .submit(Viewport::new(320, 200), &[], &frame)
        .expect("first frame should render");
    session
        .submit(Viewport::new(640, 400), &[], &frame)
        .expect("resized frame should render");

    assert_eq!(session.target().resized, vec![Viewport::new(640, 400)]);
    assert_eq!(session.target().rendered_frames, vec![3, 3]);
    assert_eq!(session.target().updated_images, 0);
}

#[test]
fn cpu_target_composes_an_updated_image_at_the_frame_destination() {
    let mut target = CpuRenderTarget::new(Viewport::new(2, 1));
    target
        .update_images(&[ImageUpdate::new(
            ImageId::new(1),
            ImageRevision::new(1),
            1,
            1,
            vec![10, 20, 30, 255],
        )
        .unwrap()])
        .unwrap();

    let frame = RenderFrame::new(0, Viewport::new(2, 1)).with_tile(
        TileDraw::new(ImageId::new(1), ImageRevision::new(1), 0)
            .with_destination(Rect::new(1, 0, 1, 1)),
    );
    target.render(&frame).unwrap();

    assert_eq!(target.pixel_rgba8(0, 0), Some([0, 0, 0, 0]));
    assert_eq!(target.pixel_rgba8(1, 0), Some([10, 20, 30, 255]));
    assert_eq!(target.pixel_rgba8(2, 0), None);
}

#[test]
fn cpu_target_composes_overlay_after_tiles() {
    let mut target = CpuRenderTarget::new(Viewport::new(1, 1));
    target
        .update_images(&[
            ImageUpdate::new(ImageId::new(1), ImageRevision::new(1), 1, 1, vec![10, 20, 30, 255])
                .unwrap(),
            ImageUpdate::new(
                ImageId::new(2),
                ImageRevision::new(1),
                1,
                1,
                vec![200, 210, 220, 255],
            )
            .unwrap(),
        ])
        .unwrap();

    let tile = TileDraw::new(ImageId::new(1), ImageRevision::new(1), 0)
        .with_destination(Rect::new(0, 0, 1, 1));
    let overlay = TileDraw::new(ImageId::new(2), ImageRevision::new(1), 0)
        .with_destination(Rect::new(0, 0, 1, 1));
    let frame = RenderFrame::new(0, Viewport::new(1, 1))
        .with_tile(tile)
        .with_overlay(OverlayPrimitive::Image(overlay));

    target.render(&frame).unwrap();

    assert_eq!(target.pixel_rgba8(0, 0), Some([200, 210, 220, 255]));
}

#[test]
fn cpu_target_skips_draws_of_stale_revisions_and_refuses_other_viewports() {
    let mut target = CpuRenderTarget::new(Viewport::new(1, 1));
    target
        .update_images(&[ImageUpdate::new(
            ImageId::new(1),
            ImageRevision::new(2),
            1,
            1,
            vec![9, 9, 9, 9],
        )
        .unwrap()])
        .unwrap();
    let stale = RenderFrame::new(0, Viewport::new(1, 1)).with_tile(
        TileDraw::new(ImageId::new(1), ImageRevision::new(1), 0)
            .with_destination(Rect::new(0, 0, 1, 1)),
    );

    target.render(&stale).unwrap();

    assert_eq!(target.pixel_rgba8(0, 0), Some([0, 0, 0, 0]));
    assert!(target.render(&RenderFrame::new(1, Viewport::new(2, 1))).is_err());
}

#[test]
fn device_contract_keeps_resource_creation_and_submission_backend_independent() {
    let mut device = MockGraphicsDevice::default();
    let buffer = device
        .create_buffer(BufferDescriptor {
            size: 16,
            usage: BufferUsage::Vertex,
        })
        .unwrap();
    let texture = device
        .create_texture(TextureDescriptor {
            width: 2,
            height: 2,
            format: TextureFormat::Rgba8,
        })
        .unwrap();

    let mut commands = CommandList::default();
    commands.write_buffer(buffer, 4, vec![1, 2, 3]);
    commands.write_texture(texture, 2, 2, vec![255; 16]);
    device.submit(commands).unwrap();

    assert_eq!(buffer.value(), 1);
    assert_eq!(texture.value(), 2);
    assert_eq!(device.submitted().len(), 1);
    assert!(matches!(
        &device.submitted()[0].commands()[0],
        Command::WriteBuffer { offset: 4, .. }
    ));
}

#[test]
fn mock_graphics_device_validates_resource_lifecycle_and_command_order() {
    let mut mock = MockGraphicsDevice::default();
    let texture = mock
        .create_texture(TextureDescriptor {
            width: 1,
            height: 1,
            format: TextureFormat::Rgba8,
        })
        .unwrap();
    let mut commands = CommandList::default();
    commands.write_texture(texture, 1, 1, vec![0, 0, 0, 255]);
    commands.draw_texture(texture, 0, 0, 1, 1, 1.0f32.to_bits());
    commands.present();

    mock.submit(commands).unwrap();
    assert_eq!(mock.submitted().len(), 1);

    mock.destroy_texture(texture);
    let mut stale_draw = CommandList::default();
    stale_draw.draw_texture(texture, 0, 0, 1, 1, 1.0f32.to_bits());
    stale_draw.present();
    assert_eq!(mock.submit(stale_draw), Err(DeviceError::InvalidResource));
}

#[test]
fn mock_graphics_device_rejects_out_of_bounds_writes_and_commands_after_present() {
    let mut mock = MockGraphicsDevice::default();
    let buffer = mock
        .create_buffer(BufferDescriptor {
            size: 4,
            usage: BufferUsage::Vertex,
        })
        .unwrap();
    let texture = mock
        .create_texture(TextureDescriptor {
            width: 1,
            height: 1,
            format: TextureFormat::Rgba8,
        })
        .unwrap();

    let mut out_of_bounds = CommandList::default();
    out_of_bounds.write_buffer(buffer, 2, vec![0; 3]);
    assert_eq!(mock.submit(out_of_bounds), Err(DeviceError::InvalidResource));

    let mut after_present = CommandList::default();
    after_present.present();
    after_present.draw_texture(texture, 0, 0, 1, 1, 1.0f32.to_bits());
    assert_eq!(mock.submit(after_present), Err(DeviceError::UnsupportedCommand));
}

#[test]
fn mock_graphics_device_rejects_opacity_outside_the_unit_interval() {
    let mut mock = MockGraphicsDevice::default();
    let texture = mock
        .create_texture(TextureDescriptor {
            width: 1,
            height: 1,
            format: TextureFormat::Rgba8,
        })
        .unwrap();
    let mut too_opaque = CommandList::default();
    too_opaque.draw_texture(texture, 0, 0, 1, 1, 1.5f32.to_bits());
    let mut negative_zero = CommandList::default();
    negative_zero.draw_texture(texture, 0, 0, 1, 1, (-0.0f32).to_bits());

    assert_eq!(mock.submit(too_opaque), Err(DeviceError::InvalidResource));
    assert_eq!(mock.submit(negative_zero), Ok(()));
    let mut not_a_number = CommandList::default();
    not_a_number.draw_texture(texture, 0, 0, 1, 1, f32::NAN.to_bits());
    assert_eq!(mock.submit(not_a_number), Err(DeviceError::InvalidResource));
}

#[test]
fn texture_cache_uploads_only_new_revisions_and_reuses_same_dimensions() {
    let mut device = MockGraphicsDevice::default();
    let mut cache = TextureResourceCache::new();
    let first = ImageUpdate::new(ImageId::new(7), ImageRevision::new(1), 1, 1, vec![1, 2, 3, 255])
        .unwrap();
    let newer = ImageUpdate::new(ImageId::new(7), ImageRevision::new(2), 1, 1, vec![4, 5, 6, 255])
        .unwrap();

    assert_eq!(cache.upload_updates(&mut device, &[first.clone()]).unwrap(), 1);
    let handle = cache.handle(ImageId::new(7));
    assert_eq!(cache.upload_updates(&mut device, &[first]).unwrap(), 0);
    assert_eq!(cache.upload_updates(&mut device, &[newer]).unwrap(), 1);
    assert_eq!(cache.handle(ImageId::new(7)), handle);
    assert_eq!(device.submitted().len(), 2);
}

#[test]
fn texture_cache_keeps_old_texture_when_replacement_creation_fails() {
    let image = ImageId::new(18);
    let mut device = MockGraphicsDevice::default();
    let mut cache = TextureResourceCache::new();
    let first = ImageUpdate::new(image, ImageRevision::new(1), 1, 1, vec![1, 2, 3, 255]).unwrap();
    cache.upload_updates(&mut device, &[first]).unwrap();
    let old_handle = cache.handle(image).unwrap();

    device.fail_next_texture_creation();
    let resized = ImageUpdate::new(
        image,
        ImageRevision::new(2),
        2,
        1,
        vec![4, 5, 6, 255, 7, 8, 9, 255],
    )
    .unwrap();

    assert_eq!(
        cache.upload_updates(&mut device, &[resized]),
        Err(DeviceError::InvalidResource)
    );
    assert_eq!(cache.handle(image), Some(old_handle));
    assert!(device.has_texture(old_handle));
}

#[test]
fn texture_cache_keeps_old_texture_when_replacement_upload_fails() {
    let image = ImageId::new(19);
    let mut device = MockGraphicsDevice::default();
    let mut cache = TextureResourceCache::new();
    let first = ImageUpdate::new(image, ImageRevision::new(1), 1, 1, vec![1, 2, 3, 255]).unwrap();
    cache.upload_updates(&mut device, &[first]).unwrap();
    let old_handle = cache.handle(image).unwrap();
    device.fail_next_submission();
    let resized = ImageUpdate::new(
        image,
        ImageRevision::new(2),
        2,
        1,
        vec![4, 5, 6, 255, 7, 8, 9, 255],
    )
    .unwrap();

    assert_eq!(
        cache.upload_updates(&mut device, &[resized]),
        Err(DeviceError::UnsupportedCommand)
    );
    assert_eq!(cache.handle(image), Some(old_handle));
    assert!(device.has_texture(old_handle));
    assert_eq!(device.texture_count(), 1);
}

#[test]
fn texture_cache_eviction_drops_the_entry_and_its_texture() {
    let image = ImageId::new(3);
    let mut device = MockGraphicsDevice::default();
    let mut cache = TextureResourceCache::new();
    let update = ImageUpdate::new(image, ImageRevision::new(1), 1, 1, vec![1, 2, 3, 255]).unwrap();
    cache.upload_updates(&mut device, &[update]).unwrap();
    let handle = cache.handle(image).unwrap();

    cache.evict(&mut device, &[image]);

    assert_eq!(cache.handle(image), None);
    assert!(!device.has_texture(handle));
}

#[test]
fn gpu_target_forwards_resize_to_the_graphics_device() {
    let mut target = GpuRenderTarget::new(MockGraphicsDevice::default(), Viewport::new(2, 1));
    let viewport = Viewport::new(640, 480);

    target.resize(viewport).unwrap();

    assert_eq!(target.device().resized(), &[viewport]);
}

#[test]
fn gpu_target_uploads_each_revision_once_and_submits_draw_commands() {
    let viewport = Viewport::new(2, 1);
    let mut target = GpuRenderTarget::new(MockGraphicsDevice::default(), viewport);
    let update =
        ImageUpdate::new(ImageId::new(1), ImageRevision::new(1), 1, 1, vec![10, 20, 30, 255])
            .unwrap();
    target.update_images(&[update.clone()]).unwrap();
    target.update_images(&[update]).unwrap();

    let frame = RenderFrame::new(0, viewport).with_tile(
        TileDraw::new(ImageId::new(1), ImageRevision::new(1), 0)
            .with_destination(Rect::new(1, 0, 1, 1)),
    );
    target.render(&frame).unwrap();

    assert_eq!(target.device().submitted().len(), 2);
    assert!(matches!(
        target.device().submitted()[1].commands()[0],
        Command::DrawTexture { x: 1, y: 0, .. }
    ));
    assert!(matches!(
        target.device().submitted()[1].commands()[1],
        Command::Present
    ));
}

#[test]
fn gpu_target_rejects_frames_with_unknown_images() {
    let viewport = Viewport::new(1, 1);
    let mut target = GpuRenderTarget::new(MockGraphicsDevice::default(), viewport);
    let frame = RenderFrame::new(0, viewport).with_tile(TileDraw::new(
        ImageId::new(99),
        ImageRevision::new(1),
        0,
    ));

    assert!(target.render(&frame).is_err());
    assert!(target.device().submitted().is_empty());
}

#[test]
fn gpu_target_evicts_images_after_they_leave_the_frame() {
    let viewport = Viewport::new(2, 1);
    let mut target = GpuRenderTarget::new(MockGraphicsDevice::default(), viewport);
    let visible = ImageId::new(21);
    let stale = ImageId::new(22);
    let updates = [
        ImageUpdate::new(visible, ImageRevision::new(1), 1, 1, vec![1, 2, 3, 255]).unwrap(),
        ImageUpdate::new(stale, ImageRevision::new(1), 1, 1, vec![4, 5, 6, 255]).unwrap(),
    ];
    target.update_images(&updates).unwrap();
    let frame = RenderFrame::new(1, viewport).with_tile(
        TileDraw::new(visible, ImageRevision::new(1), 0).with_destination(Rect::new(0, 0, 1, 1)),
    );

    target.render(&frame).unwrap();

    assert!(target.textures().handle(visible).is_some());
    assert!(target.textures().handle(stale).is_none());
}

#[test]
fn rejects_draw_and_present_until_the_render_target_owns_presentation() {
    let mut uploads = CommandList::default();
    uploads.write_texture(TextureHandle::new(1), 1, 1, vec![0, 0, 0, 255]);
    assert_eq!(validate_commands(&uploads), Ok(()));

    let mut commands = CommandList::default();
    commands.draw_texture(TextureHandle::new(1), 0, 0, 1, 1, 1.0f32.to_bits());
    commands.present();

    assert_eq!(
        validate_commands(&commands),
        Err(DeviceError::UnsupportedCommand)
    );
}

#[test]
fn moving_an_image_reuses_its_texture_and_only_changes_draw_coordinates() {
    let viewport = Viewport::new(8, 4);
    let mut target = GpuRenderTarget::new(MockGraphicsDevice::default(), viewport);
    let update = ImageUpdate::new(
        ImageId::new(4),
        ImageRevision::new(1),
        2,
        1,
        vec![10, 20, 30, 255, 40, 50, 60, 255],
    )
    .unwrap();
    target.update_images(&[update.clone()]).unwrap();
    let first = RenderFrame::new(1, viewport).with_tile(
        TileDraw::new(ImageId::new(4), ImageRevision::new(1), 0)
            .with_destination(Rect::new(1, 1, 2, 1)),
    );
    target.render(&first).unwrap();

    target.update_images(&[update]).unwrap();
    let moved = RenderFrame::new(2, viewport).with_tile(
        TileDraw::new(ImageId::new(4), ImageRevision::new(1), 0)
            .with_destination(Rect::new(5, 2, 2, 1)),
    );
    target.render(&moved).unwrap();

    let submissions = target.device().submitted();
    assert_eq!(submissions.len(), 3);
    let Command::WriteTexture { texture, .. } = submissions[0].commands()[0] else {
        panic!("first submission must upload the image")
    };
    assert!(submissions[1]
        .commands()
        .iter()
        .all(|command| !matches!(command, Command::WriteTexture { .. })));
    let Command::DrawTexture {
        texture: first_texture,
        x: 1,
        y: 1,
        ..
    } = submissions[1].commands()[0]
    else {
        panic!("first frame must draw at its initial destination")
    };
    let Command::DrawTexture {
        texture: moved_texture,
        x: 5,
        y: 2,
        ..
    } = submissions[2].commands()[0]
    else {
        panic!("moved frame must update only the draw destination")
    };
    assert_eq!(texture, first_texture);
    assert_eq!(texture, moved_texture);
}

#[test]
fn texture_cache_submits_one_list_of_writes_and_releases_replaced_textures() {
    let image = ImageId::new(5);
    let mut device = MockGraphicsDevice::default();
    let mut cache = TextureResourceCache::new();
    let first = ImageUpdate::new(image, ImageRevision::new(1), 1, 1, vec![1, 2, 3, 255]).unwrap();
    assert_eq!(cache.upload_updates(&mut device, &[first]), Ok(1));
    let old_handle = cache.handle(image).unwrap();
    assert!(device.has_texture(old_handle));
    assert_eq!(device.submitted().len(), 1);

    let resized =
        ImageUpdate::new(image, ImageRevision::new(2), 2, 1, vec![4, 5, 6, 255, 7, 8, 9, 255])
            .unwrap();
    assert_eq!(cache.upload_updates(&mut device, &[resized]), Ok(1));
    let new_handle = cache.handle(image).unwrap();

    assert_ne!(new_handle, old_handle);
    assert!(device.has_texture(new_handle));
    assert!(!device.has_texture(old_handle));
    assert_eq!(device.texture_count(), 1);
    assert_eq!(device.submitted().len(), 2);
    assert_eq!(device.submitted()[1].commands().len(), 1);
    assert!(matches!(
        device.submitted()[1].commands()[0],
        Command::WriteTexture { texture, width: 2, height: 1, .. } if texture == new_handle
    ));
}

#[test]
fn a_frame_submits_its_draws_and_then_presents() {
    let viewport = Viewport::new(4, 4);
    let mut target = GpuRenderTarget::new(MockGraphicsDevice::default(), viewport);
    let update =
        ImageUpdate::new(ImageId::new(2), ImageRevision::new(1), 1, 1, vec![1, 2, 3, 255]).unwrap();
    target.update_images(&[update]).unwrap();
    let frame = RenderFrame::new(0, viewport).with_tile(
        TileDraw::new(ImageId::new(2), ImageRevision::new(1), 0)
            .with_destination(Rect::new(1, 2, 3, 1)),
    );

    target.render(&frame).unwrap();

    let commands = target.device().submitted()[1].commands();
    assert_eq!(commands.len(), 2);
    assert!(matches!(commands[0], Command::DrawTexture { x: 1, y: 2, width: 3, height: 1, .. }));
    assert!(matches!(commands[1], Command::Present));
}

#[test]
fn texture_cache_creates_each_texture_with_the_image_size() {
    let image = ImageId::new(21);
    let mut device = MockGraphicsDevice::default();
    let mut cache = TextureResourceCache::new();
    let wide = ImageUpdate::new(image, ImageRevision::new(1), 2, 1, vec![1, 2, 3, 255, 4, 5, 6, 255])
        .unwrap();
    assert_eq!(cache.upload_updates(&mut device, &[wide]), Ok(1));
    let first_handle = cache.handle(image).unwrap();
    assert_eq!(
        device.texture_descriptor(first_handle),
        Some(TextureDescriptor { width: 2, height: 1, format: TextureFormat::Rgba8 })
    );

    let tall = ImageUpdate::new(image, ImageRevision::new(2), 1, 2, vec![7, 8, 9, 255, 1, 1, 1, 255])
        .unwrap();
    assert_eq!(cache.upload_updates(&mut device, &[tall]), Ok(1));
    let second_handle = cache.handle(image).unwrap();
    assert_eq!(
        device.texture_descriptor(second_handle),
        Some(TextureDescriptor { width: 1, height: 2, format: TextureFormat::Rgba8 })
    );
    assert_eq!(device.texture_descriptor(first_handle), None);
}

#[test]
fn texture_cache_keeps_the_first_handle_after_a_failed_replacement() {
    let image = ImageId::new(18);
    let mut device = MockGraphicsDevice::default();
    let mut cache = TextureResourceCache::new();
    let first = ImageUpdate::new(image, ImageRevision::new(1), 1, 1, vec![1, 2, 3, 255]).unwrap();
    assert_eq!(cache.upload_updates(&mut device, &[first]), Ok(1));
    assert_eq!(cache.handle(image), Some(TextureHandle::new(1)));

    device.fail_next_texture_creation();
    let resized =
        ImageUpdate::new(image, ImageRevision::new(2), 2, 1, vec![4, 5, 6, 255, 7, 8, 9, 255])
            .unwrap();
    assert_eq!(cache.upload_updates(&mut device, &[resized]), Err(DeviceError::InvalidResource));
    assert_eq!(cache.handle(image), Some(TextureHandle::new(1)));
    assert!(device.has_texture(TextureHandle::new(1)));
    assert_eq!(device.texture_count(), 1);
}

#[test]
fn texture_cache_eviction_of_uncached_images_leaves_the_device_alone() {
    let mut device = MockGraphicsDevice::default();
    let mut cache = TextureResourceCache::new();
    let update =
        ImageUpdate::new(ImageId::new(4), ImageRevision::new(1), 1, 1, vec![1, 2, 3, 255]).unwrap();
    cache.upload_updates(&mut device, &[update]).unwrap();
    let handle = cache.handle(ImageId::new(4)).unwrap();

    cache.evict(&mut device, &[ImageId::new(9), ImageId::new(10)]);

    assert_eq!(cache.handle(ImageId::new(4)), Some(handle));
    assert!(device.has_texture(handle));
    assert_eq!(device.texture_count(), 1);
}

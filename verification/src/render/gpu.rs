//! Backend-independent GPU render target.
use vstd::prelude::*;

use super::device::{
    agrees, cached_handles, descriptors_after_upload, destroy_calls, evict_calls,
    failed_upload_calls, image_values, initial_stage,
    new_texture_descriptors, renewal_books, renewed, replacement_count, stage_updates,
    upload_calls, upload_count, upload_writes, CachedTexture, Command, CommandList, DeviceCall,
    DeviceError, GraphicsDevice, TextureHandle, TextureResourceCache,
};
use super::{
    FrameOutcome, ImageId, ImageUpdate, OverlayPrimitive, RenderCapabilities, RenderError,
    RenderFrame, RenderTarget, SurfaceFailure, TargetCall, TileDraw, Viewport, frame_draws,
};

verus! {

/// The identities of the images a frame draws, in draw order.
pub open spec fn frame_images(frame: RenderFrame) -> Seq<ImageId> {
    frame_draws(frame).map_values(|tile: TileDraw| tile.image_spec())
}

/// Whether every image the frame draws has a texture in `cache`.
pub open spec fn all_images_known(frame: RenderFrame, cache: Map<u64, super::device::CachedTexture>) -> bool {
    forall|i: int| 0 <= i < frame_draws(frame).len() ==> cache.contains_key(
        #[trigger] frame_draws(frame)[i].image_spec()@,
    )
}

/// The draw of `tile` with the texture `cache` holds for its image.
pub open spec fn draw_command(tile: TileDraw, cache: Map<u64, CachedTexture>) -> Command {
    let destination = tile.destination_spec();
    Command::DrawTexture {
        texture: cache[tile.image_spec()@].handle,
        x: destination.x,
        y: destination.y,
        width: destination.width,
        height: destination.height,
        opacity_bits: tile.opacity_spec(),
    }
}

/// The commands that draw `frame`: its tiles and then its overlays, each
/// with its cached texture, followed by the presentation.
pub open spec fn frame_commands(frame: RenderFrame, cache: Map<u64, CachedTexture>) -> Seq<Command> {
    frame_draws(frame).map_values(|tile: TileDraw| draw_command(tile, cache)).push(Command::Present)
}

/// A render target that owns resource identity and frame command generation;
/// the concrete graphics API remains behind `GraphicsDevice`.
pub struct GpuRenderTarget<D> {
    device: D,
    viewport: Viewport,
    textures: TextureResourceCache,
    calls: Ghost<Seq<TargetCall>>,
}

impl<D> GpuRenderTarget<D> {
    pub closed spec fn device_spec(&self) -> D {
        self.device
    }

    pub closed spec fn viewport_spec(&self) -> Viewport {
        self.viewport
    }

    pub closed spec fn textures_spec(&self) -> Map<u64, super::device::CachedTexture> {
        self.textures@
    }

    /// The calls the target was handed, with its answers.
    pub closed spec fn calls_spec(&self) -> Seq<TargetCall> {
        self.calls@
    }

    pub fn new(device: D, viewport: Viewport) -> (target: Self)
        ensures
            target.device_spec() == device,
            target.viewport_spec() == viewport,
            target.textures_spec() == Map::<u64, super::device::CachedTexture>::empty(),
            target.calls_spec() == Seq::<TargetCall>::empty(),
    {
        Self { device, viewport, textures: TextureResourceCache::new(), calls: Ghost(Seq::empty()) }
    }

    pub fn device(&self) -> (device: &D)
        ensures
            *device == self.device_spec(),
    {
        &self.device
    }

    pub fn device_mut(&mut self) -> (device: &mut D)
        ensures
            *device == old(self).device_spec(),
            final(self).device_spec() == *final(device),
            final(self).viewport_spec() == old(self).viewport_spec(),
            final(self).textures_spec() == old(self).textures_spec(),
            final(self).calls_spec() == old(self).calls_spec(),
    {
        &mut self.device
    }

    pub fn textures(&self) -> (textures: &TextureResourceCache)
        ensures
            textures@ == self.textures_spec(),
    {
        &self.textures
    }
}

impl<D: GraphicsDevice> GpuRenderTarget<D> {
    /// The tile behind an overlay.
    fn overlay_tile(overlay: &OverlayPrimitive) -> (tile: &TileDraw)
        ensures
            *tile == match *overlay {
                OverlayPrimitive::Image(tile) => tile,
            },
    {
        match overlay {
            OverlayPrimitive::Image(tile) => tile,
        }
    }

    /// Appends a draw of `tile` with its cached texture, or reports that the
    /// texture is missing.
    fn record_draw(&self, commands: &mut CommandList, tile: &TileDraw) -> (known: bool)
        ensures
            known == self.textures@.contains_key(tile.image_spec()@),
            final(commands).commands_spec() == if known {
                old(commands).commands_spec().push(draw_command(*tile, self.textures@))
            } else {
                old(commands).commands_spec()
            },
    {
        match self.textures.handle(tile.image()) {
            Some(texture) => {
                let destination = tile.destination();
                commands.draw_texture(
                    texture,
                    destination.x,
                    destination.y,
                    destination.width,
                    destination.height,
                    tile.opacity_bits(),
                );
                true
            },
            None => false,
        }
    }
}

impl<D: GraphicsDevice> RenderTarget for GpuRenderTarget<D> {
    closed spec fn calls(&self) -> Seq<TargetCall> {
        self.calls@
    }

    fn capabilities(&self) -> (capabilities: RenderCapabilities)
        ensures
            capabilities == (RenderCapabilities {
                partial_image_updates: true,
                persistent_resources: true,
            }),
    {
        RenderCapabilities { partial_image_updates: true, persistent_resources: true }
    }

    /// Resizes the device; the target takes the new viewport only when the
    /// device accepts it.
    fn resize(&mut self, viewport: Viewport) -> (result: Result<(), RenderError>)
        ensures
            final(self).viewport_spec() == if result is Ok {
                viewport
            } else {
                old(self).viewport_spec()
            },
            final(self).textures_spec() == old(self).textures_spec(),
            final(self).device_spec().live_textures() == old(self).device_spec().live_textures(),
            final(self).device_spec().texture_descriptors()
                == old(self).device_spec().texture_descriptors(),
            final(self).device_spec().submitted() == old(self).device_spec().submitted(),
            final(self).device_spec().resize_log() == if result is Ok {
                old(self).device_spec().resize_log().push(viewport)
            } else {
                old(self).device_spec().resize_log()
            },
            result is Err ==> result == Err::<(), RenderError>(
                RenderError::BackendUnavailable("GPU resize failed"),
            ),
            exists|answer: Result<(), DeviceError>|
                {
                    &&& (answer is Ok <==> result is Ok)
                    &&& final(self).device_spec().device_calls()
                        == old(self).device_spec().device_calls().push(
                        DeviceCall::Resize(viewport, answer),
                    )
                },
    {
        match self.device.resize(viewport) {
            Ok(()) => {},
            Err(_) => {
                let result = Err(RenderError::BackendUnavailable("GPU resize failed"));
                self.calls = Ghost(self.calls@.push(TargetCall::Resize(viewport, result)));
                return result;
            },
        }
        self.viewport = viewport;
        let result = Ok(());
        self.calls = Ghost(self.calls@.push(TargetCall::Resize(viewport, result)));
        result
    }

    /// Uploads the updates through the texture cache; a failed upload leaves
    /// the cache as it was. Updates that are all stale need no device call
    /// and always succeed.
    fn update_images(&mut self, updates: &[ImageUpdate]) -> (result: Result<(), RenderError>)
        ensures
            match result {
                Ok(()) => {
                    let staged = stage_updates(initial_stage(old(self).textures_spec()), updates@);
                    &&& agrees(
                        final(self).textures_spec(),
                        staged,
                        old(self).device_spec().live_textures(),
                    )
                    &&& final(self).device_spec().live_textures()
                        == old(self).device_spec().live_textures().union(
                        cached_handles(final(self).textures_spec(), renewed(staged)),
                    ).difference(cached_handles(old(self).textures_spec(), renewed(staged)))
                    &&& descriptors_after_upload(
                        old(self).device_spec().texture_descriptors(),
                        final(self).device_spec().texture_descriptors(),
                        old(self).textures_spec(),
                        staged,
                        final(self).textures_spec(),
                    )
                    &&& upload_count(initial_stage(old(self).textures_spec()), updates@) == 0
                        ==> final(self).device_spec().submitted()
                        == old(self).device_spec().submitted()
                    &&& upload_count(initial_stage(old(self).textures_spec()), updates@) > 0 ==> {
                        &&& final(self).device_spec().submitted().drop_last()
                            == old(self).device_spec().submitted()
                        &&& final(self).device_spec().submitted().len()
                            == old(self).device_spec().submitted().len() + 1
                        &&& upload_writes(
                            initial_stage(old(self).textures_spec()),
                            updates@,
                            final(self).device_spec().submitted().last().commands_spec(),
                            old(self).device_spec().live_textures(),
                        )
                    }
                    &&& exists|created: Seq<TextureHandle>, replaced: Seq<TextureHandle>|
                        {
                            &&& created.len() == new_texture_descriptors(
                                initial_stage(old(self).textures_spec()),
                                updates@,
                            ).len()
                            &&& replaced.len() == replacement_count(
                                initial_stage(old(self).textures_spec()),
                                updates@,
                            )
                            &&& renewal_books(
                                old(self).textures_spec(),
                                staged,
                                final(self).textures_spec(),
                                created,
                                replaced,
                            )
                            &&& final(self).device_spec().device_calls()
                                == old(self).device_spec().device_calls() + upload_calls(
                                new_texture_descriptors(
                                    initial_stage(old(self).textures_spec()),
                                    updates@,
                                ),
                                created,
                                final(self).device_spec().submitted().skip(
                                    old(self).device_spec().submitted().len() as int,
                                ),
                                replaced,
                            )
                        }
                },
                Err(error) => {
                    &&& error == RenderError::BackendUnavailable("GPU image update failed")
                    &&& final(self).textures_spec() == old(self).textures_spec()
                    &&& final(self).device_spec().live_textures()
                        == old(self).device_spec().live_textures()
                    &&& final(self).device_spec().texture_descriptors()
                        == old(self).device_spec().texture_descriptors()
                    &&& final(self).device_spec().submitted() == old(self).device_spec().submitted()
                    &&& exists|
                        created: Seq<TextureHandle>,
                        calls: Seq<DeviceCall>,
                        refusal: DeviceError,
                    |
                        {
                            &&& final(self).device_spec().device_calls()
                                == old(self).device_spec().device_calls() + calls
                            &&& failed_upload_calls(
                                initial_stage(old(self).textures_spec()),
                                updates@,
                                old(self).device_spec().live_textures(),
                                created,
                                refusal,
                                calls,
                            )
                        }
                },
            },
            final(self).device_spec().resize_log() == old(self).device_spec().resize_log(),
            upload_count(initial_stage(old(self).textures_spec()), updates@) == 0 ==> result is Ok,
            final(self).viewport_spec() == old(self).viewport_spec(),
    {
        let result = match self.textures.upload_updates(&mut self.device, updates) {
            Ok(_) => Ok(()),
            Err(_) => Err(RenderError::BackendUnavailable("GPU image update failed")),
        };
        self.calls = Ghost(self.calls@.push(TargetCall::UpdateImages(updates@, result)));
        result
    }

    /// Draws every tile and overlay with its cached texture and presents;
    /// afterwards only the textures of the frame's images stay cached.
    fn render(&mut self, frame: &RenderFrame) -> (result: Result<FrameOutcome, RenderError>)
        ensures
            frame.viewport_spec() != old(self).viewport_spec() ==> result == Err::<
                FrameOutcome,
                RenderError,
            >(RenderError::InvalidFrame("frame viewport differs from target viewport")),
            frame.viewport_spec() == old(self).viewport_spec() && !all_images_known(
                *frame,
                old(self).textures_spec(),
            ) ==> result == Err::<FrameOutcome, RenderError>(
                RenderError::InvalidFrame("frame references an unknown image"),
            ),
            result is Err ==> final(self).textures_spec() == old(self).textures_spec(),
            frame.viewport_spec() == old(self).viewport_spec() && all_images_known(
                *frame,
                old(self).textures_spec(),
            ) ==> (result is Ok || result == Err::<FrameOutcome, RenderError>(
                RenderError::BackendUnavailable("GPU command submission failed"),
            )),
            match result {
                Ok(outcome) => {
                    &&& outcome.submitted_spec()
                    &&& final(self).textures_spec() == old(self).textures_spec().restrict(
                        image_values(frame_images(*frame)),
                    )
                    &&& final(self).device_spec().submitted().len()
                        == old(self).device_spec().submitted().len() + 1
                    &&& final(self).device_spec().submitted().drop_last()
                        == old(self).device_spec().submitted()
                    &&& final(self).device_spec().submitted().last().commands_spec()
                        == frame_commands(*frame, old(self).textures_spec())
                    &&& final(self).device_spec().live_textures()
                        == old(self).device_spec().live_textures().difference(
                        cached_handles(
                            old(self).textures_spec(),
                            old(self).textures_spec().dom().difference(
                                image_values(frame_images(*frame)),
                            ),
                        ),
                    )
                },
                Err(_) => {
                    &&& final(self).device_spec().submitted() == old(self).device_spec().submitted()
                    &&& final(self).device_spec().live_textures()
                        == old(self).device_spec().live_textures()
                },
            },
            result is Ok ==> exists|order: Seq<u64>|
                {
                    &&& order.no_duplicates()
                    &&& order.to_set() == old(self).textures_spec().dom().difference(
                        image_values(frame_images(*frame)),
                    )
                    &&& final(self).device_spec().device_calls()
                        == old(self).device_spec().device_calls().push(
                        DeviceCall::Submit(final(self).device_spec().submitted().last(), Ok(())),
                    ) + destroy_calls(old(self).textures_spec(), order)
                },
            result == Err::<FrameOutcome, RenderError>(
                RenderError::BackendUnavailable("GPU command submission failed"),
            ) ==> exists|commands: CommandList, error: DeviceError|
                {
                    &&& commands.commands_spec() == frame_commands(*frame, old(self).textures_spec())
                    &&& final(self).device_spec().device_calls()
                        == old(self).device_spec().device_calls().push(
                        DeviceCall::Submit(commands, Err(error)),
                    )
                },
            result is Err && result != Err::<FrameOutcome, RenderError>(
                RenderError::BackendUnavailable("GPU command submission failed"),
            ) ==> final(self).device_spec().device_calls() == old(self).device_spec().device_calls(),
            final(self).viewport_spec() == old(self).viewport_spec(),
    {
        if frame.viewport() != self.viewport {
            proof {
                frame.viewport_spec().lemma_equal(self.viewport);
            }
            let result = Err(RenderError::InvalidFrame("frame viewport differs from target viewport"));
                self.calls = Ghost(self.calls@.push(TargetCall::Render(*frame, result)));
                return result;
        }
        let tiles = frame.tiles();
        let overlays = frame.overlays();
        let ghost draws = frame_draws(*frame);
        let mut images: Vec<ImageId> = Vec::new();
        let mut commands = CommandList::default();
        let mut index: usize = 0;
        while index < tiles.len()
            invariant
                *self == *old(self),
                frame.viewport_spec() == self.viewport,
                tiles@ == frame.tiles_spec(),
                overlays@ == frame.overlays_spec(),
                draws == frame_draws(*frame),
                index <= tiles@.len(),
                images@ == draws.take(index as int).map_values(|tile: TileDraw| tile.image_spec()),
                commands.commands_spec() == draws.take(index as int).map_values(
                    |tile: TileDraw| draw_command(tile, self.textures@),
                ),
                forall|i: int| 0 <= i < index ==> self.textures@.contains_key(
                    #[trigger] draws[i].image_spec()@,
                ),
            decreases tiles.len() - index,
        {
            let tile = &tiles[index];
            proof {
                assert(draws[index as int] == *tile);
            }
            if !self.record_draw(&mut commands, tile) {
                let result = Err(RenderError::InvalidFrame("frame references an unknown image"));
                self.calls = Ghost(self.calls@.push(TargetCall::Render(*frame, result)));
                return result;
            }
            images.push(tile.image());
            proof {
                assert(draws.take(index + 1) =~= draws.take(index as int).push(*tile));
                assert(images@ =~= draws.take(index + 1).map_values(
                    |tile: TileDraw| tile.image_spec(),
                ));
                assert(commands.commands_spec() =~= draws.take(index + 1).map_values(
                    |tile: TileDraw| draw_command(tile, self.textures@),
                ));
            }
            index = index + 1;
        }
        let mut position: usize = 0;
        while position < overlays.len()
            invariant
                *self == *old(self),
                frame.viewport_spec() == self.viewport,
                tiles@ == frame.tiles_spec(),
                overlays@ == frame.overlays_spec(),
                draws == frame_draws(*frame),
                position <= overlays@.len(),
                images@ == draws.take(tiles@.len() + position).map_values(
                    |tile: TileDraw| tile.image_spec(),
                ),
                commands.commands_spec() == draws.take(tiles@.len() + position).map_values(
                    |tile: TileDraw| draw_command(tile, self.textures@),
                ),
                forall|i: int| 0 <= i < tiles@.len() + position ==> self.textures@.contains_key(
                    #[trigger] draws[i].image_spec()@,
                ),
            decreases overlays.len() - position,
        {
            let tile = Self::overlay_tile(&overlays[position]);
            proof {
                assert(draws[tiles@.len() + position] == *tile);
            }
            if !self.record_draw(&mut commands, tile) {
                let result = Err(RenderError::InvalidFrame("frame references an unknown image"));
                self.calls = Ghost(self.calls@.push(TargetCall::Render(*frame, result)));
                return result;
            }
            images.push(tile.image());
            proof {
                assert(draws.take(tiles@.len() + position + 1) =~= draws.take(
                    tiles@.len() + position,
                ).push(*tile));
                assert(images@ =~= draws.take(tiles@.len() + position + 1).map_values(
                    |tile: TileDraw| tile.image_spec(),
                ));
                assert(commands.commands_spec() =~= draws.take(tiles@.len() + position + 1).map_values(
                    |tile: TileDraw| draw_command(tile, self.textures@),
                ));
            }
            position = position + 1;
        }
        proof {
            assert(draws.take(draws.len() as int) =~= draws);
            assert(draws.len() == tiles@.len() + overlays@.len());
        }
        commands.present();
        let ghost sent = commands;
        let ghost calls_before = self.device.device_calls();
        let answer = self.device.submit(commands);
        match answer {
            Ok(accepted) => {
                proof {
                    assert(accepted == ());
                    assert(self.device.device_calls() == calls_before.push(
                        DeviceCall::Submit(sent, Ok(())),
                    ));
                }
            },
            Err(error) => {
                proof {
                    assert(self.device.device_calls() == calls_before.push(
                        DeviceCall::Submit(sent, Err(error)),
                    ));
                    assert(sent.commands_spec() == frame_commands(*frame, old(self).textures_spec()));
                    assert(calls_before == old(self).device_spec().device_calls());
                    assert(exists|commands: CommandList, failure: DeviceError|
                        {
                            &&& commands.commands_spec() == frame_commands(
                                *frame,
                                old(self).textures_spec(),
                            )
                            &&& self.device.device_calls() == calls_before.push(
                                DeviceCall::Submit(commands, Err(failure)),
                            )
                        });
                }
                let result = Err(RenderError::BackendUnavailable("GPU command submission failed"));
                self.calls = Ghost(self.calls@.push(TargetCall::Render(*frame, result)));
                return result;
            },
        }
        let ghost submitted_calls = self.device.device_calls();
        let ghost cached = self.textures@;
        self.textures.retain_only(&mut self.device, images.as_slice());
        proof {
            let order = choose|order: Seq<u64>|
                {
                    &&& order.no_duplicates()
                    &&& order.to_set() == cached.dom().difference(image_values(images@))
                    &&& self.device.device_calls() == submitted_calls + destroy_calls(cached, order)
                };
            assert(self.device.submitted().last() == sent);
            assert(order.no_duplicates() && order.to_set() == cached.dom().difference(
                image_values(images@),
            ) && self.device.device_calls() == submitted_calls + destroy_calls(cached, order));
        }
        let result = Ok(FrameOutcome::submitted());
        self.calls = Ghost(self.calls@.push(TargetCall::Render(*frame, result)));
        result
    }

    fn evict_images(&mut self, images: &[ImageId])
        ensures
            final(self).textures_spec() == old(self).textures_spec().remove_keys(
                image_values(images@),
            ),
            final(self).device_spec().device_calls() == old(self).device_spec().device_calls()
                + evict_calls(old(self).textures_spec(), images@, images@.len() as int),
            final(self).device_spec().live_textures()
                == old(self).device_spec().live_textures().difference(
                cached_handles(old(self).textures_spec(), image_values(images@)),
            ),
            final(self).device_spec().submitted() == old(self).device_spec().submitted(),
            final(self).viewport_spec() == old(self).viewport_spec(),
    {
        self.textures.evict(&mut self.device, images);
        self.calls = Ghost(self.calls@.push(TargetCall::EvictImages(images@)));
    }

    fn recover(&mut self, reason: SurfaceFailure) -> (result: Result<(), RenderError>)
        ensures
            result is Ok,
            final(self).textures_spec() == old(self).textures_spec(),
            final(self).viewport_spec() == old(self).viewport_spec(),
    {
        let result = Ok(());
        self.calls = Ghost(self.calls@.push(TargetCall::Recover(reason, result)));
        result
    }
}

/// Every device failure is reported as an unavailable backend.
pub fn map_device_error(error: DeviceError) -> (mapped: RenderError)
    ensures
        mapped == RenderError::BackendUnavailable("GPU operation failed"),
{
    RenderError::BackendUnavailable("GPU operation failed")
}

} // verus!

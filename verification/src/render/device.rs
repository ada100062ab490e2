//! Graphics-device resources, command lists, and the texture cache that keeps
//! one texture per image.
use std::collections::HashMap;
use vstd::prelude::*;

use super::{unit_interval_bits, ImageId, ImageRevision, ImageUpdate, Viewport};

verus! {

broadcast use vstd::std_specs::hash::group_hash_axioms;

#[derive(Debug, Clone, Copy, PartialEq, Eq, Hash, Structural)]
pub struct BufferHandle(u64);

impl View for BufferHandle {
    type V = u64;

    closed spec fn view(&self) -> u64 {
        self.0
    }
}

impl BufferHandle {
    pub fn new(value: u64) -> (handle: Self)
        ensures
            handle@ == value,
    {
        Self(value)
    }

    pub fn value(self) -> (value: u64)
        ensures
            value == self@,
    {
        self.0
    }
}

#[derive(Debug, Clone, Copy, PartialEq, Eq, Hash, Structural)]
pub struct TextureHandle(u64);

impl View for TextureHandle {
    type V = u64;

    closed spec fn view(&self) -> u64 {
        self.0
    }
}

impl TextureHandle {
    pub fn new(value: u64) -> (handle: Self)
        ensures
            handle@ == value,
    {
        Self(value)
    }

    pub fn value(self) -> (value: u64)
        ensures
            value == self@,
    {
        self.0
    }

    /// Two handles are equal exactly when their values are.
    pub proof fn lemma_view_injective(self, other: Self)
        ensures
            self@ == other@ <==> self == other,
    {
    }
}

#[derive(Debug, Clone, Copy, PartialEq, Eq, Structural)]
pub enum BufferUsage {
    Vertex,
    Index,
    Uniform,
}

#[derive(Debug, Clone, Copy, PartialEq, Eq, Structural)]
pub enum TextureFormat {
    Rgba8,
}

#[derive(Debug, Clone, Copy, PartialEq, Eq, Structural)]
pub struct BufferDescriptor {
    pub size: usize,
    pub usage: BufferUsage,
}

#[derive(Debug, Clone, Copy, PartialEq, Eq, Structural)]
pub struct TextureDescriptor {
    pub width: u32,
    pub height: u32,
    pub format: TextureFormat,
}

#[derive(Debug, Clone, Copy, PartialEq, Eq, Structural)]
pub enum DeviceError {
    InvalidResource,
    UnsupportedFormat,
    UnsupportedCommand,
}

/// One recorded GPU command; the opacity of a draw is the bit pattern of a
/// single-precision number.
#[derive(Debug, Clone, PartialEq, Eq)]
pub enum Command {
    WriteBuffer { buffer: BufferHandle, offset: usize, bytes: Vec<u8> },
    WriteTexture { texture: TextureHandle, width: u32, height: u32, bytes: Vec<u8> },
    DrawTexture { texture: TextureHandle, x: i32, y: i32, width: u32, height: u32, opacity_bits: u32 },
    Present,
}

/// Commands in the order the device executes them.
#[derive(Debug, Clone, PartialEq, Eq)]
pub struct CommandList {
    commands: Vec<Command>,
}

impl Default for CommandList {
    fn default() -> (list: Self)
        ensures
            list.commands_spec() == Seq::<Command>::empty(),
    {
        Self { commands: Vec::new() }
    }
}

impl CommandList {
    pub closed spec fn commands_spec(&self) -> Seq<Command> {
        self.commands@
    }

    pub fn write_buffer(&mut self, buffer: BufferHandle, offset: usize, bytes: Vec<u8>)
        ensures
            final(self).commands_spec() == old(self).commands_spec().push(
                Command::WriteBuffer { buffer, offset, bytes },
            ),
    {
        self.commands.push(Command::WriteBuffer { buffer, offset, bytes });
    }

    pub fn write_texture(&mut self, texture: TextureHandle, width: u32, height: u32, bytes: Vec<u8>)
        ensures
            final(self).commands_spec() == old(self).commands_spec().push(
                Command::WriteTexture { texture, width, height, bytes },
            ),
    {
        self.commands.push(Command::WriteTexture { texture, width, height, bytes });
    }

    pub fn commands(&self) -> (commands: &[Command])
        ensures
            commands@ == self.commands_spec(),
    {
        self.commands.as_slice()
    }

    /// Records a draw whose opacity is given as a single-precision bit pattern.
    pub fn draw_texture(
        &mut self,
        texture: TextureHandle,
        x: i32,
        y: i32,
        width: u32,
        height: u32,
        opacity_bits: u32,
    )
        ensures
            final(self).commands_spec() == old(self).commands_spec().push(
                Command::DrawTexture { texture, x, y, width, height, opacity_bits },
            ),
    {
        self.commands.push(Command::DrawTexture { texture, x, y, width, height, opacity_bits });
    }

    pub fn present(&mut self)
        ensures
            final(self).commands_spec() == old(self).commands_spec().push(Command::Present),
    {
        self.commands.push(Command::Present);
    }
}

/// The graphics API behind a render target.
///
/// Every device tracks which textures it holds. A texture it creates is new
/// to it, and only `destroy_texture` releases one.
/// A call a graphics device was handed, with its answer.
pub enum DeviceCall {
    Resize(Viewport, Result<(), DeviceError>),
    CreateBuffer(BufferDescriptor, Result<BufferHandle, DeviceError>),
    CreateTexture(TextureDescriptor, Result<TextureHandle, DeviceError>),
    Submit(CommandList, Result<(), DeviceError>),
    DestroyBuffer(BufferHandle),
    DestroyTexture(TextureHandle),
}

pub trait GraphicsDevice {
    /// The calls the device was handed, oldest first, each with its answer.
    spec fn device_calls(&self) -> Seq<DeviceCall>;

    /// Handles of the textures the device currently holds.
    spec fn live_textures(&self) -> Set<u64>;

    /// The descriptor each held texture was created with, by handle.
    spec fn texture_descriptors(&self) -> Map<u64, TextureDescriptor>;

    /// The command lists the device has accepted, oldest first.
    spec fn submitted(&self) -> Seq<CommandList>;

    /// The viewports the device has been resized to, oldest first.
    spec fn resize_log(&self) -> Seq<Viewport>;

    /// Takes a new viewport; an accepted one is recorded.
    fn resize(&mut self, viewport: Viewport) -> (result: Result<(), DeviceError>)
        ensures
            final(self).live_textures() == old(self).live_textures(),
            final(self).texture_descriptors() == old(self).texture_descriptors(),
            final(self).submitted() == old(self).submitted(),
            final(self).resize_log() == if result is Ok {
                old(self).resize_log().push(viewport)
            } else {
                old(self).resize_log()
            },
            final(self).device_calls() == old(self).device_calls().push(
                DeviceCall::Resize(viewport, result),
            ),
    ;

    fn create_buffer(&mut self, descriptor: BufferDescriptor) -> (result: Result<
        BufferHandle,
        DeviceError,
    >)
        ensures
            final(self).live_textures() == old(self).live_textures(),
            final(self).texture_descriptors() == old(self).texture_descriptors(),
            final(self).submitted() == old(self).submitted(),
            final(self).resize_log() == old(self).resize_log(),
            final(self).device_calls() == old(self).device_calls().push(
                DeviceCall::CreateBuffer(descriptor, result),
            ),
    ;

    /// A new texture made from `descriptor`, under a handle the device did
    /// not hold.
    fn create_texture(&mut self, descriptor: TextureDescriptor) -> (result: Result<
        TextureHandle,
        DeviceError,
    >)
        ensures
            match result {
                Ok(handle) => {
                    &&& !old(self).live_textures().contains(handle@)
                    &&& !old(self).texture_descriptors().contains_key(handle@)
                    &&& final(self).live_textures() == old(self).live_textures().insert(handle@)
                    &&& final(self).texture_descriptors() == old(self).texture_descriptors().insert(
                        handle@,
                        descriptor,
                    )
                },
                Err(_) => {
                    &&& final(self).live_textures() == old(self).live_textures()
                    &&& final(self).texture_descriptors() == old(self).texture_descriptors()
                },
            },
            final(self).submitted() == old(self).submitted(),
            final(self).resize_log() == old(self).resize_log(),
            final(self).device_calls() == old(self).device_calls().push(
                DeviceCall::CreateTexture(descriptor, result),
            ),
    ;

    /// Executes the commands; an accepted list is recorded as submitted.
    fn submit(&mut self, commands: CommandList) -> (result: Result<(), DeviceError>)
        ensures
            final(self).live_textures() == old(self).live_textures(),
            final(self).texture_descriptors() == old(self).texture_descriptors(),
            final(self).submitted() == if result is Ok {
                old(self).submitted().push(commands)
            } else {
                old(self).submitted()
            },
            final(self).resize_log() == old(self).resize_log(),
            final(self).device_calls() == old(self).device_calls().push(
                DeviceCall::Submit(commands, result),
            ),
    ;

    fn destroy_buffer(&mut self, buffer: BufferHandle)
        ensures
            final(self).live_textures() == old(self).live_textures(),
            final(self).texture_descriptors() == old(self).texture_descriptors(),
            final(self).submitted() == old(self).submitted(),
            final(self).resize_log() == old(self).resize_log(),
            final(self).device_calls() == old(self).device_calls().push(
                DeviceCall::DestroyBuffer(buffer),
            ),
    ;

    fn destroy_texture(&mut self, texture: TextureHandle)
        ensures
            final(self).live_textures() == old(self).live_textures().remove(texture@),
            final(self).texture_descriptors() == old(self).texture_descriptors().remove(texture@),
            final(self).submitted() == old(self).submitted(),
            final(self).resize_log() == old(self).resize_log(),
            final(self).device_calls() == old(self).device_calls().push(
                DeviceCall::DestroyTexture(texture),
            ),
    ;
}

/// The texture that currently holds an image, and the revision and size it
/// was uploaded with.
#[derive(Debug, Clone, Copy)]
pub struct CachedTexture {
    pub handle: TextureHandle,
    pub revision: ImageRevision,
    pub dimensions: (u32, u32),
}

/// A cache entry while updates are staged: the texture handle is the one the
/// cache already had (`Some`) or one created during the call (`None`).
pub struct StagedTexture {
    pub handle: Option<u64>,
    pub revision: u64,
    pub dimensions: (u32, u32),
}

/// The cache's entries, before any update is staged.
pub open spec fn initial_stage(cache: Map<u64, CachedTexture>) -> Map<u64, StagedTexture> {
    Map::new(
        |image: u64| cache.contains_key(image),
        |image: u64|
            StagedTexture {
                handle: Some(cache[image].handle@),
                revision: cache[image].revision@,
                dimensions: cache[image].dimensions,
            },
    )
}

/// Whether `update` is uploaded: its image is new to the cache, or it carries
/// a newer revision.
pub open spec fn is_uploaded(staged: Map<u64, StagedTexture>, update: ImageUpdate) -> bool {
    let image = update.image_spec()@;
    !(staged.contains_key(image) && staged[image].revision >= update.revision_spec()@)
}

/// The entries after `update` is staged: an uploaded image keeps its texture
/// when the size is unchanged and gets a new one otherwise.
pub open spec fn stage_update(staged: Map<u64, StagedTexture>, update: ImageUpdate) -> Map<
    u64,
    StagedTexture,
> {
    let image = update.image_spec()@;
    let dimensions = (update.width_spec(), update.height_spec());
    if !is_uploaded(staged, update) {
        staged
    } else if staged.contains_key(image) && staged[image].dimensions == dimensions {
        staged.insert(
            image,
            StagedTexture {
                handle: staged[image].handle,
                revision: update.revision_spec()@,
                dimensions,
            },
        )
    } else {
        staged.insert(
            image,
            StagedTexture { handle: None, revision: update.revision_spec()@, dimensions },
        )
    }
}

/// The entries after every update is staged in order.
pub open spec fn stage_updates(staged: Map<u64, StagedTexture>, updates: Seq<ImageUpdate>) -> Map<
    u64,
    StagedTexture,
>
    decreases updates.len(),
{
    if updates.len() == 0 {
        staged
    } else {
        stage_update(stage_updates(staged, updates.drop_last()), updates.last())
    }
}

/// How many of `updates` are uploaded.
pub open spec fn upload_count(staged: Map<u64, StagedTexture>, updates: Seq<ImageUpdate>) -> nat
    decreases updates.len(),
{
    if updates.len() == 0 {
        0
    } else {
        let before = stage_updates(staged, updates.drop_last());
        upload_count(staged, updates.drop_last()) + if is_uploaded(before, updates.last()) {
            1nat
        } else {
            0nat
        }
    }
}

/// Whether `command` writes `update` to the texture that staging gives it:
/// the texture the image keeps when its size is unchanged, and otherwise a
/// texture that `old_live` did not hold.
pub open spec fn write_matches(
    staged: Map<u64, StagedTexture>,
    update: ImageUpdate,
    command: Command,
    old_live: Set<u64>,
) -> bool {
    let image = update.image_spec()@;
    let dimensions = (update.width_spec(), update.height_spec());
    match command {
        Command::WriteTexture { texture, width, height, bytes } => {
            &&& width == update.width_spec()
            &&& height == update.height_spec()
            &&& bytes@ == update.rgba8_spec()
            &&& if staged.contains_key(image) && staged[image].dimensions == dimensions {
                match staged[image].handle {
                    Some(handle) => texture@ == handle,
                    None => !old_live.contains(texture@),
                }
            } else {
                !old_live.contains(texture@)
            }
        },
        _ => false,
    }
}

/// Whether `commands` are the texture writes of `updates`: one write for
/// each uploaded update, in order, and nothing else.
pub open spec fn upload_writes(
    staged: Map<u64, StagedTexture>,
    updates: Seq<ImageUpdate>,
    commands: Seq<Command>,
    old_live: Set<u64>,
) -> bool
    decreases updates.len(),
{
    if updates.len() == 0 {
        commands.len() == 0
    } else {
        let before = stage_updates(staged, updates.drop_last());
        if is_uploaded(before, updates.last()) {
            &&& commands.len() > 0
            &&& write_matches(before, updates.last(), commands.last(), old_live)
            &&& upload_writes(staged, updates.drop_last(), commands.drop_last(), old_live)
        } else {
            upload_writes(staged, updates.drop_last(), commands, old_live)
        }
    }
}

/// Whether the cache entries `cache` agree with the staged entries: same
/// images, revisions and sizes; a kept texture is the same handle and a new
/// one is a texture that `old_live` did not hold.
pub open spec fn agrees(
    cache: Map<u64, CachedTexture>,
    staged: Map<u64, StagedTexture>,
    old_live: Set<u64>,
) -> bool {
    &&& cache.dom() == staged.dom()
    &&& forall|image: u64|
        #![trigger cache[image]]
        cache.contains_key(image) ==> {
            &&& cache[image].revision@ == staged[image].revision
            &&& cache[image].dimensions == staged[image].dimensions
            &&& match staged[image].handle {
                Some(handle) => cache[image].handle@ == handle,
                None => !old_live.contains(cache[image].handle@),
            }
        }
}

/// The handles in `handles` from position `start` on.
pub open spec fn handles_from(handles: Seq<TextureHandle>, start: int) -> Set<u64> {
    Set::new(|value: u64| exists|j: int| start <= j < handles.len() && handles[j]@ == value)
}

/// After staging, every staged image holds a revision at least as new as
/// each update of it and as its revision before staging.
#[verifier::spinoff_prover]
pub proof fn lemma_staged_revisions_dominate(staged: Map<u64, StagedTexture>, updates: Seq<ImageUpdate>)
    ensures
        forall|i: int|
            #![trigger updates[i]]
            0 <= i < updates.len() ==> stage_updates(staged, updates).contains_key(
                updates[i].image_spec()@,
            ) && stage_updates(staged, updates)[updates[i].image_spec()@].revision
                >= updates[i].revision_spec()@,
        forall|image: u64|
            staged.contains_key(image) ==> #[trigger] stage_updates(staged, updates).contains_key(
                image,
            ) && stage_updates(staged, updates)[image].revision >= staged[image].revision,
    decreases updates.len(),
{
    if updates.len() > 0 {
        let before = updates.drop_last();
        lemma_staged_revisions_dominate(staged, before);
        assert forall|i: int|
            #![trigger updates[i]]
            0 <= i < updates.len() implies stage_updates(staged, updates).contains_key(
                updates[i].image_spec()@,
            ) && stage_updates(staged, updates)[updates[i].image_spec()@].revision
                >= updates[i].revision_spec()@ by {
            if i < updates.len() - 1 {
                assert(before[i] == updates[i]);
            }
        }
        let middle = stage_updates(staged, before);
        assert(stage_updates(staged, updates) == stage_update(middle, updates.last()));
        assert forall|image: u64| staged.contains_key(image) implies #[trigger] stage_updates(
            staged,
            updates,
        ).contains_key(image) && stage_updates(staged, updates)[image].revision
            >= staged[image].revision by {
            assert(middle.contains_key(image) && middle[image].revision >= staged[image].revision);
        }
    }
}

/// Uploading the same updates again after a successful upload uploads
/// nothing and leaves every entry as it is.
pub proof fn lemma_repeated_upload_is_empty(
    cache: Map<u64, CachedTexture>,
    uploaded: Map<u64, CachedTexture>,
    updates: Seq<ImageUpdate>,
    live: Set<u64>,
)
    requires
        agrees(uploaded, stage_updates(initial_stage(cache), updates), live),
    ensures
        upload_count(initial_stage(uploaded), updates) == 0,
        stage_updates(initial_stage(uploaded), updates) == initial_stage(uploaded),
{
    lemma_staged_revisions_dominate(initial_stage(cache), updates);
    lemma_nothing_newer(initial_stage(uploaded), updates);
}

/// Staging updates none of which is newer than what is staged changes
/// nothing and uploads nothing.
proof fn lemma_nothing_newer(staged: Map<u64, StagedTexture>, updates: Seq<ImageUpdate>)
    requires
        forall|i: int|
            #![trigger updates[i]]
            0 <= i < updates.len() ==> staged.contains_key(updates[i].image_spec()@)
                && staged[updates[i].image_spec()@].revision >= updates[i].revision_spec()@,
    ensures
        upload_count(staged, updates) == 0,
        stage_updates(staged, updates) == staged,
    decreases updates.len(),
{
    if updates.len() > 0 {
        let before = updates.drop_last();
        assert forall|i: int|
            #![trigger before[i]]
            0 <= i < before.len() implies staged.contains_key(before[i].image_spec()@)
                && staged[before[i].image_spec()@].revision >= before[i].revision_spec()@ by {
            assert(before[i] == updates[i]);
        }
        lemma_nothing_newer(staged, before);
        assert(updates.last() == updates[updates.len() - 1]);
    }
}

/// A prefix of the updates uploads no more than all of them.
proof fn lemma_upload_count_prefix(staged: Map<u64, StagedTexture>, updates: Seq<ImageUpdate>, k: int)
    requires
        0 <= k <= updates.len(),
    ensures
        upload_count(staged, updates.take(k)) <= upload_count(staged, updates),
    decreases updates.len() - k,
{
    if k == updates.len() {
        assert(updates.take(k) =~= updates);
    } else {
        lemma_upload_count_prefix(staged, updates, k + 1);
        assert(updates.take(k + 1).drop_last() =~= updates.take(k));
    }
}

/// The texture handles that `cache` gives the images in `images`.
pub open spec fn cached_handles(cache: Map<u64, CachedTexture>, images: Set<u64>) -> Set<u64> {
    Set::new(
        |handle: u64|
            exists|image: u64|
                #![trigger cache[image]]
                images.contains(image) && cache.contains_key(image) && cache[image].handle@ == handle,
    )
}

/// Adding an image adds its cached handle, if it has one.
proof fn lemma_cached_handles_insert(cache: Map<u64, CachedTexture>, images: Set<u64>, image: u64)
    ensures
        cached_handles(cache, images.insert(image)) == if cache.contains_key(image) {
            cached_handles(cache, images).insert(cache[image].handle@)
        } else {
            cached_handles(cache, images)
        },
{
    let grown = cached_handles(cache, images.insert(image));
    let target = if cache.contains_key(image) {
        cached_handles(cache, images).insert(cache[image].handle@)
    } else {
        cached_handles(cache, images)
    };
    assert forall|h: u64| grown.contains(h) implies target.contains(h) by {
        let i = choose|i: u64|
            #![trigger cache[i]]
            images.insert(image).contains(i) && cache.contains_key(i) && cache[i].handle@ == h;
        if i != image {
            assert(images.contains(i) && cache.contains_key(i) && cache[i].handle@ == h);
        }
    }
    assert forall|h: u64| target.contains(h) implies grown.contains(h) by {
        if cache.contains_key(image) && h == cache[image].handle@ {
            assert(images.insert(image).contains(image) && cache[image].handle@ == h);
        } else {
            let i = choose|i: u64|
                #![trigger cache[i]]
                images.contains(i) && cache.contains_key(i) && cache[i].handle@ == h;
            assert(images.insert(image).contains(i) && cache[i].handle@ == h);
        }
    }
    assert(grown =~= target);
}

/// The images whose staged entry got a new texture.
pub open spec fn renewed(staged: Map<u64, StagedTexture>) -> Set<u64> {
    Set::new(|image: u64| staged.contains_key(image) && staged[image].handle is None)
}

/// The textures of an upload in progress: `cache` holds the staged entries
/// of `staged`, every kept texture is the one `old` had, each renewed image
/// has its own created texture, every created texture is renewed or
/// dropped, and a dropped texture is the old texture of a renewed image or a
/// created one that nothing holds any more.
pub open spec fn renewal_books(
    old: Map<u64, CachedTexture>,
    staged: Map<u64, StagedTexture>,
    cache: Map<u64, CachedTexture>,
    created: Seq<TextureHandle>,
    replaced: Seq<TextureHandle>,
) -> bool {
    let made = handles_from(created, 0);
    let dropped = handles_from(replaced, 0);
    let fresh = cached_handles(cache, renewed(staged));
    let released = cached_handles(old, renewed(staged));
    &&& cache.dom() == staged.dom()
    &&& forall|i: u64| #[trigger] old.contains_key(i) ==> staged.contains_key(i)
    &&& forall|i: u64|
        #[trigger] staged.contains_key(i) && staged[i].handle is Some ==> old.contains_key(i)
            && cache[i].handle == old[i].handle
    &&& forall|i: u64, j: u64|
        #[trigger] renewed(staged).contains(i) && #[trigger] renewed(staged).contains(j) && i != j
            ==> cache[i].handle@ != cache[j].handle@
    &&& forall|i: u64| #[trigger] renewed(staged).contains(i) ==> made.contains(cache[i].handle@)
    &&& forall|c: u64| #[trigger] made.contains(c) ==> fresh.contains(c) || dropped.contains(c)
    &&& forall|r: u64|
        #[trigger] dropped.contains(r) ==> released.contains(r) || (made.contains(r)
            && !fresh.contains(r))
    &&& forall|r: u64| #[trigger] released.contains(r) ==> dropped.contains(r)
}

/// Before any update, nothing is renewed, created or dropped.
proof fn lemma_books_start(old: Map<u64, CachedTexture>)
    ensures
        renewal_books(old, initial_stage(old), old, Seq::empty(), Seq::empty()),
{
    assert(renewed(initial_stage(old)) =~= Set::<u64>::empty());
    assert(cached_handles(old, Set::<u64>::empty()) =~= Set::<u64>::empty());
    assert(initial_stage(old).dom() =~= old.dom());
}

/// Rewriting the texture an image already has keeps the books.
proof fn lemma_books_reuse(
    old: Map<u64, CachedTexture>,
    staged: Map<u64, StagedTexture>,
    cache: Map<u64, CachedTexture>,
    created: Seq<TextureHandle>,
    replaced: Seq<TextureHandle>,
    image: u64,
    entry: StagedTexture,
    texture: CachedTexture,
)
    requires
        renewal_books(old, staged, cache, created, replaced),
        staged.contains_key(image),
        entry.handle == staged[image].handle,
        texture.handle == cache[image].handle,
    ensures
        renewal_books(old, staged.insert(image, entry), cache.insert(image, texture), created, replaced),
{
    let staged2 = staged.insert(image, entry);
    let cache2 = cache.insert(image, texture);
    assert(renewed(staged2) =~= renewed(staged));
    assert(cached_handles(cache2, renewed(staged2)) =~= cached_handles(cache, renewed(staged))) by {
        assert forall|h: u64| cached_handles(cache2, renewed(staged2)).contains(h) implies cached_handles(
            cache,
            renewed(staged),
        ).contains(h) by {
            let i = choose|i: u64|
                #![trigger cache2[i]]
                renewed(staged2).contains(i) && cache2.contains_key(i) && cache2[i].handle@ == h;
            assert(cache[i].handle@ == h);
        }
        assert forall|h: u64| cached_handles(cache, renewed(staged)).contains(h) implies cached_handles(
            cache2,
            renewed(staged2),
        ).contains(h) by {
            let i = choose|i: u64|
                #![trigger cache[i]]
                renewed(staged).contains(i) && cache.contains_key(i) && cache[i].handle@ == h;
            assert(cache2[i].handle@ == h);
        }
    }
    assert(cache2.dom() =~= staged2.dom());
}

/// Giving an image a new texture `handle` keeps the books, with `handle`
/// created and the image's previous texture, if any, dropped.
proof fn lemma_books_renew(
    old: Map<u64, CachedTexture>,
    staged: Map<u64, StagedTexture>,
    cache: Map<u64, CachedTexture>,
    created: Seq<TextureHandle>,
    replaced: Seq<TextureHandle>,
    image: u64,
    entry: StagedTexture,
    texture: CachedTexture,
)
    requires
        renewal_books(old, staged, cache, created, replaced),
        entry.handle is None,
        !handles_from(created, 0).contains(texture.handle@),
    ensures
        renewal_books(
            old,
            staged.insert(image, entry),
            cache.insert(image, texture),
            created.push(texture.handle),
            if cache.contains_key(image) {
                replaced.push(cache[image].handle)
            } else {
                replaced
            },
        ),
{
    let staged2 = staged.insert(image, entry);
    let cache2 = cache.insert(image, texture);
    let created2 = created.push(texture.handle);
    let replaced2 = if cache.contains_key(image) {
        replaced.push(cache[image].handle)
    } else {
        replaced
    };
    let made = handles_from(created, 0);
    let made2 = handles_from(created2, 0);
    let dropped = handles_from(replaced, 0);
    let dropped2 = handles_from(replaced2, 0);
    let fresh = cached_handles(cache, renewed(staged));
    let fresh2 = cached_handles(cache2, renewed(staged2));
    let released = cached_handles(old, renewed(staged));
    let released2 = cached_handles(old, renewed(staged2));
    let h = texture.handle@;
    assert(renewed(staged2) =~= renewed(staged).insert(image));
    assert(made2 =~= made.insert(h)) by {
        assert forall|c: u64| made2.contains(c) implies made.insert(h).contains(c) by {
            let j = choose|j: int| 0 <= j < created2.len() && created2[j]@ == c;
            if j < created.len() {
                assert(created[j] == created2[j]);
            }
        }
        assert forall|c: u64| made.insert(h).contains(c) implies made2.contains(c) by {
            if c == h {
                assert(created2[created.len() as int]@ == c);
            } else {
                let j = choose|j: int| 0 <= j < created.len() && created[j]@ == c;
                assert(created2[j] == created[j]);
            }
        }
    }
    assert(dropped.subset_of(dropped2)) by {
        assert forall|c: u64| dropped.contains(c) implies dropped2.contains(c) by {
            let j = choose|j: int| 0 <= j < replaced.len() && replaced[j]@ == c;
            if cache.contains_key(image) {
                assert(replaced2[j] == replaced[j]);
            }
        }
    }
    if cache.contains_key(image) {
        assert(dropped2.contains(cache[image].handle@)) by {
            assert(replaced2[replaced.len() as int] == cache[image].handle);
        }
        assert forall|c: u64| dropped2.contains(c) implies dropped.contains(c) || c
            == cache[image].handle@ by {
            let j = choose|j: int| 0 <= j < replaced2.len() && replaced2[j]@ == c;
            if j < replaced.len() {
                assert(replaced2[j] == replaced[j]);
            }
        }
    } else {
        assert(dropped2 =~= dropped);
    }
    // The new texture is no other image's.
    assert forall|i: u64| renewed(staged).contains(i) && i != image implies cache[i].handle@ != h by {
        assert(made.contains(cache[i].handle@));
    }
    assert forall|c: u64| #[trigger] fresh2.contains(c) <==> (c == h || (fresh.contains(c) && !(
    renewed(staged).contains(image) && c == cache[image].handle@))) by {
        if fresh2.contains(c) {
            let i = choose|i: u64|
                #![trigger cache2[i]]
                renewed(staged2).contains(i) && cache2.contains_key(i) && cache2[i].handle@ == c;
            if i != image {
                assert(renewed(staged).contains(i) && cache[i].handle@ == c);
                assert(fresh.contains(c));
            }
        }
        if c == h {
            assert(renewed(staged2).contains(image) && cache2[image].handle@ == h);
        } else if fresh.contains(c) && !(renewed(staged).contains(image) && c == cache[image].handle@) {
            let i = choose|i: u64|
                #![trigger cache[i]]
                renewed(staged).contains(i) && cache.contains_key(i) && cache[i].handle@ == c;
            assert(i != image);
            assert(renewed(staged2).contains(i) && cache2[i].handle@ == c);
        }
    }
    assert forall|r: u64| #[trigger] released2.contains(r) <==> (released.contains(r) || (
    old.contains_key(image) && r == old[image].handle@)) by {
        if released2.contains(r) {
            let i = choose|i: u64|
                #![trigger old[i]]
                renewed(staged2).contains(i) && old.contains_key(i) && old[i].handle@ == r;
            if i != image {
                assert(renewed(staged).contains(i));
                assert(released.contains(r));
            }
        }
        if released.contains(r) {
            let i = choose|i: u64|
                #![trigger old[i]]
                renewed(staged).contains(i) && old.contains_key(i) && old[i].handle@ == r;
            assert(renewed(staged2).contains(i));
        }
        if old.contains_key(image) && r == old[image].handle@ {
            assert(renewed(staged2).contains(image));
        }
    }
    // The old texture of the image is dropped when it is first renewed.
    if old.contains_key(image) && !renewed(staged).contains(image) {
        assert(staged.contains_key(image));
        assert(cache.contains_key(image));
        assert(cache[image].handle == old[image].handle);
    }
    assert forall|i: u64, j: u64|
        #[trigger] renewed(staged2).contains(i) && #[trigger] renewed(staged2).contains(j) && i != j
            implies cache2[i].handle@ != cache2[j].handle@ by {
        if i != image && j != image {
            assert(renewed(staged).contains(i) && renewed(staged).contains(j));
        }
    }
    assert forall|c: u64| #[trigger] made2.contains(c) implies fresh2.contains(c) || dropped2.contains(c) by {
        if c != h {
            assert(made.contains(c));
            if fresh.contains(c) && renewed(staged).contains(image) && c == cache[image].handle@ {
                assert(dropped2.contains(c));
            }
        }
    }
    assert forall|r: u64| #[trigger] dropped2.contains(r) implies released2.contains(r) || (made2.contains(r)
        && !fresh2.contains(r)) by {
        if dropped.contains(r) {
            if !released.contains(r) {
                assert(made.contains(r) && !fresh.contains(r));
                assert(r != h);
            }
        } else {
            assert(cache.contains_key(image) && r == cache[image].handle@);
            if renewed(staged).contains(image) {
                assert(made.contains(r));
                assert(r != h);
                assert forall|i: u64| renewed(staged2).contains(i) && cache2.contains_key(i) implies cache2[i].handle@ != r by {
                    if i != image {
                        assert(renewed(staged).contains(i));
                    }
                }
            } else {
                assert(staged.contains_key(image) && staged[image].handle is Some);
                assert(old.contains_key(image) && r == old[image].handle@);
            }
        }
    }
    assert forall|i: u64| #[trigger] old.contains_key(i) implies staged2.contains_key(i) by {
        assert(staged.contains_key(i));
    }
    assert forall|i: u64|
        #[trigger] staged2.contains_key(i) && staged2[i].handle is Some implies old.contains_key(i)
            && cache2[i].handle == old[i].handle by {
        assert(i != image);
    }
    assert forall|i: u64| #[trigger] renewed(staged2).contains(i) implies made2.contains(cache2[i].handle@) by {
        if i != image {
            assert(renewed(staged).contains(i));
        }
    }
    assert(cache2.dom() =~= staged2.dom());
}

/// A renewed image's texture is one the device did not hold before, and no
/// two renewed images share one.
proof fn lemma_books_fresh(
    old: Map<u64, CachedTexture>,
    staged: Map<u64, StagedTexture>,
    cache: Map<u64, CachedTexture>,
    created: Seq<TextureHandle>,
    replaced: Seq<TextureHandle>,
    old_live: Set<u64>,
)
    requires
        renewal_books(old, staged, cache, created, replaced),
        forall|i: int| 0 <= i < created.len() ==> !old_live.contains(created[i]@),
    ensures
        forall|image: u64|
            #[trigger] renewed(staged).contains(image) ==> !old_live.contains(cache[image].handle@),
        forall|first: u64, second: u64|
            #[trigger] renewed(staged).contains(first) && #[trigger] renewed(staged).contains(second)
                && first != second ==> cache[first].handle@ != cache[second].handle@,
{
    assert forall|image: u64| #[trigger] renewed(staged).contains(image) implies !old_live.contains(
        cache[image].handle@,
    ) by {
        assert(handles_from(created, 0).contains(cache[image].handle@));
        let j = choose|j: int| 0 <= j < created.len() && created[j]@ == cache[image].handle@;
    }
}

/// The handles of a list with one more handle.
proof fn lemma_handles_push(handles: Seq<TextureHandle>, handle: TextureHandle)
    ensures
        handles_from(handles.push(handle), 0) == handles_from(handles, 0).insert(handle@),
{
    let longer = handles.push(handle);
    assert forall|value: u64| handles_from(longer, 0).contains(value) implies handles_from(handles, 0).insert(
        handle@,
    ).contains(value) by {
        let j = choose|j: int| 0 <= j < longer.len() && longer[j]@ == value;
        if j < handles.len() {
            assert(handles[j] == longer[j]);
        }
    }
    assert forall|value: u64| handles_from(handles, 0).insert(handle@).contains(value) implies handles_from(
        longer,
        0,
    ).contains(value) by {
        if value == handle@ {
            assert(longer[handles.len() as int] == handle);
        } else {
            let j = choose|j: int| 0 <= j < handles.len() && handles[j]@ == value;
            assert(longer[j] == handles[j]);
        }
    }
    assert(handles_from(longer, 0) =~= handles_from(handles, 0).insert(handle@));
}

/// Whether staging `update` keeps the texture its image already has: the
/// image is staged with the update's size.
pub open spec fn keeps_texture(staged: Map<u64, StagedTexture>, update: ImageUpdate) -> bool {
    let image = update.image_spec()@;
    staged.contains_key(image) && staged[image].dimensions == (update.width_spec(), update.height_spec())
}

/// The descriptors of the textures an upload of `updates` creates, in order:
/// an RGBA8 texture of the update's size for each uploaded update whose image
/// does not keep its texture.
pub open spec fn new_texture_descriptors(staged: Map<u64, StagedTexture>, updates: Seq<ImageUpdate>) -> Seq<
    TextureDescriptor,
>
    decreases updates.len(),
{
    if updates.len() == 0 {
        Seq::empty()
    } else {
        let before = stage_updates(staged, updates.drop_last());
        let update = updates.last();
        let rest = new_texture_descriptors(staged, updates.drop_last());
        if is_uploaded(before, update) && !keeps_texture(before, update) {
            rest.push(descriptor_for((update.width_spec(), update.height_spec())))
        } else {
            rest
        }
    }
}

/// How many textures an upload of `updates` replaces: one for each uploaded
/// update whose image is staged with another size.
pub open spec fn replacement_count(staged: Map<u64, StagedTexture>, updates: Seq<ImageUpdate>) -> nat
    decreases updates.len(),
{
    if updates.len() == 0 {
        0
    } else {
        let before = stage_updates(staged, updates.drop_last());
        let update = updates.last();
        replacement_count(staged, updates.drop_last()) + if is_uploaded(before, update)
            && !keeps_texture(before, update) && before.contains_key(update.image_spec()@) {
            1nat
        } else {
            0nat
        }
    }
}

/// The texture creations of `descriptors`, in order, each answered with the
/// handle at the same position of `created`.
pub open spec fn creation_calls(descriptors: Seq<TextureDescriptor>, created: Seq<TextureHandle>) -> Seq<
    DeviceCall,
> {
    Seq::new(created.len(), |k: int| DeviceCall::CreateTexture(descriptors[k], Ok(created[k])))
}

/// The device calls of a successful upload: the texture creations with the
/// handles the device answered, the accepted submission of the writes when
/// there are any, and the destruction of the replaced textures, in order.
pub open spec fn upload_calls(
    descriptors: Seq<TextureDescriptor>,
    created: Seq<TextureHandle>,
    submission: Seq<CommandList>,
    replaced: Seq<TextureHandle>,
) -> Seq<DeviceCall> {
    creation_calls(descriptors, created) + submission.map_values(
        |commands: CommandList| DeviceCall::Submit(commands, Ok(())),
    ) + replaced.map_values(|handle: TextureHandle| DeviceCall::DestroyTexture(handle))
}

/// The destruction of each texture of `handles`, in order.
pub open spec fn destruction_calls(handles: Seq<TextureHandle>) -> Seq<DeviceCall> {
    handles.map_values(|handle: TextureHandle| DeviceCall::DestroyTexture(handle))
}

/// Whether `calls` are those of an upload of `updates` that `error` stopped:
/// the first `created.len()` texture creations succeeded, then the next
/// creation, or the submission of all the writes when no creation is left,
/// was refused with `error`, and every created texture was destroyed again,
/// in order.
pub open spec fn failed_upload_calls(
    staged: Map<u64, StagedTexture>,
    updates: Seq<ImageUpdate>,
    old_live: Set<u64>,
    created: Seq<TextureHandle>,
    error: DeviceError,
    calls: Seq<DeviceCall>,
) -> bool {
    let descriptors = new_texture_descriptors(staged, updates);
    exists|refused: DeviceCall|
        {
            &&& created.len() <= descriptors.len()
            &&& calls == creation_calls(descriptors, created).push(refused) + destruction_calls(
                created,
            )
            &&& if created.len() < descriptors.len() {
                refused == DeviceCall::CreateTexture(descriptors[created.len() as int], Err(error))
            } else {
                refused matches DeviceCall::Submit(commands, answer) && answer == Err::<
                    (),
                    DeviceError,
                >(error) && upload_writes(staged, updates, commands.commands_spec(), old_live)
            }
        }
}

/// The textures the first `k` updates create are the first ones all the
/// updates create.
proof fn lemma_new_textures_prefix(staged: Map<u64, StagedTexture>, updates: Seq<ImageUpdate>, k: int)
    requires
        0 <= k <= updates.len(),
    ensures
        new_texture_descriptors(staged, updates.take(k)).len() <= new_texture_descriptors(
            staged,
            updates,
        ).len(),
        forall|i: int|
            0 <= i < new_texture_descriptors(staged, updates.take(k)).len() ==> #[trigger] new_texture_descriptors(
                staged,
                updates.take(k),
            )[i] == new_texture_descriptors(staged, updates)[i],
    decreases updates.len(),
{
    if k < updates.len() {
        lemma_new_textures_prefix(staged, updates.drop_last(), k);
        assert(updates.drop_last().take(k) =~= updates.take(k));
    } else {
        assert(updates.take(k) =~= updates);
    }
}

/// The descriptor of an RGBA8 texture of `dimensions`.
pub open spec fn descriptor_for(dimensions: (u32, u32)) -> TextureDescriptor {
    TextureDescriptor { width: dimensions.0, height: dimensions.1, format: TextureFormat::Rgba8 }
}

/// Whether every renewed image's texture is described as an RGBA8 texture
/// of the image's size.
spec fn descriptors_follow(
    descriptors: Map<u64, TextureDescriptor>,
    staged: Map<u64, StagedTexture>,
    cache: Map<u64, CachedTexture>,
) -> bool {
    forall|image: u64|
        #[trigger] renewed(staged).contains(image) ==> descriptors.contains_key(cache[image].handle@)
            && descriptors[cache[image].handle@] == descriptor_for(cache[image].dimensions)
}

/// Whether `descriptors` are `old` with the textures in `made`, none of which
/// `old` describes.
spec fn descriptors_extend(
    descriptors: Map<u64, TextureDescriptor>,
    old: Map<u64, TextureDescriptor>,
    made: Set<u64>,
) -> bool {
    &&& descriptors.remove_keys(made) == old
    &&& forall|handle: u64|
        #[trigger] made.contains(handle) ==> descriptors.contains_key(handle) && !old.contains_key(
            handle,
        )
}

/// Creating texture `handle` for `image` keeps the descriptor books.
proof fn lemma_descriptors_renew(
    descriptors: Map<u64, TextureDescriptor>,
    old: Map<u64, TextureDescriptor>,
    made: Set<u64>,
    staged: Map<u64, StagedTexture>,
    cache: Map<u64, CachedTexture>,
    image: u64,
    entry: StagedTexture,
    texture: CachedTexture,
)
    requires
        descriptors_extend(descriptors, old, made),
        descriptors_follow(descriptors, staged, cache),
        !descriptors.contains_key(texture.handle@),
        entry.handle is None,
        forall|i: u64| #[trigger] renewed(staged).contains(i) ==> made.contains(cache[i].handle@),
    ensures
        descriptors_extend(
            descriptors.insert(texture.handle@, descriptor_for(texture.dimensions)),
            old,
            made.insert(texture.handle@),
        ),
        descriptors_follow(
            descriptors.insert(texture.handle@, descriptor_for(texture.dimensions)),
            staged.insert(image, entry),
            cache.insert(image, texture),
        ),
{
    let h = texture.handle@;
    let grown = descriptors.insert(h, descriptor_for(texture.dimensions));
    assert(grown.remove_keys(made.insert(h)) =~= descriptors.remove_keys(made));
    assert forall|handle: u64| #[trigger] made.insert(h).contains(handle) implies grown.contains_key(
        handle,
    ) && !old.contains_key(handle) by {
        if handle == h {
            assert(!descriptors.remove_keys(made).contains_key(h));
        }
    }
    let staged2 = staged.insert(image, entry);
    let cache2 = cache.insert(image, texture);
    assert forall|i: u64| #[trigger] renewed(staged2).contains(i) implies grown.contains_key(
        cache2[i].handle@,
    ) && grown[cache2[i].handle@] == descriptor_for(cache2[i].dimensions) by {
        if i != image {
            assert(renewed(staged).contains(i));
            assert(made.contains(cache[i].handle@));
            assert(cache[i].handle@ != h);
        }
    }
}

/// Rewriting the texture an image already has keeps the descriptor books.
proof fn lemma_descriptors_reuse(
    descriptors: Map<u64, TextureDescriptor>,
    staged: Map<u64, StagedTexture>,
    cache: Map<u64, CachedTexture>,
    image: u64,
    entry: StagedTexture,
    texture: CachedTexture,
)
    requires
        descriptors_follow(descriptors, staged, cache),
        staged.contains_key(image),
        cache.contains_key(image),
        entry.handle == staged[image].handle,
        texture.handle == cache[image].handle,
        texture.dimensions == cache[image].dimensions,
    ensures
        descriptors_follow(descriptors, staged.insert(image, entry), cache.insert(image, texture)),
{
    let staged2 = staged.insert(image, entry);
    let cache2 = cache.insert(image, texture);
    assert forall|i: u64| #[trigger] renewed(staged2).contains(i) implies descriptors.contains_key(
        cache2[i].handle@,
    ) && descriptors[cache2[i].handle@] == descriptor_for(cache2[i].dimensions) by {
        assert(renewed(staged).contains(i));
    }
}

/// The descriptors after an upload: each renewed image that kept its new
/// texture has it described as an RGBA8 texture of its size, every texture
/// described before that was not released keeps its description, and no
/// other texture is described.
pub open spec fn descriptors_after_upload(
    old_descriptors: Map<u64, TextureDescriptor>,
    descriptors: Map<u64, TextureDescriptor>,
    old: Map<u64, CachedTexture>,
    staged: Map<u64, StagedTexture>,
    cache: Map<u64, CachedTexture>,
) -> bool {
    let released = cached_handles(old, renewed(staged));
    let fresh = cached_handles(cache, renewed(staged));
    &&& forall|image: u64|
        #[trigger] renewed(staged).contains(image) && !released.contains(cache[image].handle@)
            ==> descriptors.contains_key(cache[image].handle@) && descriptors[cache[image].handle@]
            == descriptor_for(cache[image].dimensions)
    &&& forall|handle: u64|
        old_descriptors.contains_key(handle) && !released.contains(handle)
            ==> #[trigger] descriptors.contains_key(handle) && descriptors[handle]
            == old_descriptors[handle]
    &&& forall|handle: u64|
        #[trigger] descriptors.contains_key(handle) ==> old_descriptors.contains_key(handle)
            || fresh.contains(handle)
}

/// The descriptors once every dropped texture is destroyed: each renewed
/// image that kept its new texture has it described by its size, every
/// texture described before that was not released keeps its description,
/// and nothing else is described.
proof fn lemma_descriptors_end(
    descriptors: Map<u64, TextureDescriptor>,
    old_descriptors: Map<u64, TextureDescriptor>,
    old: Map<u64, CachedTexture>,
    staged: Map<u64, StagedTexture>,
    cache: Map<u64, CachedTexture>,
    created: Seq<TextureHandle>,
    replaced: Seq<TextureHandle>,
)
    requires
        renewal_books(old, staged, cache, created, replaced),
        descriptors_extend(descriptors, old_descriptors, handles_from(created, 0)),
        descriptors_follow(descriptors, staged, cache),
    ensures
        descriptors_after_upload(
            old_descriptors,
            descriptors.remove_keys(handles_from(replaced, 0)),
            old,
            staged,
            cache,
        ),
{
    let made = handles_from(created, 0);
    let dropped = handles_from(replaced, 0);
    let last = descriptors.remove_keys(dropped);
    let released = cached_handles(old, renewed(staged));
    let fresh = cached_handles(cache, renewed(staged));
    assert forall|image: u64|
        #[trigger] renewed(staged).contains(image) && !released.contains(cache[image].handle@)
            implies last.contains_key(cache[image].handle@) && last[cache[image].handle@]
            == descriptor_for(cache[image].dimensions) by {
        let h = cache[image].handle@;
        assert(fresh.contains(h));
        assert(!dropped.contains(h));
    }
    assert forall|handle: u64|
        old_descriptors.contains_key(handle) && !released.contains(handle) implies #[trigger] last.contains_key(
            handle,
        ) && last[handle] == old_descriptors[handle] by {
        assert(!made.contains(handle));
        assert(!dropped.contains(handle));
        assert(descriptors.remove_keys(made).contains_key(handle));
    }
    assert forall|handle: u64| #[trigger] last.contains_key(handle) implies old_descriptors.contains_key(
        handle,
    ) || fresh.contains(handle) by {
        if !old_descriptors.contains_key(handle) {
            assert(!descriptors.remove_keys(made).contains_key(handle));
            assert(made.contains(handle));
        }
    }
}

/// What the device holds once every dropped texture is destroyed: what it
/// held, with the renewed images' new textures and without their old ones.
proof fn lemma_books_end(
    old: Map<u64, CachedTexture>,
    staged: Map<u64, StagedTexture>,
    cache: Map<u64, CachedTexture>,
    created: Seq<TextureHandle>,
    replaced: Seq<TextureHandle>,
    old_live: Set<u64>,
)
    requires
        renewal_books(old, staged, cache, created, replaced),
        forall|i: int| 0 <= i < created.len() ==> !old_live.contains(created[i]@),
    ensures
        old_live.union(handles_from(created, 0)).difference(handles_from(replaced, 0)) == old_live.union(
            cached_handles(cache, renewed(staged)),
        ).difference(cached_handles(old, renewed(staged))),
{
    let made = handles_from(created, 0);
    let dropped = handles_from(replaced, 0);
    let fresh = cached_handles(cache, renewed(staged));
    let released = cached_handles(old, renewed(staged));
    assert forall|x: u64| fresh.contains(x) implies made.contains(x) by {
        let i = choose|i: u64|
            #![trigger cache[i]]
            renewed(staged).contains(i) && cache.contains_key(i) && cache[i].handle@ == x;
    }
    assert forall|x: u64| made.contains(x) implies !old_live.contains(x) by {
        let j = choose|j: int| 0 <= j < created.len() && created[j]@ == x;
    }
    assert(old_live.union(made).difference(dropped) =~= old_live.union(fresh).difference(released));
}

/// One texture destruction for each image of `order`, in order, each of the
/// texture that `cache` gives the image.
pub open spec fn destroy_calls(cache: Map<u64, CachedTexture>, order: Seq<u64>) -> Seq<DeviceCall> {
    order.map_values(|image: u64| DeviceCall::DestroyTexture(cache[image].handle))
}

/// The device calls of evicting the first `count` of `images` from `cache`:
/// one texture destruction for each image that still has a texture when its
/// turn comes, in order.
pub open spec fn evict_calls(cache: Map<u64, CachedTexture>, images: Seq<ImageId>, count: int) -> Seq<
    DeviceCall,
>
    decreases count,
{
    if count <= 0 {
        Seq::empty()
    } else {
        let remaining = cache.remove_keys(image_values_prefix(images, count - 1));
        let image = images[count - 1]@;
        evict_calls(cache, images, count - 1) + if remaining.contains_key(image) {
            seq![DeviceCall::DestroyTexture(remaining[image].handle)]
        } else {
            Seq::empty()
        }
    }
}

/// Keeps one texture per image and uploads only newer revisions.
#[derive(Debug)]
pub struct TextureResourceCache {
    textures: HashMap<u64, CachedTexture>,
}

impl Default for TextureResourceCache {
    fn default() -> (cache: Self)
        ensures
            cache@ == Map::<u64, CachedTexture>::empty(),
    {
        Self::new()
    }
}

impl View for TextureResourceCache {
    type V = Map<u64, CachedTexture>;

    /// The cached texture of each image, keyed by the image's value.
    closed spec fn view(&self) -> Map<u64, CachedTexture> {
        self.textures@
    }
}

/// The values of the first `count` image identities of `images`.
pub open spec fn image_values_prefix(images: Seq<ImageId>, count: int) -> Set<u64> {
    Set::new(|value: u64| exists|j: int| #![trigger images[j]] 0 <= j < count && images[j]@ == value)
}

/// The values of a sequence of image identities.
pub open spec fn image_values(images: Seq<ImageId>) -> Set<u64> {
    image_values_prefix(images, images.len() as int)
}

impl TextureResourceCache {
    pub fn new() -> (cache: Self)
        ensures
            cache@ == Map::<u64, CachedTexture>::empty(),
    {
        Self { textures: HashMap::new() }
    }

    /// The texture that holds `image`, if any.
    pub fn handle(&self, image: ImageId) -> (handle: Option<TextureHandle>)
        ensures
            match handle {
                Some(handle) => self@.contains_key(image@) && self@[image@].handle == handle,
                None => !self@.contains_key(image@),
            },
    {
        match self.textures.get(&image.value()) {
            Some(texture) => Some(texture.handle),
            None => None,
        }
    }

    /// Stages every update whose image is new or whose revision is newer,
    /// creating a texture where an image is new or changed size, and submits
    /// the writes as one command list.
    ///
    /// Nothing changes unless the whole call succeeds: when a texture cannot
    /// be created or the writes cannot be submitted, the cache keeps its
    /// entries and every texture created here is destroyed again. On success
    /// the textures that were replaced are destroyed and the number of
    /// uploaded updates is returned. The device is handed the creations, the
    /// submission and the destructions in that order, and nothing else.
    pub fn upload_updates<D: GraphicsDevice>(&mut self, device: &mut D, updates: &[ImageUpdate]) -> (result:
        Result<usize, DeviceError>)
        ensures
            match result {
                Ok(uploaded) => {
                    &&& uploaded == upload_count(initial_stage(old(self)@), updates@)
                    &&& agrees(
                        final(self)@,
                        stage_updates(initial_stage(old(self)@), updates@),
                        old(device).live_textures(),
                    )
                },
                Err(error) => {
                    &&& final(self)@ == old(self)@
                    &&& final(device).live_textures() == old(device).live_textures()
                    &&& final(device).texture_descriptors() == old(device).texture_descriptors()
                    &&& final(device).submitted() == old(device).submitted()
                    &&& exists|created: Seq<TextureHandle>, calls: Seq<DeviceCall>|
                        {
                            &&& final(device).device_calls() == old(device).device_calls() + calls
                            &&& failed_upload_calls(
                                initial_stage(old(self)@),
                                updates@,
                                old(device).live_textures(),
                                created,
                                error,
                                calls,
                            )
                        }
                },
            },
            result is Ok ==> descriptors_after_upload(
                old(device).texture_descriptors(),
                final(device).texture_descriptors(),
                old(self)@,
                stage_updates(initial_stage(old(self)@), updates@),
                final(self)@,
            ),
            final(device).resize_log() == old(device).resize_log(),
            result is Ok && upload_count(initial_stage(old(self)@), updates@) == 0
                ==> final(device).submitted() == old(device).submitted(),
            result is Ok && upload_count(initial_stage(old(self)@), updates@) > 0 ==> {
                &&& final(device).submitted().len() == old(device).submitted().len() + 1
                &&& final(device).submitted().drop_last() == old(device).submitted()
                &&& upload_writes(
                    initial_stage(old(self)@),
                    updates@,
                    final(device).submitted().last().commands_spec(),
                    old(device).live_textures(),
                )
            },
            result is Ok ==> final(device).live_textures() == old(device).live_textures().union(
                cached_handles(
                    final(self)@,
                    renewed(stage_updates(initial_stage(old(self)@), updates@)),
                ),
            ).difference(
                cached_handles(old(self)@, renewed(stage_updates(initial_stage(old(self)@), updates@))),
            ),
            result is Ok ==> forall|image: u64|
                #[trigger] renewed(stage_updates(initial_stage(old(self)@), updates@)).contains(image)
                    ==> !old(device).live_textures().contains(final(self)@[image].handle@),
            result is Ok ==> forall|first: u64, second: u64|
                #[trigger] renewed(stage_updates(initial_stage(old(self)@), updates@)).contains(first)
                    && #[trigger] renewed(stage_updates(initial_stage(old(self)@), updates@)).contains(
                    second,
                ) && first != second ==> final(self)@[first].handle@ != final(self)@[second].handle@,
            upload_count(initial_stage(old(self)@), updates@) == 0 ==> result == Ok::<
                usize,
                DeviceError,
            >(0),
            result is Ok ==> exists|created: Seq<TextureHandle>, replaced: Seq<TextureHandle>|
                {
                    &&& created.len() == new_texture_descriptors(
                        initial_stage(old(self)@),
                        updates@,
                    ).len()
                    &&& replaced.len() == replacement_count(initial_stage(old(self)@), updates@)
                    &&& renewal_books(
                        old(self)@,
                        stage_updates(initial_stage(old(self)@), updates@),
                        final(self)@,
                        created,
                        replaced,
                    )
                    &&& final(device).device_calls() == old(device).device_calls() + upload_calls(
                        new_texture_descriptors(initial_stage(old(self)@), updates@),
                        created,
                        final(device).submitted().skip(old(device).submitted().len() as int),
                        replaced,
                    )
                },
    {
        let ghost old_live = device.live_textures();
        let ghost old_calls = device.device_calls();
        let ghost old_submitted = device.submitted();
        let ghost old_descriptors = device.texture_descriptors();
        let ghost initial = initial_stage(self.textures@);
        let ghost old_cache = self.textures@;
        let mut commands = CommandList::default();
        let mut staged = self.textures.clone();
        let mut created: Vec<TextureHandle> = Vec::new();
        let mut replaced: Vec<TextureHandle> = Vec::new();
        let mut uploaded: usize = 0;
        let mut failure: Option<DeviceError> = None;
        let ghost mut refused: Option<DeviceCall> = None;
        let ghost all_descriptors = new_texture_descriptors(initial_stage(old_cache), updates@);
        let mut index: usize = 0;
        proof {
            assert(updates@.take(0) =~= Seq::<ImageUpdate>::empty());
            assert(initial.dom() =~= staged@.dom());
            assert(agrees(staged@, initial, old_live));
            assert(device.live_textures() =~= old_live.union(handles_from(created@, 0)));
            assert(staged@ =~= old_cache);
            lemma_books_start(old_cache);
            assert(handles_from(created@, 0) =~= Set::<u64>::empty());
            assert(device.texture_descriptors().remove_keys(Set::<u64>::empty())
                =~= device.texture_descriptors());
        }
        while index < updates.len()
            invariant_except_break
                failure is None,
                device.device_calls() == old_calls + creation_calls(
                    new_texture_descriptors(initial, updates@.take(index as int)),
                    created@,
                ),
            invariant
                created@.len() == new_texture_descriptors(initial, updates@.take(index as int)).len(),
                replaced@.len() == replacement_count(initial, updates@.take(index as int)),
                old_calls == old(device).device_calls(),
                all_descriptors == new_texture_descriptors(initial, updates@),
                index <= updates@.len(),
                uploaded <= index,
                uploaded == upload_count(initial, updates@.take(index as int)),
                agrees(staged@, stage_updates(initial, updates@.take(index as int)), old_live),
                created@.len() <= index,
                forall|i: int, j: int|
                    0 <= i < j < created@.len() ==> created@[i]@ != created@[j]@,
                forall|i: int| 0 <= i < created@.len() ==> !old_live.contains(created@[i]@),
                device.live_textures() == old_live.union(handles_from(created@, 0)),
                device.submitted() == old_submitted,
                upload_writes(initial, updates@.take(index as int), commands.commands_spec(), old_live),
                initial == initial_stage(old_cache),
                device.resize_log() == old(device).resize_log(),
                descriptors_extend(
                    device.texture_descriptors(),
                    old_descriptors,
                    handles_from(created@, 0),
                ),
                descriptors_follow(
                    device.texture_descriptors(),
                    stage_updates(initial, updates@.take(index as int)),
                    staged@,
                ),
                renewal_books(
                    old_cache,
                    stage_updates(initial, updates@.take(index as int)),
                    staged@,
                    created@,
                    replaced@,
                ),
            ensures
                failure is Some ==> device.live_textures() == old_live.union(
                    handles_from(created@, 0),
                ),
                failure is None ==> index == updates@.len(),
                failure is None ==> device.device_calls() == old_calls + creation_calls(
                    new_texture_descriptors(initial, updates@.take(index as int)),
                    created@,
                ),
                failure is Some ==> upload_count(initial, updates@) > 0,
                failure is Some ==> {
                    &&& refused is Some
                    &&& created@.len() < all_descriptors.len()
                    &&& refused->0 == DeviceCall::CreateTexture(
                        all_descriptors[created@.len() as int],
                        Err(failure->0),
                    )
                    &&& device.device_calls() == old_calls + creation_calls(
                        all_descriptors,
                        created@,
                    ).push(refused->0)
                },
            decreases updates.len() - index,
        {
            let update = &updates[index];
            let image = update.image().value();
            let dimensions = update.dimensions();
            let revision = update.revision();
            let ghost before = stage_updates(initial, updates@.take(index as int));
            proof {
                assert(updates@.take(index + 1).drop_last() =~= updates@.take(index as int));
                assert(updates@.take(index + 1).last() == updates@[index as int]);
            }
            let cached = match staged.get(&image) {
                Some(texture) => Some(*texture),
                None => None,
            };
            let is_stale = match cached {
                Some(texture) => texture.revision.value() >= revision.value(),
                None => false,
            };
            if is_stale {
                proof {
                    assert(!is_uploaded(before, updates@[index as int]));
                }
                index = index + 1;
                continue;
            }
            proof {
                assert(is_uploaded(before, updates@[index as int]));
            }
            let mut replaced_handle: Option<TextureHandle> = None;
            let ghost staged_before = staged@;
            let ghost created_before = created@;
            let ghost replaced_before = replaced@;
            let ghost descriptors_before = device.texture_descriptors();
            let ghost calls_before = device.device_calls();
            let reused = match cached {
                Some(texture) => texture.dimensions.0 == dimensions.0 && texture.dimensions.1
                    == dimensions.1,
                None => false,
            };
            let handle = if reused {
                match cached {
                    Some(texture) => texture.handle,
                    None => TextureHandle::new(0),
                }
            } else {
                let descriptor = TextureDescriptor {
                    width: dimensions.0,
                    height: dimensions.1,
                    format: TextureFormat::Rgba8,
                };
                match device.create_texture(descriptor) {
                    Ok(handle) => {
                        let ghost previous = created@;
                        created.push(handle);
                        proof {
                            assert(device.live_textures() =~= old_live.union(
                                handles_from(created@, 0),
                            )) by {
                                assert forall|value: u64|
                                    handles_from(created@, 0).contains(value) <==> (handles_from(
                                        previous,
                                        0,
                                    ).contains(value) || value == handle@) by {
                                    if handles_from(created@, 0).contains(value) {
                                        let j = choose|j: int|
                                            0 <= j < created@.len() && created@[j]@ == value;
                                        if j < previous.len() {
                                            assert(previous[j] == created@[j]);
                                        }
                                    }
                                    if handles_from(previous, 0).contains(value) {
                                        let j = choose|j: int|
                                            0 <= j < previous.len() && previous[j]@ == value;
                                        assert(created@[j] == previous[j]);
                                    }
                                    if value == handle@ {
                                        assert(created@[previous.len() as int] == handle);
                                    }
                                }
                            }
                            assert forall|i: int, j: int|
                                0 <= i < j < created@.len() implies created@[i]@
                                != created@[j]@ by {
                                if j == previous.len() {
                                    assert(handles_from(previous, 0).contains(previous[i]@));
                                }
                            }
                        }
                        replaced_handle = match cached {
                            Some(texture) => Some(texture.handle),
                            None => None,
                        };
                        handle
                    },
                    Err(error) => {
                        proof {
                            assert(upload_count(initial, updates@.take(index + 1)) == uploaded + 1);
                            lemma_upload_count_prefix(initial, updates@, index + 1);
                            let descriptors_now = new_texture_descriptors(initial, updates@.take(index as int));
                            let descriptors_next = new_texture_descriptors(initial, updates@.take(index + 1));
                            assert(!keeps_texture(before, updates@[index as int]));
                            assert(descriptors_next == descriptors_now.push(descriptor));
                            lemma_new_textures_prefix(initial, updates@, index + 1);
                            assert(descriptors_next[created@.len() as int] == descriptor);
                            assert(all_descriptors[created@.len() as int] == descriptor);
                            assert forall|k: int| 0 <= k < created@.len() implies #[trigger] all_descriptors[k]
                                == descriptors_now[k] by {
                                assert(descriptors_next[k] == descriptors_now[k]);
                            }
                            assert(creation_calls(all_descriptors, created@) =~= creation_calls(
                                descriptors_now,
                                created@,
                            ));
                            refused = Some(DeviceCall::CreateTexture(descriptor, Err(error)));
                        }
                        failure = Some(error);
                        break;
                    },
                }
            };
            let ghost written = commands.commands_spec();
            let bytes = vstd::slice::slice_to_vec(update.rgba8());
            commands.write_texture(handle, dimensions.0, dimensions.1, bytes);
            proof {
                assert(commands.commands_spec().drop_last() =~= written);
                assert(write_matches(before, updates@[index as int], commands.commands_spec().last(), old_live));
            }
            staged.insert(image, CachedTexture { handle, revision, dimensions });
            match replaced_handle {
                Some(old_handle) => replaced.push(old_handle),
                None => {},
            }
            proof {
                let after = stage_updates(initial, updates@.take(index + 1));
                let texture = CachedTexture { handle, revision, dimensions };
                let update_spec = updates@[index as int];
                let descriptors_now = new_texture_descriptors(initial, updates@.take(index as int));
                assert(reused == keeps_texture(before, update_spec));
                if reused {
                    assert(new_texture_descriptors(initial, updates@.take(index + 1)) == descriptors_now);
                    assert(replacement_count(initial, updates@.take(index + 1)) == replacement_count(
                        initial,
                        updates@.take(index as int),
                    ));
                } else {
                    assert(new_texture_descriptors(initial, updates@.take(index + 1))
                        == descriptors_now.push(descriptor_for(dimensions)));
                    assert(device.device_calls() == calls_before.push(
                        DeviceCall::CreateTexture(descriptor_for(dimensions), Ok(handle)),
                    ));
                    assert(creation_calls(descriptors_now.push(descriptor_for(dimensions)), created@)
                        =~= creation_calls(descriptors_now, created_before).push(
                        DeviceCall::CreateTexture(descriptor_for(dimensions), Ok(handle)),
                    ));
                    assert(before.contains_key(image) == staged_before.contains_key(image));
                }
                if reused {
                    lemma_descriptors_reuse(
                        descriptors_before,
                        before,
                        staged_before,
                        image,
                        after[image],
                        texture,
                    );
                    lemma_books_reuse(
                        old_cache,
                        before,
                        staged_before,
                        created_before,
                        replaced_before,
                        image,
                        after[image],
                        texture,
                    );
                    assert(after == before.insert(image, after[image]));
                    assert(staged@ == staged_before.insert(image, texture));
                } else {
                    assert(!handles_from(created_before, 0).contains(handle@));
                    lemma_handles_push(created_before, handle);
                    lemma_descriptors_renew(
                        descriptors_before,
                        old_descriptors,
                        handles_from(created_before, 0),
                        before,
                        staged_before,
                        image,
                        after[image],
                        texture,
                    );
                    lemma_books_renew(
                        old_cache,
                        before,
                        staged_before,
                        created_before,
                        replaced_before,
                        image,
                        after[image],
                        texture,
                    );
                    assert(after == before.insert(image, after[image]));
                    assert(staged@ == staged_before.insert(image, texture));
                    assert(created@ == created_before.push(handle));
                    if staged_before.contains_key(image) {
                        assert(replaced@ == replaced_before.push(staged_before[image].handle));
                    } else {
                        assert(replaced@ == replaced_before);
                    }
                }
            }
            uploaded = uploaded + 1;
            index = index + 1;
        }
        match failure {
            Some(error) => {
                Self::destroy_all(device, &created, Ghost(old_live), Ghost(old_descriptors));
                proof {
                    let tail = creation_calls(all_descriptors, created@).push(refused->0)
                        + destruction_calls(created@);
                    assert(device.device_calls() =~= old_calls + tail);
                    assert(initial == initial_stage(old(self)@));
                    assert(old_live == old(device).live_textures());
                    assert(old_calls == old(device).device_calls());
                    assert(failed_upload_calls(initial, updates@, old_live, created@, error, tail));
                    assert(exists|handles: Seq<TextureHandle>, calls: Seq<DeviceCall>|
                        device.device_calls() == old(device).device_calls() + calls
                            && failed_upload_calls(
                            initial_stage(old(self)@),
                            updates@,
                            old(device).live_textures(),
                            handles,
                            error,
                            calls,
                        ));
                }
                return Err(error);
            },
            None => {},
        }
        proof {
            assert(updates@.take(updates@.len() as int) =~= updates@);
        }
        let ghost sent = commands;
        let ghost submission = if uploaded > 0 {
            seq![sent]
        } else {
            Seq::<CommandList>::empty()
        };
        let ghost descriptors_made = new_texture_descriptors(initial, updates@);
        let ghost created_calls = device.device_calls();
        proof {
            assert(created_calls == old_calls + creation_calls(descriptors_made, created@));
        }
        if uploaded > 0 {
            let answer = device.submit(commands);
            match answer {
                Ok(accepted) => {
                    proof {
                        assert(accepted == ());
                        assert(answer == Ok::<(), DeviceError>(()));
                        assert(device.device_calls() == created_calls.push(
                            DeviceCall::Submit(sent, Ok(())),
                        ));
                    }
                },
                Err(error) => {
                    let ghost refusal = DeviceCall::Submit(sent, Err(error));
                    proof {
                        assert(device.device_calls() == created_calls.push(refusal));
                        assert(created@.len() == all_descriptors.len());
                    }
                    Self::destroy_all(device, &created, Ghost(old_live), Ghost(old_descriptors));
                    proof {
                        let tail = creation_calls(all_descriptors, created@).push(refusal)
                            + destruction_calls(created@);
                        assert(device.device_calls() =~= old_calls + tail);
                        assert(initial == initial_stage(old(self)@));
                        assert(old_live == old(device).live_textures());
                        assert(old_calls == old(device).device_calls());
                        assert(failed_upload_calls(initial, updates@, old_live, created@, error, tail));
                        assert(exists|handles: Seq<TextureHandle>, calls: Seq<DeviceCall>|
                            device.device_calls() == old(device).device_calls() + calls
                                && failed_upload_calls(
                                initial_stage(old(self)@),
                                updates@,
                                old(device).live_textures(),
                                handles,
                                error,
                                calls,
                            ));
                    }
                    return Err(error);
                },
            }
        }
        self.textures = staged;
        let ghost made = handles_from(created@, 0);
        let ghost submitted_descriptors = device.texture_descriptors();
        let ghost target = old_live.union(made).difference(handles_from(replaced@, 0));
        proof {
            lemma_books_end(old_cache, stage_updates(initial, updates@), self.textures@, created@, replaced@, old_live);
            lemma_books_fresh(old_cache, stage_updates(initial, updates@), self.textures@, created@, replaced@, old_live);
            lemma_descriptors_end(
                submitted_descriptors,
                old_descriptors,
                old_cache,
                stage_updates(initial, updates@),
                self.textures@,
                created@,
                replaced@,
            );
            assert(submitted_descriptors.remove_keys(handles_from(replaced@.take(0), 0))
                =~= submitted_descriptors);
            assert(replaced@.take(0) =~= Seq::<TextureHandle>::empty());
            assert(handles_from(replaced@.take(0), 0) =~= Set::<u64>::empty());
            assert(old_live.union(made).difference(Set::<u64>::empty()) =~= old_live.union(made));
            let no_destroys = replaced@.take(0).map_values(
                |handle: TextureHandle| DeviceCall::DestroyTexture(handle),
            );
            assert(no_destroys =~= Seq::<DeviceCall>::empty());
            if uploaded > 0 {
                assert(submission.map_values(|commands: CommandList| DeviceCall::Submit(commands, Ok(())))
                    =~= seq![DeviceCall::Submit(sent, Ok(()))]);
                assert(device.device_calls() == created_calls.push(DeviceCall::Submit(sent, Ok(()))));
            } else {
                assert(submission.map_values(|commands: CommandList| DeviceCall::Submit(commands, Ok(())))
                    =~= Seq::<DeviceCall>::empty());
                assert(device.device_calls() == created_calls);
            }
            assert(device.device_calls() =~= old_calls + upload_calls(
                descriptors_made,
                created@,
                submission,
                replaced@.take(0),
            ));
        }
        let mut position: usize = 0;
        while position < replaced.len()
            invariant
                position <= replaced@.len(),
                target == old_live.union(made).difference(handles_from(replaced@, 0)),
                device.texture_descriptors() == submitted_descriptors.remove_keys(
                    handles_from(replaced@.take(position as int), 0),
                ),
                device.resize_log() == old(device).resize_log(),
                device.live_textures() == old_live.union(made).difference(
                    handles_from(replaced@.take(position as int), 0),
                ),
                agrees(self@, stage_updates(initial, updates@), old_live),
                uploaded == upload_count(initial, updates@),
                uploaded > 0 ==> device.submitted() == old_submitted.push(sent),
                uploaded == 0 ==> device.submitted() == old_submitted,
                upload_writes(initial, updates@, sent.commands_spec(), old_live),
                device.device_calls() == old_calls + upload_calls(
                    descriptors_made,
                    created@,
                    submission,
                    replaced@.take(position as int),
                ),
            decreases replaced.len() - position,
        {
            let ghost prior = handles_from(replaced@.take(position as int), 0);
            let ghost calls_before = device.device_calls();
            device.destroy_texture(replaced[position]);
            proof {
                assert(replaced@.take(position + 1) =~= replaced@.take(position as int).push(
                    replaced@[position as int],
                ));
                assert(upload_calls(descriptors_made, created@, submission, replaced@.take(position + 1))
                    =~= upload_calls(
                    descriptors_made,
                    created@,
                    submission,
                    replaced@.take(position as int),
                ).push(DeviceCall::DestroyTexture(replaced@[position as int])));
                assert(device.device_calls() =~= old_calls + upload_calls(
                    descriptors_made,
                    created@,
                    submission,
                    replaced@.take(position + 1),
                ));
                let longer = replaced@.take(position + 1);
                let shorter = replaced@.take(position as int);
                let last = replaced@[position as int];
                let grown = handles_from(longer, 0);
                assert(grown =~= prior.insert(last@)) by {
                    assert forall|c: u64| grown.contains(c) implies prior.insert(last@).contains(c) by {
                        let j = choose|j: int| 0 <= j < longer.len() && longer[j]@ == c;
                        if j < position {
                            assert(shorter[j] == longer[j]);
                        }
                    }
                    assert forall|c: u64| prior.insert(last@).contains(c) implies grown.contains(c) by {
                        if c == last@ {
                            assert(longer[position as int] == last);
                        } else {
                            let j = choose|j: int| 0 <= j < shorter.len() && shorter[j]@ == c;
                            assert(longer[j] == shorter[j]);
                        }
                    }
                }
                assert(device.live_textures() =~= old_live.union(made).difference(grown));
                assert(device.texture_descriptors() =~= submitted_descriptors.remove_keys(grown));
            }
            position = position + 1;
        }
        proof {
            assert(replaced@.take(replaced@.len() as int) =~= replaced@);
            assert(device.submitted().skip(old_submitted.len() as int) =~= submission);
            assert(created@.len() == descriptors_made.len());
            assert(replaced@.len() == replacement_count(initial, updates@));
            assert(renewal_books(old_cache, stage_updates(initial, updates@), self@, created@, replaced@));
        }
        Ok(uploaded)
    }

    /// Destroys the textures created by a call that failed, which gives the
    /// device back the textures it held before the call.
    fn destroy_all<D: GraphicsDevice>(
        device: &mut D,
        created: &Vec<TextureHandle>,
        old_live: Ghost<Set<u64>>,
        old_descriptors: Ghost<Map<u64, TextureDescriptor>>,
    )
        requires
            forall|i: int, j: int| 0 <= i < j < created@.len() ==> created@[i]@ != created@[j]@,
            forall|i: int| 0 <= i < created@.len() ==> !old_live@.contains(created@[i]@),
            old(device).live_textures() == old_live@.union(handles_from(created@, 0)),
            descriptors_extend(
                old(device).texture_descriptors(),
                old_descriptors@,
                handles_from(created@, 0),
            ),
        ensures
            final(device).live_textures() == old_live@,
            final(device).texture_descriptors() == old_descriptors@,
            final(device).submitted() == old(device).submitted(),
            final(device).resize_log() == old(device).resize_log(),
            final(device).device_calls() == old(device).device_calls() + destruction_calls(created@),
    {
        let mut position: usize = 0;
        proof {
            assert(destruction_calls(created@.take(0)) =~= Seq::<DeviceCall>::empty());
            assert(device.device_calls() + Seq::<DeviceCall>::empty() =~= device.device_calls());
        }
        while position < created.len()
            invariant
                device.device_calls() == old(device).device_calls() + destruction_calls(
                    created@.take(position as int),
                ),
                device.submitted() == old(device).submitted(),
                device.resize_log() == old(device).resize_log(),
                descriptors_extend(
                    device.texture_descriptors(),
                    old_descriptors@,
                    handles_from(created@, position as int),
                ),
                position <= created@.len(),
                forall|i: int, j: int|
                    0 <= i < j < created@.len() ==> created@[i]@ != created@[j]@,
                forall|i: int| 0 <= i < created@.len() ==> !old_live@.contains(created@[i]@),
                device.live_textures() == old_live@.union(handles_from(created@, position as int)),
            decreases created.len() - position,
        {
            let handle = created[position];
            let ghost before = device.texture_descriptors();
            device.destroy_texture(handle);
            proof {
                assert(created@.take(position + 1) =~= created@.take(position as int).push(handle));
                assert(destruction_calls(created@.take(position + 1)) =~= destruction_calls(
                    created@.take(position as int),
                ).push(DeviceCall::DestroyTexture(handle)));
                let later = handles_from(created@, position + 1);
                let current = handles_from(created@, position as int);
                assert(current.contains(handle@)) by {
                    assert(created@[position as int] == handle);
                }
                assert forall|value: u64| #[trigger] later.contains(value) implies current.contains(value)
                    && value != handle@ by {
                    let j = choose|j: int| position + 1 <= j < created@.len() && created@[j]@ == value;
                    assert(created@[j]@ != created@[position as int]@);
                }
                assert forall|value: u64| #[trigger] current.contains(value) && value != handle@ implies later.contains(value) by {
                    let j = choose|j: int| position <= j < created@.len() && created@[j]@ == value;
                    assert(j != position);
                }
                assert(device.texture_descriptors().remove_keys(later) =~= before.remove_keys(current));
                assert forall|value: u64| #[trigger] later.contains(value) implies device.texture_descriptors().contains_key(
                    value,
                ) && !old_descriptors@.contains_key(value) by {
                    assert(current.contains(value));
                }
                assert(device.live_textures() =~= old_live@.union(
                    handles_from(created@, position + 1),
                )) by {
                    assert forall|value: u64|
                        #![trigger handles_from(created@, position + 1).contains(value)]
                        handles_from(created@, position as int).contains(value) && value
                            != handle@ <==> handles_from(created@, position + 1).contains(
                            value,
                        ) by {
                        if handles_from(created@, position + 1).contains(value) {
                            let j = choose|j: int|
                                position + 1 <= j < created@.len() && created@[j]@ == value;
                            assert(created@[j]@ != created@[position as int]@);
                        }
                        if handles_from(created@, position as int).contains(value) && value
                            != handle@ {
                            let j = choose|j: int|
                                position <= j < created@.len() && created@[j]@ == value;
                            assert(j != position);
                        }
                    }
                }
            }
            position = position + 1;
        }
        proof {
            assert(created@.take(created@.len() as int) =~= created@);
            assert(handles_from(created@, created@.len() as int) =~= Set::<u64>::empty());
            assert(device.live_textures() =~= old_live@);
            assert(device.texture_descriptors().remove_keys(Set::<u64>::empty())
                =~= device.texture_descriptors());
        }
    }

    /// Drops the entries of `images` and destroys their textures.
    pub fn evict<D: GraphicsDevice>(&mut self, device: &mut D, images: &[ImageId])
        ensures
            final(self)@ == old(self)@.remove_keys(image_values(images@)),
            final(device).live_textures() == old(device).live_textures().difference(
                cached_handles(old(self)@, image_values(images@)),
            ),
            final(device).submitted() == old(device).submitted(),
            final(device).device_calls() == old(device).device_calls() + evict_calls(
                old(self)@,
                images@,
                images@.len() as int,
            ),
    {
        let ghost original = self.textures@;
        let ghost old_live = device.live_textures();
        let mut position: usize = 0;
        proof {
            assert(cached_handles(original, image_values_prefix(images@, 0)) =~= Set::<u64>::empty());
            assert(old_live.difference(Set::<u64>::empty()) =~= old_live);
        }
        while position < images.len()
            invariant
                position <= images@.len(),
                self@ == original.remove_keys(image_values_prefix(images@, position as int)),
                device.live_textures() == old_live.difference(
                    cached_handles(original, image_values_prefix(images@, position as int)),
                ),
                device.submitted() == old(device).submitted(),
                device.device_calls() == old(device).device_calls() + evict_calls(
                    original,
                    images@,
                    position as int,
                ),
            decreases images.len() - position,
        {
            let image = images[position].value();
            let ghost live_before = device.live_textures();
            let ghost calls_before = device.device_calls();
            let ghost remaining = self@;
            let ghost before = cached_handles(original, image_values_prefix(images@, position as int));
            let removed = self.textures.remove(&image);
            match removed {
                Some(texture) => device.destroy_texture(texture.handle),
                None => {},
            }
            proof {
                let next = evict_calls(original, images@, position + 1);
                assert(remaining == original.remove_keys(image_values_prefix(images@, position as int)));
                match removed {
                    Some(texture) => {
                        assert(remaining.contains_key(image) && remaining[image] == texture);
                        assert(next == evict_calls(original, images@, position as int).push(
                            DeviceCall::DestroyTexture(texture.handle),
                        ));
                        assert(device.device_calls() =~= old(device).device_calls() + next);
                    },
                    None => {
                        assert(!remaining.contains_key(image));
                        assert(next =~= evict_calls(original, images@, position as int));
                    },
                }
                assert(image_values_prefix(images@, position + 1) =~= image_values_prefix(
                    images@,
                    position as int,
                ).insert(image)) by {
                    assert forall|value: u64|
                        image_values_prefix(images@, position + 1).contains(
                            value,
                        ) implies image_values_prefix(images@, position as int).insert(
                            image,
                        ).contains(value) by {
                        let j = choose|j: int|
                            #![trigger images@[j]]
                            0 <= j < position + 1 && images@[j]@ == value;
                        if j < position {
                            assert(image_values_prefix(images@, position as int).contains(value));
                        }
                    }
                    assert forall|value: u64|
                        image_values_prefix(images@, position as int).insert(image).contains(
                            value,
                        ) implies image_values_prefix(images@, position + 1).contains(value) by {
                        if value == image {
                            assert(images@[position as int]@ == image);
                        } else {
                            let j = choose|j: int|
                                #![trigger images@[j]]
                                0 <= j < position && images@[j]@ == value;
                            assert(images@[j]@ == value);
                        }
                    }
                }
                assert(self@ =~= original.remove_keys(image_values_prefix(images@, position + 1)));
                let after = cached_handles(original, image_values_prefix(images@, position + 1));
                match removed {
                    Some(texture) => {
                        assert(after =~= before.insert(texture.handle@)) by {
                            assert(original[image] == texture);
                            assert forall|h: u64| after.contains(h) implies before.insert(texture.handle@).contains(h) by {
                                let i = choose|i: u64|
                                    #![trigger original[i]]
                                    image_values_prefix(images@, position + 1).contains(i) && original.contains_key(i)
                                        && original[i].handle@ == h;
                                if i != image {
                                    assert(image_values_prefix(images@, position as int).contains(i));
                                }
                            }
                            assert forall|h: u64| before.insert(texture.handle@).contains(h) implies after.contains(h) by {
                                if h == texture.handle@ {
                                    assert(image_values_prefix(images@, position + 1).contains(image));
                                    assert(original[image].handle@ == h);
                                } else {
                                    let i = choose|i: u64|
                                        #![trigger original[i]]
                                        image_values_prefix(images@, position as int).contains(i) && original.contains_key(i)
                                            && original[i].handle@ == h;
                                    assert(image_values_prefix(images@, position + 1).contains(i));
                                }
                            }
                        }
                        assert(device.live_textures() =~= old_live.difference(after));
                    },
                    None => {
                        assert(after =~= before) by {
                            assert forall|h: u64| after.contains(h) implies before.contains(h) by {
                                let i = choose|i: u64|
                                    #![trigger original[i]]
                                    image_values_prefix(images@, position + 1).contains(i) && original.contains_key(i)
                                        && original[i].handle@ == h;
                                if i != image {
                                    assert(image_values_prefix(images@, position as int).contains(i));
                                } else {
                                    assert(image_values_prefix(images@, position as int).contains(i));
                                }
                            }
                            assert forall|h: u64| before.contains(h) implies after.contains(h) by {
                                let i = choose|i: u64|
                                    #![trigger original[i]]
                                    image_values_prefix(images@, position as int).contains(i) && original.contains_key(i)
                                        && original[i].handle@ == h;
                                assert(image_values_prefix(images@, position + 1).contains(i));
                            }
                        }
                    },
                }
            }
            position = position + 1;
        }
    }

    /// Drops every entry whose image is not one of `images` and destroys its
    /// texture.
    pub fn retain_only<D: GraphicsDevice>(&mut self, device: &mut D, images: &[ImageId])
        ensures
            final(self)@ == old(self)@.restrict(image_values(images@)),
            final(device).live_textures() == old(device).live_textures().difference(
                cached_handles(old(self)@, old(self)@.dom().difference(image_values(images@))),
            ),
            final(device).submitted() == old(device).submitted(),
            exists|order: Seq<u64>|
                {
                    &&& order.no_duplicates()
                    &&& order.to_set() == old(self)@.dom().difference(image_values(images@))
                    &&& final(device).device_calls() == old(device).device_calls()
                        + destroy_calls(old(self)@, order)
                },
    {
        let ghost old_live = device.live_textures();
        let ghost original = self.textures@;
        let ghost kept = image_values(images@);
        let mut stale: Vec<u64> = Vec::new();
        for image in it: self.textures.keys()
            invariant
                original == self.textures@,
                kept == image_values(images@),
                it.seq().unref().to_set() == original.dom(),
                it.seq().no_duplicates(),
                stale@.no_duplicates(),
                forall|k: int, j: int|
                    0 <= k < stale@.len() && it.index() <= j < it.seq().len() ==> *#[trigger] it.seq()[j]
                        != #[trigger] stale@[k],
                forall|value: u64|
                    #![trigger stale@.contains(value)]
                    stale@.contains(value) ==> original.contains_key(value) && !kept.contains(value),
                forall|value: u64|
                    #![trigger original.contains_key(value)]
                    original.contains_key(value) && !kept.contains(value) && !stale@.contains(value)
                        ==> exists|j: int|
                        #![trigger it.seq()[j]]
                        it.index() <= j < it.seq().len() && *it.seq()[j] == value,
        {
            let ghost index = it.index();
            let ghost length = stale@.len();
            let ghost previous = stale@;
            assert(*image == *it.seq()[index as int]);
            assert(it.seq().unref()[index as int] == *image);
            assert(it.seq().unref().to_set().contains(*image));
            let found = Self::contains_image(images, *image);
            if !found {
                stale.push(*image);
                proof {
                    assert(stale@[length as int] == *image);
                    assert forall|a: int, b: int| 0 <= a < b < stale@.len() implies stale@[a] != stale@[b] by {
                        if b == length {
                            assert(previous[a] != *it.seq()[index as int]);
                        } else {
                            assert(previous[a] != previous[b]);
                        }
                    }
                }
            }
            proof {
                assert forall|k: int, j: int|
                    0 <= k < stale@.len() && index + 1 <= j < it.seq().len() implies *#[trigger] it.seq()[j]
                    != #[trigger] stale@[k] by {
                    if k < previous.len() {
                        assert(stale@[k] == previous[k]);
                    } else {
                        assert(it.seq()[j] != it.seq()[index as int]);
                    }
                }
                assert forall|value: u64| #[trigger] stale@.contains(value) implies original.contains_key(value)
                    && !kept.contains(value) by {
                    let k = choose|k: int| 0 <= k < stale@.len() && stale@[k] == value;
                    if k < previous.len() {
                        assert(previous[k] == value);
                        assert(previous.contains(value));
                    } else {
                        assert(!found && value == *image);
                        assert(original.dom().contains(value));
                    }
                }
                assert forall|value: u64|
                    #![trigger original.contains_key(value)]
                    original.contains_key(value) && !kept.contains(value) && !stale@.contains(value)
                        implies exists|j: int|
                        #![trigger it.seq()[j]]
                        index + 1 <= j < it.seq().len() && *it.seq()[j] == value by {
                    if previous.contains(value) {
                        let k = choose|k: int| 0 <= k < previous.len() && previous[k] == value;
                        assert(stale@[k] == value);
                    }
                    let j = choose|j: int|
                        #![trigger it.seq()[j]]
                        index <= j < it.seq().len() && *it.seq()[j] == value;
                    if j == index {
                        assert(value == *image);
                        assert(stale@[length as int] == value);
                    }
                }
            }
        }
        proof {
            assert forall|value: u64|
                original.contains_key(value) && !kept.contains(value) implies #[trigger] stale@.contains(value) by {
                if !stale@.contains(value) {
                    assert(original.contains_key(value));
                }
            }
        }
        let mut position: usize = 0;
        proof {
            assert(stale@.take(0).to_set() =~= Set::<u64>::empty());
            assert(destroy_calls(original, stale@.take(0)) =~= Seq::<DeviceCall>::empty());
            assert(device.device_calls() + Seq::<DeviceCall>::empty() =~= device.device_calls());
            assert(cached_handles(original, Set::<u64>::empty()) =~= Set::<u64>::empty());
            assert(old_live.difference(Set::<u64>::empty()) =~= old_live);
        }
        while position < stale.len()
            invariant
                position <= stale@.len(),
                self@ == original.remove_keys(stale@.take(position as int).to_set()),
                device.live_textures() == old_live.difference(
                    cached_handles(original, stale@.take(position as int).to_set()),
                ),
                device.submitted() == old(device).submitted(),
                device.device_calls() == old(device).device_calls() + destroy_calls(
                    original,
                    stale@.take(position as int),
                ),
                stale@.no_duplicates(),
                forall|value: u64|
                    #![trigger stale@.contains(value)]
                    stale@.contains(value) ==> original.contains_key(value),
            decreases stale.len() - position,
        {
            let image = stale[position];
            let ghost prior = stale@.take(position as int).to_set();
            let ghost calls_before = device.device_calls();
            proof {
                assert(stale@.contains(image));
                assert(!prior.contains(image)) by {
                    if prior.contains(image) {
                        let k = choose|k: int| 0 <= k < position && stale@.take(position as int)[k] == image;
                        assert(stale@[k] == stale@[position as int]);
                    }
                }
            }
            let removed = self.textures.remove(&image);
            match removed {
                Some(texture) => device.destroy_texture(texture.handle),
                None => {},
            }
            proof {
                lemma_cached_handles_insert(original, prior, image);
                match removed {
                    Some(texture) => {
                        assert(original.contains_key(image) && original[image] == texture);
                    },
                    None => {
                        assert(!original.contains_key(image) || prior.contains(image));
                        if original.contains_key(image) {
                            assert(prior.insert(image) =~= prior);
                        }
                    },
                }
                assert(stale@.take(position + 1) =~= stale@.take(position as int).push(image));
                assert(removed is Some);
                assert(destroy_calls(original, stale@.take(position + 1)) =~= destroy_calls(
                    original,
                    stale@.take(position as int),
                ).push(DeviceCall::DestroyTexture(original[image].handle)));
                assert(stale@.take(position + 1).to_set() =~= stale@.take(position as int).to_set().insert(image)) by {
                    stale@.take(position as int).lemma_push_to_set_commute(image);
                }
                assert(self@ =~= original.remove_keys(stale@.take(position + 1).to_set()));
            }
            position = position + 1;
        }
        proof {
            assert(stale@.take(stale@.len() as int) =~= stale@);
            assert forall|value: u64| stale@.to_set().contains(value) <==> stale@.contains(value) by {
            }
            assert(self@ =~= original.restrict(kept));
            assert(stale@.to_set() =~= original.dom().difference(kept));
            assert(stale@.no_duplicates() && stale@.to_set() == original.dom().difference(kept)
                && device.device_calls() == old(device).device_calls() + destroy_calls(original, stale@));
        }
    }

    /// Whether `image` is the value of one of `images`.
    fn contains_image(images: &[ImageId], image: u64) -> (found: bool)
        ensures
            found == image_values(images@).contains(image),
    {
        let mut position: usize = 0;
        while position < images.len()
            invariant
                position <= images@.len(),
                !image_values_prefix(images@, position as int).contains(image),
            decreases images.len() - position,
        {
            if images[position].value() == image {
                proof {
                    assert(images@[position as int]@ == image);
                }
                return true;
            }
            position = position + 1;
        }
        false
    }

}

/// Why `command`, the command at `index` of a list of `count` commands,
/// would be rejected by a device holding `buffers` and `textures`; `None`
/// when it is valid.
pub open spec fn command_error(
    command: Command,
    index: int,
    count: int,
    buffers: Map<u64, BufferDescriptor>,
    textures: Map<u64, TextureDescriptor>,
) -> Option<DeviceError> {
    match command {
        Command::WriteBuffer { buffer, offset, bytes } => {
            if !buffers.contains_key(buffer@) || offset + bytes@.len() > buffers[buffer@].size {
                Some(DeviceError::InvalidResource)
            } else {
                None
            }
        },
        Command::WriteTexture { texture, width, height, bytes } => {
            if !textures.contains_key(texture@) || width != textures[texture@].width || height
                != textures[texture@].height || bytes@.len() != super::rgba8_len(width, height) {
                Some(DeviceError::InvalidResource)
            } else {
                None
            }
        },
        Command::DrawTexture { texture, width, height, opacity_bits, .. } => {
            if !textures.contains_key(texture@) || width == 0 || height == 0 || !unit_interval_bits(
                opacity_bits,
            ) {
                Some(DeviceError::InvalidResource)
            } else {
                None
            }
        },
        Command::Present => {
            if index + 1 != count {
                Some(DeviceError::UnsupportedCommand)
            } else {
                None
            }
        },
    }
}

/// The error of the first rejected command among the first `checked`
/// commands, if any.
pub open spec fn first_error(
    commands: Seq<Command>,
    checked: int,
    buffers: Map<u64, BufferDescriptor>,
    textures: Map<u64, TextureDescriptor>,
) -> Option<DeviceError>
    decreases checked,
{
    if checked <= 0 {
        None
    } else {
        match first_error(commands, checked - 1, buffers, textures) {
            Some(error) => Some(error),
            None => command_error(
                commands[checked - 1],
                checked - 1,
                commands.len() as int,
                buffers,
                textures,
            ),
        }
    }
}

/// Once a command is rejected, the first error stays the same however many
/// later commands are checked.
pub proof fn lemma_first_error_stays(
    commands: Seq<Command>,
    checked: int,
    later: int,
    buffers: Map<u64, BufferDescriptor>,
    textures: Map<u64, TextureDescriptor>,
)
    requires
        0 <= checked <= later,
        first_error(commands, checked, buffers, textures) is Some,
    ensures
        first_error(commands, later, buffers, textures) == first_error(
            commands,
            checked,
            buffers,
            textures,
        ),
    decreases later - checked,
{
    if later > checked {
        lemma_first_error_stays(commands, checked, later - 1, buffers, textures);
    }
}

/// An in-memory device that hands out increasing handles, validates every
/// command list against the resources it holds, and can be told to fail the
/// next texture creation or submission.
pub struct MockGraphicsDevice {
    next_handle: u64,
    fail_next_texture_creation: bool,
    fail_next_submission: bool,
    buffers: HashMap<u64, BufferDescriptor>,
    textures: HashMap<u64, TextureDescriptor>,
    submitted: Vec<CommandList>,
    resized: Vec<Viewport>,
    calls: Ghost<Seq<DeviceCall>>,
}

impl Default for MockGraphicsDevice {
    fn default() -> (device: Self)
        ensures
            device.next_handle_spec() == 0,
            !device.fails_next_texture_creation(),
            !device.fails_next_submission(),
            device.buffers_spec() == Map::<u64, BufferDescriptor>::empty(),
            device.textures_spec() == Map::<u64, TextureDescriptor>::empty(),
            device.submitted_spec() == Seq::<CommandList>::empty(),
            device.resized_spec() == Seq::<Viewport>::empty(),
            device.device_calls() == Seq::<DeviceCall>::empty(),
    {
        let device = Self {
            next_handle: 0,
            fail_next_texture_creation: false,
            fail_next_submission: false,
            buffers: HashMap::new(),
            textures: HashMap::new(),
            submitted: Vec::new(),
            resized: Vec::new(),
            calls: Ghost(Seq::empty()),
        };
        proof {
            assert(device.buffers@ =~= Map::<u64, BufferDescriptor>::empty());
        }
        device
    }
}

impl MockGraphicsDevice {
    /// Every resource has a handle from 1 up to the last one handed out.
    #[verifier::type_invariant]
    pub closed spec fn well_formed(self) -> bool {
        &&& forall|handle: u64|
            self.buffers@.contains_key(handle) ==> 0 < handle <= self.next_handle
        &&& forall|handle: u64|
            self.textures@.contains_key(handle) ==> 0 < handle <= self.next_handle
    }

    /// The last handle handed out.
    pub closed spec fn next_handle_spec(&self) -> u64 {
        self.next_handle
    }

    pub closed spec fn fails_next_texture_creation(&self) -> bool {
        self.fail_next_texture_creation
    }

    pub closed spec fn fails_next_submission(&self) -> bool {
        self.fail_next_submission
    }

    pub closed spec fn buffers_spec(&self) -> Map<u64, BufferDescriptor> {
        self.buffers@
    }

    pub closed spec fn textures_spec(&self) -> Map<u64, TextureDescriptor> {
        self.textures@
    }

    /// The command lists accepted so far, in order.
    pub closed spec fn submitted_spec(&self) -> Seq<CommandList> {
        self.submitted@
    }

    /// The viewports the device was resized to, in order.
    pub closed spec fn resized_spec(&self) -> Seq<Viewport> {
        self.resized@
    }

    pub fn resized(&self) -> (resized: &[Viewport])
        ensures
            resized@ == self.resized_spec(),
    {
        self.resized.as_slice()
    }

    /// Hands out the handle after the last one; `None` once every handle has
    /// been handed out.
    fn next_handle(&mut self) -> (handle: Option<u64>)
        ensures
            match handle {
                Some(handle) => {
                    &&& old(self).next_handle < u64::MAX
                    &&& handle == old(self).next_handle + 1
                    &&& final(self).next_handle == handle
                },
                None => old(self).next_handle == u64::MAX && final(self).next_handle == old(self).next_handle,
            },
            final(self).fail_next_texture_creation == old(self).fail_next_texture_creation,
            final(self).fail_next_submission == old(self).fail_next_submission,
            final(self).buffers == old(self).buffers,
            final(self).textures == old(self).textures,
            final(self).submitted == old(self).submitted,
            final(self).resized == old(self).resized,
            final(self).calls == old(self).calls,
    {
        proof {
            use_type_invariant(&*self);
        }
        if self.next_handle == u64::MAX {
            None
        } else {
            self.next_handle = self.next_handle + 1;
            Some(self.next_handle)
        }
    }

    pub fn submitted(&self) -> (submitted: &[CommandList])
        ensures
            submitted@ == self.submitted_spec(),
    {
        self.submitted.as_slice()
    }

    /// Makes the next texture creation fail.
    pub fn fail_next_texture_creation(&mut self)
        ensures
            final(self).fails_next_texture_creation(),
            final(self).fails_next_submission() == old(self).fails_next_submission(),
            final(self).textures_spec() == old(self).textures_spec(),
            final(self).buffers_spec() == old(self).buffers_spec(),
            final(self).submitted_spec() == old(self).submitted_spec(),
            final(self).next_handle_spec() == old(self).next_handle_spec(),
    {
        proof {
            use_type_invariant(&*self);
        }
        self.fail_next_texture_creation = true;
    }

    /// Makes the next submission fail.
    pub fn fail_next_submission(&mut self)
        ensures
            final(self).fails_next_submission(),
            final(self).fails_next_texture_creation() == old(self).fails_next_texture_creation(),
            final(self).textures_spec() == old(self).textures_spec(),
            final(self).buffers_spec() == old(self).buffers_spec(),
            final(self).submitted_spec() == old(self).submitted_spec(),
            final(self).next_handle_spec() == old(self).next_handle_spec(),
    {
        proof {
            use_type_invariant(&*self);
        }
        self.fail_next_submission = true;
    }

    /// Whether the device holds `texture`.
    pub fn has_texture(&self, texture: TextureHandle) -> (held: bool)
        ensures
            held == self.textures_spec().contains_key(texture@),
    {
        self.textures.contains_key(&texture.value())
    }

    /// The descriptor `texture` was created with, while the device holds it.
    pub fn texture_descriptor(&self, texture: TextureHandle) -> (descriptor: Option<TextureDescriptor>)
        ensures
            descriptor == if self.textures_spec().contains_key(texture@) {
                Some(self.textures_spec()[texture@])
            } else {
                None::<TextureDescriptor>
            },
    {
        match self.textures.get(&texture.value()) {
            Some(descriptor) => Some(*descriptor),
            None => None,
        }
    }

    /// How many textures the device holds.
    pub fn texture_count(&self) -> (count: usize)
        ensures
            count == self.textures_spec().len(),
    {
        self.textures.len()
    }
}

impl GraphicsDevice for MockGraphicsDevice {
    open spec fn live_textures(&self) -> Set<u64> {
        self.textures_spec().dom()
    }

    open spec fn submitted(&self) -> Seq<CommandList> {
        self.submitted_spec()
    }

    open spec fn texture_descriptors(&self) -> Map<u64, TextureDescriptor> {
        self.textures_spec()
    }

    open spec fn resize_log(&self) -> Seq<Viewport> {
        self.resized_spec()
    }

    closed spec fn device_calls(&self) -> Seq<DeviceCall> {
        self.calls@
    }

    /// Records the viewport.
    fn resize(&mut self, viewport: Viewport) -> (result: Result<(), DeviceError>)
        ensures
            result is Ok,
            final(self).resized_spec() == old(self).resized_spec().push(viewport),
            final(self).textures_spec() == old(self).textures_spec(),
            final(self).buffers_spec() == old(self).buffers_spec(),
            final(self).submitted_spec() == old(self).submitted_spec(),
    {
        proof {
            use_type_invariant(&*self);
        }
        let mut resized = Vec::new();
        std::mem::swap(&mut resized, &mut self.resized);
        resized.push(viewport);
        self.resized = resized;
        let result = Ok(());
        self.record(Ghost(DeviceCall::Resize(viewport, result)));
        result
    }

    /// Fails for an empty buffer; otherwise records the buffer under a new handle.
    fn create_buffer(&mut self, descriptor: BufferDescriptor) -> (result: Result<
        BufferHandle,
        DeviceError,
    >)
        ensures
            descriptor.size == 0 ==> result == Err::<BufferHandle, DeviceError>(
                DeviceError::InvalidResource,
            ),
            match result {
                Ok(handle) => {
                    &&& handle@ == old(self).next_handle_spec() + 1
                    &&& final(self).next_handle_spec() == handle@
                    &&& final(self).buffers_spec() == old(self).buffers_spec().insert(
                        handle@,
                        descriptor,
                    )
                },
                Err(_) => final(self).buffers_spec() == old(self).buffers_spec(),
            },
            descriptor.size > 0 && old(self).next_handle_spec() < u64::MAX ==> result is Ok,
            final(self).textures_spec() == old(self).textures_spec(),
            final(self).submitted_spec() == old(self).submitted_spec(),
            final(self).resized_spec() == old(self).resized_spec(),
    {
        proof {
            use_type_invariant(&*self);
        }
        if descriptor.size == 0 {
            let result = Err(DeviceError::InvalidResource);
            self.record(Ghost(DeviceCall::CreateBuffer(descriptor, result)));
            return result;
        }
        let result = match self.next_handle() {
            Some(handle) => {
                let mut buffers = HashMap::new();
                std::mem::swap(&mut buffers, &mut self.buffers);
                buffers.insert(handle, descriptor);
                self.buffers = buffers;
                Ok(BufferHandle::new(handle))
            },
            None => Err(DeviceError::InvalidResource),
        };
        self.record(Ghost(DeviceCall::CreateBuffer(descriptor, result)));
        result
    }

    /// Fails when told to, or for an empty texture; otherwise records the
    /// texture under a new handle.
    fn create_texture(&mut self, descriptor: TextureDescriptor) -> (result: Result<
        TextureHandle,
        DeviceError,
    >)
        ensures
            !final(self).fails_next_texture_creation(),
            old(self).fails_next_texture_creation() || descriptor.width == 0 || descriptor.height
                == 0 ==> result == Err::<TextureHandle, DeviceError>(DeviceError::InvalidResource),
            match result {
                Ok(handle) => {
                    &&& handle@ == old(self).next_handle_spec() + 1
                    &&& final(self).next_handle_spec() == handle@
                    &&& final(self).textures_spec() == old(self).textures_spec().insert(
                        handle@,
                        descriptor,
                    )
                },
                Err(_) => final(self).textures_spec() == old(self).textures_spec(),
            },
            !old(self).fails_next_texture_creation() && descriptor.width > 0 && descriptor.height
                > 0 && old(self).next_handle_spec() < u64::MAX ==> result is Ok,
            final(self).buffers_spec() == old(self).buffers_spec(),
            final(self).submitted_spec() == old(self).submitted_spec(),
            final(self).resized_spec() == old(self).resized_spec(),
    {
        proof {
            use_type_invariant(&*self);
        }
        if self.fail_next_texture_creation {
            self.fail_next_texture_creation = false;
            let result = Err(DeviceError::InvalidResource);
            self.record(Ghost(DeviceCall::CreateTexture(descriptor, result)));
            return result;
        }
        if descriptor.width == 0 || descriptor.height == 0 {
            let result = Err(DeviceError::InvalidResource);
            self.record(Ghost(DeviceCall::CreateTexture(descriptor, result)));
            return result;
        }
        let result = match self.next_handle() {
            Some(handle) => {
                let mut textures = HashMap::new();
                std::mem::swap(&mut textures, &mut self.textures);
                textures.insert(handle, descriptor);
                self.textures = textures;
                Ok(TextureHandle::new(handle))
            },
            None => Err(DeviceError::InvalidResource),
        };
        self.record(Ghost(DeviceCall::CreateTexture(descriptor, result)));
        result
    }

    /// Fails when told to; otherwise rejects the list at its first invalid
    /// command, or keeps it as submitted.
    fn submit(&mut self, commands: CommandList) -> (result: Result<(), DeviceError>)
        ensures
            !final(self).fails_next_submission(),
            old(self).fails_next_submission() ==> result == Err::<(), DeviceError>(
                DeviceError::UnsupportedCommand,
            ),
            !old(self).fails_next_submission() ==> result == match first_error(
                commands.commands_spec(),
                commands.commands_spec().len() as int,
                old(self).buffers_spec(),
                old(self).textures_spec(),
            ) {
                Some(error) => Err::<(), DeviceError>(error),
                None => Ok(()),
            },
            final(self).submitted_spec() == if result is Ok {
                old(self).submitted_spec().push(commands)
            } else {
                old(self).submitted_spec()
            },
            final(self).buffers_spec() == old(self).buffers_spec(),
            final(self).textures_spec() == old(self).textures_spec(),
            final(self).resized_spec() == old(self).resized_spec(),
    {
        proof {
            use_type_invariant(&*self);
        }
        let ghost handed = commands;
        if self.fail_next_submission {
            self.fail_next_submission = false;
            let result = Err(DeviceError::UnsupportedCommand);
            self.record(Ghost(DeviceCall::Submit(handed, result)));
            return result;
        }
        match self.first_invalid(&commands) {
            Some(error) => {
                let result = Err(error);
                self.record(Ghost(DeviceCall::Submit(handed, result)));
                return result;
            },
            None => {},
        }
        let mut submitted = Vec::new();
        std::mem::swap(&mut submitted, &mut self.submitted);
        submitted.push(commands);
        self.submitted = submitted;
        let result = Ok(());
        self.record(Ghost(DeviceCall::Submit(handed, result)));
        result
    }

    fn destroy_buffer(&mut self, buffer: BufferHandle)
        ensures
            final(self).buffers_spec() == old(self).buffers_spec().remove(buffer@),
            final(self).textures_spec() == old(self).textures_spec(),
            final(self).submitted_spec() == old(self).submitted_spec(),
            final(self).resized_spec() == old(self).resized_spec(),
    {
        proof {
            use_type_invariant(&*self);
        }
        let mut buffers = HashMap::new();
        std::mem::swap(&mut buffers, &mut self.buffers);
        buffers.remove(&buffer.value());
        self.buffers = buffers;
        self.record(Ghost(DeviceCall::DestroyBuffer(buffer)));
    }

    fn destroy_texture(&mut self, texture: TextureHandle)
        ensures
            final(self).textures_spec() == old(self).textures_spec().remove(texture@),
            final(self).buffers_spec() == old(self).buffers_spec(),
            final(self).submitted_spec() == old(self).submitted_spec(),
            final(self).resized_spec() == old(self).resized_spec(),
    {
        proof {
            use_type_invariant(&*self);
        }
        let mut textures = HashMap::new();
        std::mem::swap(&mut textures, &mut self.textures);
        textures.remove(&texture.value());
        self.textures = textures;
        self.record(Ghost(DeviceCall::DestroyTexture(texture)));
    }
}

impl MockGraphicsDevice {
    /// Adds `call` to the record of calls.
    fn record(&mut self, call: Ghost<DeviceCall>)
        ensures
            final(self).calls@ == old(self).calls@.push(call@),
            final(self).next_handle == old(self).next_handle,
            final(self).fail_next_texture_creation == old(self).fail_next_texture_creation,
            final(self).fail_next_submission == old(self).fail_next_submission,
            final(self).buffers == old(self).buffers,
            final(self).textures == old(self).textures,
            final(self).submitted == old(self).submitted,
            final(self).resized == old(self).resized,
    {
        proof {
            use_type_invariant(&*self);
        }
        self.calls = Ghost(self.calls@.push(call@));
    }

    /// Why the device rejects `commands`: the error of the first invalid command.
    fn first_invalid(&self, commands: &CommandList) -> (error: Option<DeviceError>)
        ensures
            error == first_error(
                commands.commands_spec(),
                commands.commands_spec().len() as int,
                self.buffers@,
                self.textures@,
            ),
    {
        let count = commands.commands().len();
        let mut index: usize = 0;
        while index < count
            invariant
                count == commands.commands_spec().len(),
                index <= count,
                first_error(commands.commands_spec(), index as int, self.buffers@, self.textures@)
                    is None,
            decreases count - index,
        {
            let error = self.command_error(&commands.commands()[index], index, count);
            match error {
                Some(error) => {
                    proof {
                        lemma_first_error_stays(
                            commands.commands_spec(),
                            index as int + 1,
                            count as int,
                            self.buffers@,
                            self.textures@,
                        );
                    }
                    return Some(error);
                },
                None => {},
            }
            index = index + 1;
        }
        None
    }

    /// Why the device rejects `command`, the command at `index` of a list of
    /// `count` commands.
    fn command_error(&self, command: &Command, index: usize, count: usize) -> (error: Option<DeviceError>)
        requires
            index < count,
        ensures
            error == command_error(*command, index as int, count as int, self.buffers@, self.textures@),
    {
        match command {
            Command::WriteBuffer { buffer, offset, bytes } => match self.buffers.get(&buffer.value()) {
                Some(descriptor) => match offset.checked_add(bytes.len()) {
                    Some(end) => if end > descriptor.size {
                        Some(DeviceError::InvalidResource)
                    } else {
                        None
                    },
                    None => Some(DeviceError::InvalidResource),
                },
                None => Some(DeviceError::InvalidResource),
            },
            Command::WriteTexture { texture, width, height, bytes } => match self.textures.get(
                &texture.value(),
            ) {
                Some(descriptor) => {
                    let length = bytes.len();
                    let pixels = (*width as usize).checked_mul(*height as usize);
                    let expected = match pixels {
                        Some(pixels) => pixels.checked_mul(4),
                        None => None,
                    };
                    proof {
                        assert(*width * *height * 4 >= *width * *height) by (nonlinear_arith);
                    }
                    let matches_length = match expected {
                        Some(expected) => expected == length,
                        None => false,
                    };
                    if *width != descriptor.width || *height != descriptor.height || !matches_length {
                        Some(DeviceError::InvalidResource)
                    } else {
                        None
                    }
                },
                None => Some(DeviceError::InvalidResource),
            },
            Command::DrawTexture { texture, width, height, opacity_bits, .. } => {
                if !self.textures.contains_key(&texture.value()) || *width == 0 || *height == 0
                    || !(*opacity_bits <= super::ONE_BITS || *opacity_bits == 0x8000_0000u32) {
                    Some(DeviceError::InvalidResource)
                } else {
                    None
                }
            },
            Command::Present => if index + 1 != count {
                Some(DeviceError::UnsupportedCommand)
            } else {
                None
            },
        }
    }
}

/// Whether a command draws or presents: work that an upload-only device
/// leaves to the render target.
pub open spec fn draws_or_presents(command: Command) -> bool {
    command is DrawTexture || command is Present
}

/// Accepts a command list that only uploads: a device that cannot draw or
/// present refuses any list with a draw or a present.
pub fn validate_commands(commands: &CommandList) -> (result: Result<(), DeviceError>)
    ensures
        result == if exists|i: int|
            0 <= i < commands.commands_spec().len() && draws_or_presents(
                #[trigger] commands.commands_spec()[i],
            ) {
            Err::<(), DeviceError>(DeviceError::UnsupportedCommand)
        } else {
            Ok::<(), DeviceError>(())
        },
{
    let list = commands.commands();
    let mut index: usize = 0;
    while index < list.len()
        invariant
            index <= list@.len(),
            list@ == commands.commands_spec(),
            forall|i: int| 0 <= i < index ==> !draws_or_presents(#[trigger] list@[i]),
        decreases list@.len() - index,
    {
        match &list[index] {
            Command::DrawTexture { .. } | Command::Present => {
                proof {
                    assert(draws_or_presents(list@[index as int]));
                }
                return Err(DeviceError::UnsupportedCommand);
            },
            _ => {},
        }
        index = index + 1;
    }
    Ok(())
}

} // verus!

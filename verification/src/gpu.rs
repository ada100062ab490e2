//! Backend-independent GPU composition: texture identity, uploads and draw
//! commands for the visible tiles.
use std::collections::HashMap;
use vstd::prelude::*;

use crate::geometry::{ScreenPoint, ScreenSize};
use crate::Sprite;

verus! {

broadcast use vstd::std_specs::hash::group_hash_axioms;

/// Identity of a texture: the tile it shows and a hash of its content.
#[derive(Debug, Clone, Copy, PartialEq, Eq, Hash, Structural)]
pub struct TextureKey {
    pub tile: usize,
    pub content_hash: u64,
}

/// RGBA8 pixels to upload under a texture key.
#[derive(Debug, Clone, PartialEq, Eq)]
pub struct TextureUpload {
    pub key: TextureKey,
    pub width: u32,
    pub height: u32,
    pub rgba8: Vec<u8>,
}

impl TextureUpload {
    /// Whether the upload has a size and four bytes for each pixel.
    pub fn is_well_formed(&self) -> (well_formed: bool)
        ensures
            well_formed == (self.width > 0 && self.height > 0 && self.rgba8@.len()
                == crate::render::rgba8_len(self.width, self.height)),
    {
        let length = self.rgba8.len();
        let pixels = (self.width as usize).checked_mul(self.height as usize);
        proof {
            assert(self.width * self.height * 4 >= self.width * self.height) by (nonlinear_arith);
        }
        let expected = match pixels {
            Some(pixels) => pixels.checked_mul(4),
            None => None,
        };
        let matches = match expected {
            Some(expected) => length == expected,
            None => false,
        };
        self.width > 0 && self.height > 0 && matches
    }
}

/// One textured quad on the screen.
#[derive(Debug, Clone, Copy, PartialEq)]
pub struct TileDrawCommand {
    pub texture: TextureKey,
    pub position: ScreenPoint,
    pub size: (u32, u32),
}

/// A visible tile: its identity, where it is drawn, and its pixels.
pub struct VisibleTile<'a> {
    pub tile: usize,
    pub position: ScreenPoint,
    pub size: (u32, u32),
    pub sprite: &'a Sprite,
}

/// The FNV-1a offset basis.
pub const FNV_OFFSET: u64 = 0xcbf2_9ce4_8422_2325u64;

/// The FNV-1a prime.
pub const FNV_PRIME: u64 = 0x0000_0100_0000_01b3u64;

/// One FNV-1a step: mix a pixel into the hash.
pub open spec fn fnv_step(hash: u64, pixel: u32) -> u64 {
    (((hash ^ (pixel as u64)) as nat * FNV_PRIME as nat) % 0x1_0000_0000_0000_0000nat) as u64
}

/// The FNV-1a hash of the pixels, one 32-bit word at a time.
pub open spec fn pixels_hash(pixels: Seq<u32>) -> u64
    decreases pixels.len(),
{
    if pixels.len() == 0 {
        FNV_OFFSET
    } else {
        fnv_step(pixels_hash(pixels.drop_last()), pixels.last())
    }
}

/// Hashes the pixels of a sprite.
pub fn hash_pixels(pixels: &[u32]) -> (hash: u64)
    ensures
        hash == pixels_hash(pixels@),
{
    let mut hash: u64 = FNV_OFFSET;
    let mut index: usize = 0;
    proof {
        assert(pixels@.take(0) =~= Seq::<u32>::empty());
    }
    while index < pixels.len()
        invariant
            index <= pixels@.len(),
            hash == pixels_hash(pixels@.take(index as int)),
        decreases pixels.len() - index,
    {
        proof {
            assert(pixels@.take(index + 1).drop_last() =~= pixels@.take(index as int));
        }
        hash = (hash ^ pixels[index] as u64).wrapping_mul(FNV_PRIME);
        index = index + 1;
    }
    proof {
        assert(pixels@.take(pixels@.len() as int) =~= pixels@);
    }
    hash
}

/// Byte `channel` of the RGBA8 form of a packed pixel: its little-endian
/// bytes, with a zero alpha made opaque.
pub open spec fn rgba8_byte(pixel: u32, channel: int) -> u8 {
    if channel == 0 {
        (pixel & 0xff) as u8
    } else if channel == 1 {
        ((pixel >> 8u32) & 0xff) as u8
    } else if channel == 2 {
        ((pixel >> 16u32) & 0xff) as u8
    } else if (pixel >> 24u32) == 0 {
        255u8
    } else {
        (pixel >> 24u32) as u8
    }
}

/// The RGBA8 bytes of packed pixels, four per pixel.
pub open spec fn rgba8_of(pixels: Seq<u32>) -> Seq<u8> {
    Seq::new(pixels.len() * 4, |i: int| rgba8_byte(pixels[i / 4], i % 4))
}

/// Converts packed pixels to RGBA8 bytes.
pub fn to_rgba8(pixels: &[u32]) -> (rgba8: Vec<u8>)
    requires
        pixels@.len() * 4 <= usize::MAX,
    ensures
        rgba8@ == rgba8_of(pixels@),
{
    let mut rgba8: Vec<u8> = Vec::new();
    let mut index: usize = 0;
    while index < pixels.len()
        invariant
            index <= pixels@.len(),
            pixels@.len() * 4 <= usize::MAX,
            rgba8@.len() == index * 4,
            forall|i: int| 0 <= i < index * 4 ==> rgba8@[i] == rgba8_byte(pixels@[i / 4], i % 4),
        decreases pixels.len() - index,
    {
        let pixel = pixels[index];
        let alpha = (pixel >> 24u32) as u8;
        let ghost before = rgba8@;
        rgba8.push((pixel & 0xff) as u8);
        rgba8.push(((pixel >> 8u32) & 0xff) as u8);
        rgba8.push(((pixel >> 16u32) & 0xff) as u8);
        rgba8.push(if alpha == 0 { 255u8 } else { alpha });
        proof {
            assert((pixel >> 24u32) < 256 && ((pixel >> 24u32) as u8 == 0 <==> (pixel >> 24u32) == 0))
                by (bit_vector);
            assert forall|i: int| 0 <= i < (index + 1) * 4 implies rgba8@[i] == rgba8_byte(
                pixels@[i / 4],
                i % 4,
            ) by {
                if i >= index * 4 {
                    vstd::arithmetic::div_mod::lemma_fundamental_div_mod_converse(
                        i,
                        4,
                        index as int,
                        i - index * 4,
                    );
                } else {
                    assert(rgba8@[i] == before[i]);
                }
            }
        }
        index = index + 1;
    }
    proof {
        assert(rgba8@ =~= rgba8_of(pixels@));
    }
    rgba8
}

/// Byte `channel` of a packed pixel in little-endian order.
pub open spec fn le_byte(pixel: u32, channel: int) -> u8 {
    if channel == 0 {
        (pixel & 0xff) as u8
    } else if channel == 1 {
        ((pixel >> 8u32) & 0xff) as u8
    } else if channel == 2 {
        ((pixel >> 16u32) & 0xff) as u8
    } else {
        (pixel >> 24u32) as u8
    }
}

/// The little-endian bytes of packed pixels, four per pixel.
pub open spec fn le_bytes_of(pixels: Seq<u32>) -> Seq<u8> {
    Seq::new(pixels.len() * 4, |i: int| le_byte(pixels[i / 4], i % 4))
}

/// The little-endian bytes of packed pixels.
fn le_bytes(pixels: &[u32]) -> (bytes: Vec<u8>)
    requires
        pixels@.len() * 4 <= usize::MAX,
    ensures
        bytes@ == le_bytes_of(pixels@),
{
    let mut bytes: Vec<u8> = Vec::new();
    let mut index: usize = 0;
    while index < pixels.len()
        invariant
            index <= pixels@.len(),
            pixels@.len() * 4 <= usize::MAX,
            bytes@.len() == index * 4,
            forall|i: int| 0 <= i < index * 4 ==> bytes@[i] == le_byte(pixels@[i / 4], i % 4),
        decreases pixels.len() - index,
    {
        let pixel = pixels[index];
        let ghost before = bytes@;
        bytes.push((pixel & 0xff) as u8);
        bytes.push(((pixel >> 8u32) & 0xff) as u8);
        bytes.push(((pixel >> 16u32) & 0xff) as u8);
        bytes.push((pixel >> 24u32) as u8);
        proof {
            assert forall|i: int| 0 <= i < (index + 1) * 4 implies bytes@[i] == le_byte(
                pixels@[i / 4],
                i % 4,
            ) by {
                if i >= index * 4 {
                    vstd::arithmetic::div_mod::lemma_fundamental_div_mod_converse(
                        i,
                        4,
                        index as int,
                        i - index * 4,
                    );
                } else {
                    assert(bytes@[i] == before[i]);
                }
            }
        }
        index = index + 1;
    }
    proof {
        assert(bytes@ =~= le_bytes_of(pixels@));
    }
    bytes
}

/// The pixels of the debug overlay: `text` in opaque white from `(2, 2)` on a
/// transparent `width` by `height` image.
pub open spec fn overlay_pixels(text: Seq<char>, width: u32, height: u32) -> Seq<u32> {
    crate::renderer::painted_with(
        Seq::new((width * height) as nat, |i: int| 0u32),
        ScreenSize { width: width as usize, height: height as usize },
        0xffff_ffffu32,
        |px: int, py: int| crate::renderer::text_lit(text, 2, 2, px, py),
    )
}

/// The debug overlay as an upload: white text on a transparent background,
/// keyed apart from every tile.
pub fn debug_overlay_upload(text: &str, width: u32, height: u32) -> (upload: TextureUpload)
    requires
        width * height * 4 <= usize::MAX,
        text@.len() <= usize::MAX,
    ensures
        upload.width == width,
        upload.height == height,
        upload.key.tile == usize::MAX,
        upload.key.content_hash == pixels_hash(overlay_pixels(text@, width, height)),
        upload.rgba8@ == le_bytes_of(overlay_pixels(text@, width, height)),
{
    proof {
        assert(width * height * 4 >= width * height) by (nonlinear_arith);
    }
    let count = width as usize * height as usize;
    let mut pixels = vec![0u32; count];
    let size = ScreenSize { width: width as usize, height: height as usize };
    proof {
        assert(pixels@ =~= Seq::new((width * height) as nat, |i: int| 0u32));
    }
    crate::renderer::paint_text(pixels.as_mut_slice(), size, 2, 2, text, 0xffff_ffff);
    let rgba8 = le_bytes(pixels.as_slice());
    let content_hash = hash_pixels(pixels.as_slice());
    TextureUpload { key: TextureKey { tile: usize::MAX, content_hash }, width, height, rgba8 }
}

/// The texture last prepared for each tile.
#[derive(Debug)]
pub struct TextureCache {
    entries: HashMap<usize, TextureKey>,
}

impl Default for TextureCache {
    fn default() -> (cache: Self)
        ensures
            cache@ == Map::<usize, TextureKey>::empty(),
    {
        Self { entries: HashMap::new() }
    }
}

impl View for TextureCache {
    type V = Map<usize, TextureKey>;

    closed spec fn view(&self) -> Map<usize, TextureKey> {
        self.entries@
    }
}

/// The texture key of a sprite shown by `tile`.
pub open spec fn texture_key(tile: usize, pixels: Seq<u32>) -> TextureKey {
    TextureKey { tile, content_hash: pixels_hash(pixels) }
}

/// The values of the first `count` tile identities.
pub open spec fn tile_set(tiles: Seq<usize>, count: int) -> Set<usize> {
    Set::new(|tile: usize| exists|j: int| 0 <= j < count && tiles[j] == tile)
}

impl TextureCache {
    /// An upload of the sprite for `tile`, unless the cache already holds
    /// the same content for it.
    pub fn prepare(&mut self, tile: usize, sprite: &Sprite) -> (upload: Option<TextureUpload>)
        requires
            sprite.pixels_spec().len() * 4 <= usize::MAX,
        ensures
            final(self)@ == old(self)@.insert(tile, texture_key(tile, sprite.pixels_spec())),
            old(self)@.contains_key(tile) && old(self)@[tile] == texture_key(
                tile,
                sprite.pixels_spec(),
            ) ==> upload is None,
            !(old(self)@.contains_key(tile) && old(self)@[tile] == texture_key(
                tile,
                sprite.pixels_spec(),
            )) ==> match upload {
                Some(upload) => {
                    &&& upload.key == texture_key(tile, sprite.pixels_spec())
                    &&& upload.width == sprite.width_spec() as u32
                    &&& upload.height == sprite.height_spec() as u32
                    &&& upload.rgba8@ == rgba8_of(sprite.pixels_spec())
                },
                None => false,
            },
    {
        let key = TextureKey { tile, content_hash: hash_pixels(sprite.pixels()) };
        let unchanged = match self.entries.get(&tile) {
            Some(cached) => *cached == key,
            None => false,
        };
        if unchanged {
            proof {
                assert(self.entries@.insert(tile, key) =~= self.entries@);
            }
            return None;
        }
        self.entries.insert(tile, key);
        Some(
            TextureUpload {
                key,
                width: sprite.width() as u32,
                height: sprite.height() as u32,
                rgba8: to_rgba8(sprite.pixels()),
            },
        )
    }

    /// Forgets every tile that is not one of `tiles`.
    pub fn retain_only(&mut self, tiles: &[usize])
        ensures
            final(self)@ == old(self)@.restrict(tile_set(tiles@, tiles@.len() as int)),
    {
        let mut retained: HashMap<usize, TextureKey> = HashMap::new();
        let mut index: usize = 0;
        while index < tiles.len()
            invariant
                index <= tiles@.len(),
                retained@ == self.entries@.restrict(tile_set(tiles@, index as int)),
            decreases tiles.len() - index,
        {
            let tile = tiles[index];
            let ghost before = retained@;
            match self.entries.get(&tile) {
                Some(key) => {
                    retained.insert(tile, *key);
                },
                None => {},
            }
            proof {
                assert(tile_set(tiles@, index + 1) =~= tile_set(tiles@, index as int).insert(tile))
                    by {
                    assert(tiles@[index as int] == tile);
                    assert forall|t: usize| tile_set(tiles@, index + 1).contains(t) implies tile_set(
                        tiles@,
                        index as int,
                    ).insert(tile).contains(t) by {
                        let j = choose|j: int| 0 <= j < index + 1 && tiles@[j] == t;
                        if j < index {
                            assert(tile_set(tiles@, index as int).contains(t));
                        }
                    }
                }
                assert(retained@ =~= self.entries@.restrict(tile_set(tiles@, index + 1)));
            }
            index = index + 1;
        }
        self.entries = retained;
    }
}

/// The draw command of a placed tile.
pub open spec fn draw_command(position: ScreenPoint, size: (u32, u32), texture: TextureKey) -> TileDrawCommand {
    TileDrawCommand { texture, position, size }
}

/// One draw command per placed tile, in the same order.
pub fn build_draw_commands(placements: &[(ScreenPoint, (u32, u32), TextureKey)]) -> (commands: Vec<
    TileDrawCommand,
>)
    ensures
        commands@.len() == placements@.len(),
        forall|i: int|
            0 <= i < placements@.len() ==> #[trigger] commands@[i] == draw_command(
                placements@[i].0,
                placements@[i].1,
                placements@[i].2,
            ),
{
    let mut commands: Vec<TileDrawCommand> = Vec::new();
    let mut index: usize = 0;
    while index < placements.len()
        invariant
            index <= placements@.len(),
            commands@.len() == index,
            forall|i: int|
                0 <= i < index ==> #[trigger] commands@[i] == draw_command(
                    placements@[i].0,
                    placements@[i].1,
                    placements@[i].2,
                ),
        decreases placements.len() - index,
    {
        let (position, size, texture) = placements[index];
        commands.push(TileDrawCommand { texture, position, size });
        index = index + 1;
    }
    commands
}

/// The distinct keys of `keys` in the order they first appear.
pub open spec fn first_occurrences(keys: Seq<TextureKey>) -> Seq<TextureKey>
    decreases keys.len(),
{
    if keys.len() == 0 {
        Seq::empty()
    } else {
        let before = first_occurrences(keys.drop_last());
        if before.contains(keys.last()) {
            before
        } else {
            before.push(keys.last())
        }
    }
}

/// The texture of each command.
pub open spec fn command_textures(commands: Seq<TileDrawCommand>) -> Seq<TextureKey> {
    commands.map_values(|command: TileDrawCommand| command.texture)
}

/// The keys of a batch appear once each, and every texture of the batch is
/// among them.
pub proof fn lemma_first_occurrences_are_distinct(keys: Seq<TextureKey>)
    ensures
        first_occurrences(keys).no_duplicates(),
        forall|key: TextureKey| #[trigger] first_occurrences(keys).contains(key) <==> keys.contains(key),
    decreases keys.len(),
{
    if keys.len() > 0 {
        let before = keys.drop_last();
        lemma_first_occurrences_are_distinct(before);
        let last = keys.last();
        let earlier = first_occurrences(before);
        assert forall|key: TextureKey| #[trigger] first_occurrences(keys).contains(key) <==> keys.contains(key)
            by {
            assert(keys.contains(key) <==> (before.contains(key) || key == last)) by {
                if keys.contains(key) {
                    let j = choose|j: int| 0 <= j < keys.len() && keys[j] == key;
                    if j < keys.len() - 1 {
                        assert(before[j] == key);
                    }
                }
                if before.contains(key) {
                    let j = choose|j: int| 0 <= j < before.len() && before[j] == key;
                    assert(keys[j] == key);
                }
                if key == last {
                    assert(keys[keys.len() - 1] == key);
                }
            }
            if !earlier.contains(last) {
                assert(earlier.push(last).contains(key) <==> (earlier.contains(key) || key == last))
                    by {
                    if earlier.push(last).contains(key) {
                        let j = choose|j: int|
                            0 <= j < earlier.push(last).len() && earlier.push(last)[j] == key;
                        if j < earlier.len() {
                            assert(earlier[j] == key);
                        }
                    }
                    if earlier.contains(key) {
                        let j = choose|j: int| 0 <= j < earlier.len() && earlier[j] == key;
                        assert(earlier.push(last)[j] == key);
                    }
                    if key == last {
                        assert(earlier.push(last)[earlier.len() as int] == key);
                    }
                }
            }
        }
    }
}

/// The textures a batch of commands uses, each once, in draw order.
pub fn texture_keys_for_commands(commands: &[TileDrawCommand]) -> (keys: Vec<TextureKey>)
    ensures
        keys@ == first_occurrences(command_textures(commands@)),
{
    let mut keys: Vec<TextureKey> = Vec::new();
    let mut index: usize = 0;
    proof {
        assert(command_textures(commands@).take(0) =~= Seq::<TextureKey>::empty());
    }
    while index < commands.len()
        invariant
            index <= commands@.len(),
            keys@ == first_occurrences(command_textures(commands@).take(index as int)),
        decreases commands.len() - index,
    {
        let texture = commands[index].texture;
        let mut found = false;
        let mut position: usize = 0;
        while position < keys.len()
            invariant
                position <= keys@.len(),
                found <==> exists|j: int| 0 <= j < position && keys@[j] == texture,
            decreases keys.len() - position,
        {
            if keys[position] == texture {
                found = true;
            }
            position = position + 1;
        }
        proof {
            let textures = command_textures(commands@);
            assert(textures.take(index + 1).drop_last() =~= textures.take(index as int));
            assert(textures.take(index + 1).last() == texture);
            if found {
                let j = choose|j: int| 0 <= j < position && keys@[j] == texture;
                assert(keys@.contains(texture));
            } else {
                assert(!keys@.contains(texture));
            }
        }
        if !found {
            keys.push(texture);
        }
        index = index + 1;
    }
    proof {
        assert(command_textures(commands@).take(commands@.len() as int) =~= command_textures(
            commands@,
        ));
    }
    keys
}

/// The tile identities of the visible tiles.
pub open spec fn tile_ids(tiles: Seq<VisibleTile>) -> Seq<usize> {
    tiles.map_values(|tile: VisibleTile| tile.tile)
}

/// The cache after the texture of each tile is prepared in order.
pub open spec fn cache_after(cache: Map<usize, TextureKey>, tiles: Seq<VisibleTile>) -> Map<
    usize,
    TextureKey,
>
    decreases tiles.len(),
{
    if tiles.len() == 0 {
        cache
    } else {
        cache_after(cache, tiles.drop_last()).insert(
            tiles.last().tile,
            texture_key(tiles.last().tile, tiles.last().sprite.pixels_spec()),
        )
    }
}

/// Whether `upload` carries the texture of `tile`'s sprite.
pub open spec fn upload_of(tile: VisibleTile, upload: TextureUpload) -> bool {
    &&& upload.key == texture_key(tile.tile, tile.sprite.pixels_spec())
    &&& upload.width == tile.sprite.width_spec() as u32
    &&& upload.height == tile.sprite.height_spec() as u32
    &&& upload.rgba8@ == rgba8_of(tile.sprite.pixels_spec())
}

/// Whether `uploads` are the uploads of `tiles` prepared in order against
/// `cache`: one for each tile whose cached key differs from the key of its
/// content at that point, in tile order, and no other.
pub open spec fn batch_uploads(
    cache: Map<usize, TextureKey>,
    tiles: Seq<VisibleTile>,
    uploads: Seq<TextureUpload>,
) -> bool
    decreases tiles.len(),
{
    if tiles.len() == 0 {
        uploads.len() == 0
    } else {
        let before = cache_after(cache, tiles.drop_last());
        let tile = tiles.last();
        let key = texture_key(tile.tile, tile.sprite.pixels_spec());
        if before.contains_key(tile.tile) && before[tile.tile] == key {
            batch_uploads(cache, tiles.drop_last(), uploads)
        } else {
            &&& uploads.len() > 0
            &&& upload_of(tile, uploads.last())
            &&& batch_uploads(cache, tiles.drop_last(), uploads.drop_last())
        }
    }
}

/// The uploads and draw commands of one frame's visible tiles.
#[derive(Debug)]
pub struct PreparedTileBatch {
    pub uploads: Vec<TextureUpload>,
    pub commands: Vec<TileDrawCommand>,
}

impl Default for PreparedTileBatch {
    fn default() -> (batch: Self)
        ensures
            batch.uploads@.len() == 0,
            batch.commands@.len() == 0,
    {
        Self { uploads: Vec::new(), commands: Vec::new() }
    }
}

/// Prepares the uploads of new or changed tile content and one draw command
/// per visible tile; afterwards the cache holds only the visible tiles.
pub fn prepare_tile_batch(cache: &mut TextureCache, tiles: &[VisibleTile]) -> (batch: PreparedTileBatch)
    requires
        forall|i: int|
            0 <= i < tiles@.len() ==> #[trigger] tiles@[i].sprite.pixels_spec().len() * 4
                <= usize::MAX,
    ensures
        batch.commands@.len() == tiles@.len(),
        forall|i: int|
            0 <= i < tiles@.len() ==> #[trigger] batch.commands@[i] == draw_command(
                tiles@[i].position,
                tiles@[i].size,
                texture_key(tiles@[i].tile, tiles@[i].sprite.pixels_spec()),
            ),
        batch.uploads@.len() <= tiles@.len(),
        batch_uploads(old(cache)@, tiles@, batch.uploads@),
        final(cache)@ == cache_after(old(cache)@, tiles@).restrict(
            tile_set(tile_ids(tiles@), tiles@.len() as int),
        ),
{
    let mut uploads: Vec<TextureUpload> = Vec::new();
    let mut placements: Vec<(ScreenPoint, (u32, u32), TextureKey)> = Vec::new();
    let mut ids: Vec<usize> = Vec::new();
    let ghost original = cache@;
    let mut index: usize = 0;
    while index < tiles.len()
        invariant
            index <= tiles@.len(),
            forall|i: int|
                0 <= i < tiles@.len() ==> #[trigger] tiles@[i].sprite.pixels_spec().len() * 4
                    <= usize::MAX,
            uploads@.len() <= index,
            batch_uploads(original, tiles@.take(index as int), uploads@),
            placements@.len() == index,
            ids@ == tile_ids(tiles@.take(index as int)),
            cache@ == cache_after(original, tiles@.take(index as int)),
            forall|i: int|
                0 <= i < index ==> #[trigger] placements@[i] == (
                    tiles@[i].position,
                    tiles@[i].size,
                    texture_key(tiles@[i].tile, tiles@[i].sprite.pixels_spec()),
                ),
        decreases tiles.len() - index,
    {
        let tile = &tiles[index];
        let key = TextureKey { tile: tile.tile, content_hash: hash_pixels(tile.sprite.pixels()) };
        let ghost previous = uploads@;
        match cache.prepare(tile.tile, tile.sprite) {
            Some(upload) => uploads.push(upload),
            None => {},
        }
        proof {
            assert(tiles@.take(index + 1).drop_last() =~= tiles@.take(index as int));
            assert(tiles@.take(index + 1).last() == tiles@[index as int]);
            assert(uploads@.len() > previous.len() ==> uploads@.drop_last() =~= previous);
        }
        placements.push((tile.position, tile.size, key));
        ids.push(tile.tile);
        proof {
            assert(tiles@.take(index + 1) =~= tiles@.take(index as int).push(tiles@[index as int]));
            assert(ids@ =~= tile_ids(tiles@.take(index + 1)));
            assert(tiles@.take(index + 1).drop_last() =~= tiles@.take(index as int));
        }
        index = index + 1;
    }
    cache.retain_only(ids.as_slice());
    proof {
        assert(tiles@.take(tiles@.len() as int) =~= tiles@);
        assert(ids@ =~= tile_ids(tiles@));
    }
    let commands = build_draw_commands(placements.as_slice());
    PreparedTileBatch { uploads, commands }
}

} // verus!

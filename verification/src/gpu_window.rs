//! Decisions of the GPU window runtime: when to rebuild, how vertex buffers
//! grow and rotate, when the overlay is refreshed, and frame statistics.
use core::time::Duration;
use vstd::prelude::*;

use crate::gpu::{PreparedTileBatch, TextureUpload};

verus! {

/// The decimal digits of `value`, most significant first.
pub open spec fn decimal(value: nat) -> Seq<char>
    decreases value,
{
    if value < 10 {
        seq![digit_char(value)]
    } else {
        decimal(value / 10) + seq![digit_char(value % 10)]
    }
}

/// The character of a decimal digit.
pub open spec fn digit_char(digit: nat) -> char {
    if digit == 0 {
        '0'
    } else if digit == 1 {
        '1'
    } else if digit == 2 {
        '2'
    } else if digit == 3 {
        '3'
    } else if digit == 4 {
        '4'
    } else if digit == 5 {
        '5'
    } else if digit == 6 {
        '6'
    } else if digit == 7 {
        '7'
    } else if digit == 8 {
        '8'
    } else {
        '9'
    }
}

/// The one-character text of a decimal digit.
fn digit_text(digit: u64) -> (text: &'static str)
    requires
        digit < 10,
    ensures
        text@ == seq![digit_char(digit as nat)],
{
    proof {
        reveal_strlit("0");
        reveal_strlit("1");
        reveal_strlit("2");
        reveal_strlit("3");
        reveal_strlit("4");
        reveal_strlit("5");
        reveal_strlit("6");
        reveal_strlit("7");
        reveal_strlit("8");
        reveal_strlit("9");
    }
    if digit == 0 {
        "0"
    } else if digit == 1 {
        "1"
    } else if digit == 2 {
        "2"
    } else if digit == 3 {
        "3"
    } else if digit == 4 {
        "4"
    } else if digit == 5 {
        "5"
    } else if digit == 6 {
        "6"
    } else if digit == 7 {
        "7"
    } else if digit == 8 {
        "8"
    } else {
        "9"
    }
}

/// The decimal form of `value`, most significant digit first.
fn decimal_string(value: u64) -> (text: String)
    ensures
        text@ == decimal(value as nat),
    decreases value,
{
    if value < 10 {
        String::from_str(digit_text(value))
    } else {
        let head = decimal_string(value / 10);
        head.concat(digit_text(value % 10))
    }
}

/// The vertices must be rebuilt when the surface size changed.
pub fn needs_batch_rebuild(previous: (u32, u32), next: (u32, u32)) -> (rebuild: bool)
    ensures
        rebuild == (previous != next),
{
    previous.0 != next.0 || previous.1 != next.1
}

/// Frames are composed persistently exactly when the previous frame is kept.
pub fn uses_persistent_composition(preserve_previous_frame: bool) -> (persistent: bool)
    ensures
        persistent == preserve_previous_frame,
{
    preserve_previous_frame
}

/// The capacity that doubling `capacity` reaches for `required` vertices;
/// when doubling saturates, exactly `required`.
pub open spec fn grown_capacity(capacity: nat, required: nat) -> nat
    decreases if capacity >= required {
        0
    } else {
        required - capacity
    },
{
    if capacity >= required || capacity == 0 {
        capacity
    } else {
        let doubled = if capacity * 2 > usize::MAX {
            usize::MAX as nat
        } else {
            capacity * 2
        };
        if doubled == usize::MAX {
            required
        } else {
            grown_capacity(doubled, required)
        }
    }
}

/// The vertex capacity for `required` vertices: the current one when it
/// suffices, otherwise the current one (at least 1) doubled until it fits.
pub open spec fn capacity_for(current: nat, required: nat) -> nat {
    if required <= current {
        current
    } else {
        grown_capacity(if current == 0 {
            1
        } else {
            current
        }, required)
    }
}

/// Growing a capacity never falls short of the vertices required.
pub proof fn lemma_capacity_fits(current: nat, required: nat)
    requires
        required <= usize::MAX,
    ensures
        required <= capacity_for(current, required),
{
    if required > current {
        lemma_grown_fits(if current == 0 {
            1
        } else {
            current
        }, required);
    }
}

proof fn lemma_grown_fits(capacity: nat, required: nat)
    requires
        capacity > 0,
        required <= usize::MAX,
    ensures
        required <= grown_capacity(capacity, required),
    decreases if capacity >= required {
        0
    } else {
        required - capacity
    },
{
    if capacity < required {
        let doubled = if capacity * 2 > usize::MAX {
            usize::MAX as nat
        } else {
            capacity * 2
        };
        if doubled != usize::MAX {
            lemma_grown_fits(doubled, required);
        }
    }
}

/// Chooses the vertex capacity for `required` vertices.
pub fn vertex_buffer_capacity(current: usize, required: usize) -> (capacity: usize)
    ensures
        capacity == capacity_for(current as nat, required as nat),
{
    if required <= current {
        return current;
    }
    let mut capacity: usize = if current > 1 {
        current
    } else {
        1
    };
    while capacity < required
        invariant
            0 < capacity,
            required > current,
            grown_capacity(capacity as nat, required as nat) == capacity_for(
                current as nat,
                required as nat,
            ),
        decreases if capacity >= required {
            0
        } else {
            required - capacity
        },
    {
        capacity = match capacity.checked_mul(2) {
            Some(doubled) => doubled,
            None => usize::MAX,
        };
        if capacity == usize::MAX {
            return required;
        }
    }
    capacity
}

/// A buffer must be recreated when the required vertices exceed its capacity.
pub fn vertex_buffer_needs_recreation(current_capacity: usize, required_vertices: usize) -> (recreate: bool)
    ensures
        recreate == (required_vertices > current_capacity),
{
    required_vertices > current_capacity
}

/// The slot after `current` in a ring of `slot_count` slots (at least one).
pub fn next_vertex_buffer_slot(current: usize, slot_count: usize) -> (slot: usize)
    requires
        current < usize::MAX,
    ensures
        slot == (current + 1) % (if slot_count > 0 {
            slot_count as int
        } else {
            1
        }),
{
    let count = if slot_count > 1 {
        slot_count
    } else {
        1
    };
    (current + 1) % count
}

/// What identifies the overlay image on the GPU.
#[derive(Debug, Clone, Copy, PartialEq, Eq, Structural)]
pub struct OverlayCacheKey {
    pub width: u32,
    pub height: u32,
    pub content_hash: u64,
}

/// The cache key of an overlay upload.
pub fn overlay_cache_key(upload: &TextureUpload) -> (key: OverlayCacheKey)
    ensures
        key == (OverlayCacheKey {
            width: upload.width,
            height: upload.height,
            content_hash: upload.key.content_hash,
        }),
{
    OverlayCacheKey {
        width: upload.width,
        height: upload.height,
        content_hash: upload.key.content_hash,
    }
}

/// The overlay is uploaded again unless the previous one has the same key.
pub fn overlay_needs_refresh(previous: Option<OverlayCacheKey>, next: OverlayCacheKey) -> (refresh: bool)
    ensures
        refresh == (previous != Some(next)),
{
    match previous {
        Some(previous) => previous != next,
        None => true,
    }
}

/// The header line of the GPU overlay.
pub fn format_gpu_frame_overlay_header(frame_number: u64, visible_tiles: usize) -> (header: String)
    ensures
        header@ == "Frame #"@ + decimal(frame_number as nat) + ", tiles:"@ + decimal(
            visible_tiles as nat,
        ),
{
    let header = String::from_str("Frame #");
    let header = header.concat(decimal_string(frame_number).as_str());
    let header = header.concat(", tiles:");
    header.concat(decimal_string(visible_tiles as u64).as_str())
}

/// Statistics of one GPU frame.
#[derive(Debug, Clone, Copy, PartialEq, Eq)]
pub struct GpuFrameMetrics {
    visible_tiles: usize,
    uploaded_textures: usize,
    draw_calls: usize,
    prepare_duration: Duration,
}

impl GpuFrameMetrics {
    pub closed spec fn visible_tiles_spec(self) -> usize {
        self.visible_tiles
    }

    pub closed spec fn uploaded_textures_spec(self) -> usize {
        self.uploaded_textures
    }

    pub closed spec fn draw_calls_spec(self) -> usize {
        self.draw_calls
    }

    pub closed spec fn prepare_duration_spec(self) -> Duration {
        self.prepare_duration
    }

    /// Each draw command is one visible tile and one draw call; each upload
    /// is one new texture.
    pub fn from_batch(batch: &PreparedTileBatch, prepare_duration: Duration) -> (metrics: Self)
        ensures
            metrics.visible_tiles_spec() == batch.commands@.len(),
            metrics.uploaded_textures_spec() == batch.uploads@.len(),
            metrics.draw_calls_spec() == batch.commands@.len(),
            metrics.prepare_duration_spec() == prepare_duration,
    {
        Self {
            visible_tiles: batch.commands.len(),
            uploaded_textures: batch.uploads.len(),
            draw_calls: batch.commands.len(),
            prepare_duration,
        }
    }

    /// A one-line description of the frame's tiles and new textures.
    pub fn description(self) -> (description: String)
        ensures
            description@ == "tiles rasterizados neste frame: "@ + decimal(
                self.visible_tiles_spec() as nat,
            ) + ", texturas novas neste frame: "@ + decimal(self.uploaded_textures_spec() as nat),
    {
        let text = String::from_str("tiles rasterizados neste frame: ");
        let text = text.concat(decimal_string(self.visible_tiles as u64).as_str());
        let text = text.concat(", texturas novas neste frame: ");
        text.concat(decimal_string(self.uploaded_textures as u64).as_str())
    }

    pub fn visible_tiles(self) -> (visible_tiles: usize)
        ensures
            visible_tiles == self.visible_tiles_spec(),
    {
        self.visible_tiles
    }

    pub fn uploaded_textures(self) -> (uploaded_textures: usize)
        ensures
            uploaded_textures == self.uploaded_textures_spec(),
    {
        self.uploaded_textures
    }

    pub fn draw_calls(self) -> (draw_calls: usize)
        ensures
            draw_calls == self.draw_calls_spec(),
    {
        self.draw_calls
    }

    pub fn prepare_duration(self) -> (prepare_duration: Duration)
        ensures
            prepare_duration == self.prepare_duration_spec(),
    {
        self.prepare_duration
    }

    /// Whether the GPU drew as many tiles as the CPU reference.
    pub fn matches_cpu_visible_tiles(self, cpu_visible_tiles: usize) -> (matches: bool)
        ensures
            matches == (self.visible_tiles_spec() == cpu_visible_tiles),
    {
        self.visible_tiles == cpu_visible_tiles
    }
}

} // verus!

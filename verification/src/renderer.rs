//! Drawing on the CPU framebuffer, palettes, and the frame-timing history.
use core::time::Duration;
use vstd::prelude::*;

use crate::geometry::{ScreenPoint, ScreenSize};
use crate::render::{ImageId, ImageRevision, ImageUpdate, Rect, TileDraw, UvRect, ONE_BITS, ZERO_BITS};

verus! {

/// How iteration counts become colors.
#[derive(Debug, Clone, Copy, PartialEq, Eq, Structural)]
pub enum Palette {
    Shade,
    Rainbow,
    InvertedRainbow,
    PastelRainbow,
    InvertedRainbowPastel,
}

impl Default for Palette {
    fn default() -> (palette: Self)
        ensures
            palette == Palette::Rainbow,
    {
        Palette::Rainbow
    }
}

/// A rectangle on the screen, its edges included.
#[derive(Debug, Clone, Copy, PartialEq, Eq, Structural)]
pub struct ScreenRect {
    pub left: i32,
    pub top: i32,
    pub right: i32,
    pub bottom: i32,
}

/// Whether a framebuffer holds one pixel per position of `size`, and its
/// sides can be addressed with `i32` coordinates.
pub open spec fn fits_screen(framebuffer: Seq<u32>, size: ScreenSize) -> bool {
    &&& framebuffer.len() == size.width * size.height
    &&& size.width <= i32::MAX
    &&& size.height <= i32::MAX
}

/// The index of pixel `(x, y)` when it lies on the screen.
pub open spec fn on_screen(size: ScreenSize, x: int, y: int) -> bool {
    0 <= x < size.width && 0 <= y < size.height
}

/// The framebuffer with every on-screen pixel that `painted` selects set to
/// `color`.
pub open spec fn painted_with(
    framebuffer: Seq<u32>,
    size: ScreenSize,
    color: u32,
    painted: spec_fn(int, int) -> bool,
) -> Seq<u32> {
    Seq::new(
        framebuffer.len(),
        |i: int|
            if i < size.width * size.height && painted(i % size.width as int, i / size.width as int) {
                color
            } else {
                framebuffer[i]
            },
    )
}

/// Pixel `(x, y)` of a framebuffer is at index `y * width + x`.
proof fn lemma_pixel_index(size: ScreenSize, x: int, y: int)
    requires
        on_screen(size, x, y),
    ensures
        0 <= y * size.width + x < size.width * size.height,
        (y * size.width + x) % size.width as int == x,
        (y * size.width + x) / size.width as int == y,
{
    crate::lemma_row_major(size.width as int, y, x);
    assert(y * size.width + x < size.width * size.height) by (nonlinear_arith)
        requires
            0 <= x < size.width,
            0 <= y < size.height,
    ;
}

/// Setting one pixel paints the positions painted before and that pixel.
proof fn lemma_paint_one(
    old: Seq<u32>,
    before: Seq<u32>,
    after: Seq<u32>,
    size: ScreenSize,
    color: u32,
    painted: spec_fn(int, int) -> bool,
    next: spec_fn(int, int) -> bool,
    x: int,
    y: int,
)
    requires
        old.len() == size.width * size.height,
        before == painted_with(old, size, color, painted),
        forall|px: int, py: int| #[trigger] next(px, py) <==> (painted(px, py) || (px == x && py == y)),
        on_screen(size, x, y) ==> after == before.update(y * size.width + x, color),
        !on_screen(size, x, y) ==> after == before,
    ensures
        after == painted_with(old, size, color, next),
{
    if on_screen(size, x, y) {
        lemma_pixel_index(size, x, y);
    }
    let goal = painted_with(old, size, color, next);
    assert forall|i: int| 0 <= i < after.len() implies after[i] == goal[i] by {
        if i < size.width * size.height {
            assert(size.width > 0) by (nonlinear_arith)
                requires
                    0 <= i < size.width * size.height,
            ;
            crate::lemma_row_major_split(size.width as int, i);
            let px = i % size.width as int;
            let py = i / size.width as int;
            if px == x && py == y {
                assert(i == y * size.width + x);
            }
            assert(py < size.height) by (nonlinear_arith)
                requires
                    i == py * size.width + px,
                    0 <= px,
                    i < size.width * size.height,
                    py >= 0,
            ;
        }
    }
    assert(after =~= goal);
}

/// Sets pixel `(x, y)` when it lies on the screen.
pub fn set_pixel(framebuffer: &mut [u32], size: ScreenSize, x: i32, y: i32, color: u32)
    requires
        fits_screen(old(framebuffer)@, size),
    ensures
        on_screen(size, x as int, y as int) ==> final(framebuffer)@ == old(framebuffer)@.update(
            y * size.width + x,
            color,
        ),
        !on_screen(size, x as int, y as int) ==> final(framebuffer)@ == old(framebuffer)@,
{
    let length = framebuffer.len();
    if x >= 0 && y >= 0 && x < size.width as i32 && y < size.height as i32 {
        proof {
            lemma_pixel_index(size, x as int, y as int);
        }
        framebuffer[y as usize * size.width + x as usize] = color;
    }
}

/// The rows of the 5-by-7 glyph of a character, top row first, the most
/// significant of the five low bits leftmost; `None` for characters without
/// a glyph.
pub open spec fn glyph_rows(character: char) -> Option<Seq<u8>> {
    if false {
        None
    } else if character == 'C' {
        Some(seq![0b01110, 0b10001, 0b10000, 0b10000, 0b10000, 0b10001, 0b01110])
    } else if character == '#' {
        Some(seq![0b01010, 0b11111, 0b01010, 0b01010, 0b11111, 0b01010, 0b00000])
    } else if character == '0' {
        Some(seq![0b01110, 0b10001, 0b10011, 0b10101, 0b11001, 0b10001, 0b01110])
    } else if character == '1' {
        Some(seq![0b00100, 0b01100, 0b00100, 0b00100, 0b00100, 0b00100, 0b01110])
    } else if character == '2' {
        Some(seq![0b01110, 0b10001, 0b00001, 0b00010, 0b00100, 0b01000, 0b11111])
    } else if character == '3' {
        Some(seq![0b11110, 0b00001, 0b00001, 0b01110, 0b00001, 0b00001, 0b11110])
    } else if character == '4' {
        Some(seq![0b00010, 0b00110, 0b01010, 0b10010, 0b11111, 0b00010, 0b00010])
    } else if character == '5' {
        Some(seq![0b11111, 0b10000, 0b10000, 0b11110, 0b00001, 0b00001, 0b11110])
    } else if character == '6' {
        Some(seq![0b00110, 0b01000, 0b10000, 0b11110, 0b10001, 0b10001, 0b01110])
    } else if character == '7' {
        Some(seq![0b11111, 0b00001, 0b00010, 0b00100, 0b01000, 0b01000, 0b01000])
    } else if character == '8' {
        Some(seq![0b01110, 0b10001, 0b10001, 0b01110, 0b10001, 0b10001, 0b01110])
    } else if character == '9' {
        Some(seq![0b01110, 0b10001, 0b10001, 0b01111, 0b00001, 0b00010, 0b11100])
    } else if character == 'x' {
        Some(seq![0b00000, 0b10001, 0b01010, 0b00100, 0b01010, 0b10001, 0b00000])
    } else if character == 'y' {
        Some(seq![0b00000, 0b10001, 0b10001, 0b01111, 0b00001, 0b00010, 0b11100])
    } else if character == 'p' {
        Some(seq![0b00000, 0b00000, 0b11110, 0b10001, 0b11110, 0b10000, 0b10000])
    } else if character == 'z' {
        Some(seq![0b11111, 0b00001, 0b00010, 0b00100, 0b01000, 0b10000, 0b11111])
    } else if character == 'o' {
        Some(seq![0b00000, 0b00000, 0b01110, 0b10001, 0b10001, 0b10001, 0b01110])
    } else if character == 'a' {
        Some(seq![0b00000, 0b00000, 0b01110, 0b00001, 0b01111, 0b10001, 0b01111])
    } else if character == 'm' {
        Some(seq![0b00000, 0b00000, 0b11010, 0b10101, 0b10101, 0b10101, 0b10101])
    } else if character == 'd' {
        Some(seq![0b00001, 0b00001, 0b01111, 0b10001, 0b10001, 0b10011, 0b01101])
    } else if character == 'e' {
        Some(seq![0b00000, 0b00000, 0b01110, 0b10001, 0b11111, 0b10000, 0b01111])
    } else if character == 't' {
        Some(seq![0b00100, 0b00100, 0b11111, 0b00100, 0b00100, 0b00101, 0b00010])
    } else if character == 'i' {
        Some(seq![0b00100, 0b00000, 0b01100, 0b00100, 0b00100, 0b00100, 0b01110])
    } else if character == 'l' {
        Some(seq![0b01100, 0b00100, 0b00100, 0b00100, 0b00100, 0b00100, 0b01110])
    } else if character == 's' {
        Some(seq![0b00000, 0b00000, 0b01111, 0b10000, 0b01110, 0b00001, 0b11110])
    } else if character == '*' {
        Some(seq![0b00000, 0b00100, 0b10101, 0b01110, 0b10101, 0b00100, 0b00000])
    } else if character == ':' {
        Some(seq![0b00000, 0b00100, 0b00100, 0b00000, 0b00100, 0b00100, 0b00000])
    } else if character == '=' {
        Some(seq![0b00000, 0b11111, 0b00000, 0b11111, 0b00000, 0b00000, 0b00000])
    } else if character == '.' {
        Some(seq![0b00000, 0b00000, 0b00000, 0b00000, 0b00000, 0b00110, 0b00110])
    } else if character == '-' {
        Some(seq![0b00000, 0b00000, 0b00000, 0b11111, 0b00000, 0b00000, 0b00000])
    } else if character == ' ' {
        Some(seq![0b00000, 0b00000, 0b00000, 0b00000, 0b00000, 0b00000, 0b00000])
    } else {
        None
    }
}

/// The 5-by-7 glyph of a character, if it has one.
pub fn glyph(character: char) -> (glyph: Option<[u8; 7]>)
    ensures
        match glyph {
            Some(rows) => glyph_rows(character) == Some(rows@),
            None => glyph_rows(character) is None,
        },
{
    let rows: [u8; 7] = match character {
        'C' => [0b01110, 0b10001, 0b10000, 0b10000, 0b10000, 0b10001, 0b01110],
        '#' => [0b01010, 0b11111, 0b01010, 0b01010, 0b11111, 0b01010, 0b00000],
        '0' => [0b01110, 0b10001, 0b10011, 0b10101, 0b11001, 0b10001, 0b01110],
        '1' => [0b00100, 0b01100, 0b00100, 0b00100, 0b00100, 0b00100, 0b01110],
        '2' => [0b01110, 0b10001, 0b00001, 0b00010, 0b00100, 0b01000, 0b11111],
        '3' => [0b11110, 0b00001, 0b00001, 0b01110, 0b00001, 0b00001, 0b11110],
        '4' => [0b00010, 0b00110, 0b01010, 0b10010, 0b11111, 0b00010, 0b00010],
        '5' => [0b11111, 0b10000, 0b10000, 0b11110, 0b00001, 0b00001, 0b11110],
        '6' => [0b00110, 0b01000, 0b10000, 0b11110, 0b10001, 0b10001, 0b01110],
        '7' => [0b11111, 0b00001, 0b00010, 0b00100, 0b01000, 0b01000, 0b01000],
        '8' => [0b01110, 0b10001, 0b10001, 0b01110, 0b10001, 0b10001, 0b01110],
        '9' => [0b01110, 0b10001, 0b10001, 0b01111, 0b00001, 0b00010, 0b11100],
        'x' => [0b00000, 0b10001, 0b01010, 0b00100, 0b01010, 0b10001, 0b00000],
        'y' => [0b00000, 0b10001, 0b10001, 0b01111, 0b00001, 0b00010, 0b11100],
        'p' => [0b00000, 0b00000, 0b11110, 0b10001, 0b11110, 0b10000, 0b10000],
        'z' => [0b11111, 0b00001, 0b00010, 0b00100, 0b01000, 0b10000, 0b11111],
        'o' => [0b00000, 0b00000, 0b01110, 0b10001, 0b10001, 0b10001, 0b01110],
        'a' => [0b00000, 0b00000, 0b01110, 0b00001, 0b01111, 0b10001, 0b01111],
        'm' => [0b00000, 0b00000, 0b11010, 0b10101, 0b10101, 0b10101, 0b10101],
        'd' => [0b00001, 0b00001, 0b01111, 0b10001, 0b10001, 0b10011, 0b01101],
        'e' => [0b00000, 0b00000, 0b01110, 0b10001, 0b11111, 0b10000, 0b01111],
        't' => [0b00100, 0b00100, 0b11111, 0b00100, 0b00100, 0b00101, 0b00010],
        'i' => [0b00100, 0b00000, 0b01100, 0b00100, 0b00100, 0b00100, 0b01110],
        'l' => [0b01100, 0b00100, 0b00100, 0b00100, 0b00100, 0b00100, 0b01110],
        's' => [0b00000, 0b00000, 0b01111, 0b10000, 0b01110, 0b00001, 0b11110],
        '*' => [0b00000, 0b00100, 0b10101, 0b01110, 0b10101, 0b00100, 0b00000],
        ':' => [0b00000, 0b00100, 0b00100, 0b00000, 0b00100, 0b00100, 0b00000],
        '=' => [0b00000, 0b11111, 0b00000, 0b11111, 0b00000, 0b00000, 0b00000],
        '.' => [0b00000, 0b00000, 0b00000, 0b00000, 0b00000, 0b00110, 0b00110],
        '-' => [0b00000, 0b00000, 0b00000, 0b11111, 0b00000, 0b00000, 0b00000],
        ' ' => [0b00000, 0b00000, 0b00000, 0b00000, 0b00000, 0b00000, 0b00000],
        _ => {
            return None;
        },
    };
    proof {
        assert(glyph_rows(character) == Some(rows@));
    }
    Some(rows)
}

/// Whether the glyph of `character` has its pixel at `row` and `column` set.
pub open spec fn glyph_lit(character: char, row: int, column: int) -> bool {
    match glyph_rows(character) {
        Some(rows) => 0 <= row < 7 && 0 <= column < 5 && rows[row] & (1u8 << ((4 - column) as u8))
            != 0,
        None => false,
    }
}

/// Whether `(px, py)` is lit when `text` is written with its first glyph's
/// top-left corner at `(x, y)` and each character six pixels right of the
/// previous one.
pub open spec fn text_lit(text: Seq<char>, x: int, y: int, px: int, py: int) -> bool {
    exists|j: int| 0 <= j < text.len() && #[trigger] glyph_lit(text[j], py - y, px - (x + 6 * j))
}

/// The pixels of the first `done` characters, then of the rows before `row`
/// of character `done`, then of the columns before `column` of that row.
pub open spec fn text_lit_prefix(
    text: Seq<char>,
    x: int,
    y: int,
    done: int,
    row: int,
    column: int,
) -> spec_fn(int, int) -> bool {
    |px: int, py: int|
        (exists|j: int| 0 <= j < done && #[trigger] glyph_lit(text[j], py - y, px - (x + 6 * j))) || (
        0 <= done < text.len() && glyph_lit(text[done], py - y, px - (x + 6 * done)) && (py - y < row
            || (py - y == row && px - (x + 6 * done) < column)))
}

/// Painting with predicates that select the same positions gives the same
/// framebuffer.
proof fn lemma_same_paint(
    old: Seq<u32>,
    size: ScreenSize,
    color: u32,
    painted: spec_fn(int, int) -> bool,
    same: spec_fn(int, int) -> bool,
)
    requires
        forall|px: int, py: int| #[trigger] painted(px, py) <==> same(px, py),
    ensures
        painted_with(old, size, color, painted) == painted_with(old, size, color, same),
{
    assert(painted_with(old, size, color, painted) =~= painted_with(old, size, color, same));
}

/// Writes `text` in `color` with its first glyph's top-left corner at
/// `(x, y)`, one glyph every six pixels, clipped to a `size` framebuffer.
pub fn paint_text(framebuffer: &mut [u32], size: ScreenSize, x: i64, y: i64, text: &str, color: u32)
    requires
        old(framebuffer)@.len() == size.width * size.height,
        text@.len() <= usize::MAX,
    ensures
        final(framebuffer)@ == painted_with(
            old(framebuffer)@,
            size,
            color,
            |px: int, py: int| text_lit(text@, x as int, y as int, px, py),
        ),
{
    let ghost original = framebuffer@;
    let ghost chars = text@;
    let length = framebuffer.len();
    let mut index: usize = 0;
    proof {
        lemma_same_paint(
            original,
            size,
            color,
            |px: int, py: int| false,
            text_lit_prefix(chars, x as int, y as int, 0, 0, 0),
        );
        assert(framebuffer@ =~= painted_with(original, size, color, |px: int, py: int| false));
    }
    for character in it: text.chars()
        invariant
            it.seq() == chars,
            index == it.index(),
            index <= chars.len(),
            chars.len() <= usize::MAX,
            length == original.len(),
            original.len() == size.width * size.height,
            framebuffer@.len() == original.len(),
            framebuffer@ == painted_with(
                original,
                size,
                color,
                text_lit_prefix(chars, x as int, y as int, it.index() as int, 0, 0),
            ),
    {
        let ghost done = it.index() as int;
        assert(character == chars[done]);
        match glyph(character) {
            Some(rows) => {
                let mut row: usize = 0;
                while row < 7
                    invariant
                        0 <= done < chars.len(),
                        index == done,
                        character == chars[done],
                        glyph_rows(character) == Some(rows@),
                        row <= 7,
                        length == original.len(),
                        original.len() == size.width * size.height,
                        framebuffer@.len() == original.len(),
                        framebuffer@ == painted_with(
                            original,
                            size,
                            color,
                            text_lit_prefix(chars, x as int, y as int, done, row as int, 0),
                        ),
                    decreases 7 - row,
                {
                    let mut column: u8 = 0;
                    while column < 5
                        invariant
                            0 <= done < chars.len(),
                            index == done,
                            character == chars[done],
                            glyph_rows(character) == Some(rows@),
                            row < 7,
                            column <= 5,
                            length == original.len(),
                            original.len() == size.width * size.height,
                            framebuffer@.len() == original.len(),
                            framebuffer@ == painted_with(
                                original,
                                size,
                                color,
                                text_lit_prefix(
                                    chars,
                                    x as int,
                                    y as int,
                                    done,
                                    row as int,
                                    column as int,
                                ),
                            ),
                        decreases 5 - column,
                    {
                        let ghost before = framebuffer@;
                        let ghost current = text_lit_prefix(
                            chars,
                            x as int,
                            y as int,
                            done,
                            row as int,
                            column as int,
                        );
                        let ghost next = text_lit_prefix(
                            chars,
                            x as int,
                            y as int,
                            done,
                            row as int,
                            column + 1,
                        );
                        let ghost px = x + 6 * done + column;
                        let ghost py = y + row;
                        let lit = rows[row] & (1u8 << (4 - column)) != 0;
                        proof {
                            assert(lit == glyph_lit(character, row as int, column as int));
                        }
                        if lit {
                            let target_x = x as i128 + 6 * (index as i128) + column as i128;
                            let target_y = y as i128 + row as i128;
                            if target_x >= 0 && target_y >= 0 && target_x < size.width as i128
                                && target_y < size.height as i128 {
                                proof {
                                    lemma_pixel_index(size, target_x as int, target_y as int);
                                }
                                framebuffer[target_y as usize * size.width + target_x as usize] =
                                color;
                            }
                            proof {
                                assert forall|a: int, b: int|
                                    #[trigger] next(a, b) <==> (current(a, b) || (a == px && b
                                        == py)) by {
                                    if a == px && b == py {
                                        assert(glyph_lit(chars[done], b - y, a - (x + 6 * done)));
                                    }
                                }
                                lemma_paint_one(
                                    original,
                                    before,
                                    framebuffer@,
                                    size,
                                    color,
                                    current,
                                    next,
                                    px,
                                    py,
                                );
                            }
                        } else {
                            proof {
                                assert forall|a: int, b: int| #[trigger] current(a, b) <==> next(a, b)
                                    by {
                                    if a == px && b == py {
                                        assert(!glyph_lit(chars[done], b - y, a - (x + 6 * done)));
                                    }
                                }
                                lemma_same_paint(original, size, color, current, next);
                            }
                        }
                        column = column + 1;
                    }
                    proof {
                        lemma_same_paint(
                            original,
                            size,
                            color,
                            text_lit_prefix(chars, x as int, y as int, done, row as int, 5),
                            text_lit_prefix(chars, x as int, y as int, done, row + 1, 0),
                        );
                    }
                    row = row + 1;
                }
                proof {
                    let finished = text_lit_prefix(chars, x as int, y as int, done, 7, 0);
                    let following = text_lit_prefix(chars, x as int, y as int, done + 1, 0, 0);
                    assert forall|a: int, b: int| #[trigger] finished(a, b) <==> following(a, b) by {
                        if following(a, b) {
                            let j = choose|j: int|
                                0 <= j < done + 1 && #[trigger] glyph_lit(
                                    chars[j],
                                    b - y,
                                    a - (x + 6 * j),
                                );
                            if j < done {
                                assert(0 <= j < done && glyph_lit(chars[j], b - y, a - (x + 6 * j)));
                            }
                        }
                    }
                    lemma_same_paint(original, size, color, finished, following);
                }
            },
            None => {
                proof {
                    let finished = text_lit_prefix(chars, x as int, y as int, done, 0, 0);
                    let following = text_lit_prefix(chars, x as int, y as int, done + 1, 0, 0);
                    assert forall|a: int, b: int| #[trigger] finished(a, b) <==> following(a, b) by {
                        if following(a, b) {
                            let j = choose|j: int|
                                0 <= j < done + 1 && #[trigger] glyph_lit(
                                    chars[j],
                                    b - y,
                                    a - (x + 6 * j),
                                );
                            if j < done {
                                assert(0 <= j < done && glyph_lit(chars[j], b - y, a - (x + 6 * j)));
                            }
                        }
                    }
                    lemma_same_paint(original, size, color, finished, following);
                }
            },
        }
        index = index + 1;
    }
    proof {
        lemma_same_paint(
            original,
            size,
            color,
            text_lit_prefix(chars, x as int, y as int, chars.len() as int, 0, 0),
            |px: int, py: int| text_lit(chars, x as int, y as int, px, py),
        );
    }
}

/// Writes `text` in `color` at `(x, y)`, clipped to the screen.
pub fn draw_text(framebuffer: &mut [u32], size: ScreenSize, x: i32, y: i32, text: &str, color: u32)
    requires
        old(framebuffer)@.len() == size.width * size.height,
        text@.len() <= usize::MAX,
    ensures
        final(framebuffer)@ == painted_with(
            old(framebuffer)@,
            size,
            color,
            |px: int, py: int| text_lit(text@, x as int, y as int, px, py),
        ),
{
    paint_text(framebuffer, size, x as i64, y as i64, text, color);
}

/// Whether `(x, y)` lies on the edge of `rectangle`.
pub open spec fn on_outline(rectangle: ScreenRect, x: int, y: int) -> bool {
    ||| (y == rectangle.top || y == rectangle.bottom) && rectangle.left <= x <= rectangle.right
    ||| (x == rectangle.left || x == rectangle.right) && rectangle.top <= y <= rectangle.bottom
}

/// Draws the one-pixel edge of `rectangle`, clipped to the screen.
pub fn draw_rectangle_outline(
    framebuffer: &mut [u32],
    size: ScreenSize,
    rectangle: ScreenRect,
    color: u32,
)
    requires
        fits_screen(old(framebuffer)@, size),
    ensures
        final(framebuffer)@ == painted_with(
            old(framebuffer)@,
            size,
            color,
            |x: int, y: int| on_outline(rectangle, x, y),
        ),
{
    let ghost original = framebuffer@;
    let first_x: i32 = if rectangle.left > 0 {
        rectangle.left
    } else {
        0
    };
    let last_x: i32 = if rectangle.right < size.width as i32 - 1 {
        rectangle.right
    } else {
        size.width as i32 - 1
    };
    let ghost rows = |px: int, py: int|
        (py == rectangle.top || py == rectangle.bottom) && rectangle.left <= px <= rectangle.right;
    let mut x: i32 = first_x;
    proof {
        assert(framebuffer@ =~= painted_with(
            original,
            size,
            color,
            |px: int, py: int|
                (py == rectangle.top || py == rectangle.bottom) && first_x <= px < first_x,
        ));
    }
    while x <= last_x
        invariant
            fits_screen(original, size),
            framebuffer@.len() == original.len(),
            first_x <= x,
            first_x >= 0,
            last_x < size.width,
            x == first_x || x <= last_x + 1,
            first_x == if rectangle.left > 0 {
                rectangle.left
            } else {
                0
            },
            framebuffer@ == painted_with(
                original,
                size,
                color,
                |px: int, py: int|
                    (py == rectangle.top || py == rectangle.bottom) && first_x <= px < x,
            ),
        decreases last_x + 1 - x,
    {
        let ghost before = framebuffer@;
        set_pixel(framebuffer, size, x, rectangle.top, color);
        let ghost middle = framebuffer@;
        proof {
            lemma_paint_one(
                original,
                before,
                middle,
                size,
                color,
                |px: int, py: int|
                    (py == rectangle.top || py == rectangle.bottom) && first_x <= px < x,
                |px: int, py: int|
                    ((py == rectangle.top || py == rectangle.bottom) && first_x <= px < x) || (px
                        == x && py == rectangle.top),
                x as int,
                rectangle.top as int,
            );
        }
        set_pixel(framebuffer, size, x, rectangle.bottom, color);
        proof {
            lemma_paint_one(
                original,
                middle,
                framebuffer@,
                size,
                color,
                |px: int, py: int|
                    ((py == rectangle.top || py == rectangle.bottom) && first_x <= px < x) || (px
                        == x && py == rectangle.top),
                |px: int, py: int|
                    (py == rectangle.top || py == rectangle.bottom) && first_x <= px < x + 1,
                x as int,
                rectangle.bottom as int,
            );
        }
        x = x + 1;
    }
    let first_y: i32 = if rectangle.top > 0 {
        rectangle.top
    } else {
        0
    };
    let last_y: i32 = if rectangle.bottom < size.height as i32 - 1 {
        rectangle.bottom
    } else {
        size.height as i32 - 1
    };
    let ghost columns_done = |px: int, py: int|
        (py == rectangle.top || py == rectangle.bottom) && first_x <= px < x;
    let mut y: i32 = first_y;
    proof {
        assert(framebuffer@ =~= painted_with(
            original,
            size,
            color,
            |px: int, py: int|
                ((py == rectangle.top || py == rectangle.bottom) && first_x <= px < x) || ((px
                    == rectangle.left || px == rectangle.right) && first_y <= py < first_y),
        ));
    }
    while y <= last_y
        invariant
            fits_screen(original, size),
            framebuffer@.len() == original.len(),
            first_y <= y,
            first_y >= 0,
            last_y < size.height,
            y == first_y || y <= last_y + 1,
            framebuffer@ == painted_with(
                original,
                size,
                color,
                |px: int, py: int|
                    ((py == rectangle.top || py == rectangle.bottom) && first_x <= px < x) || ((px
                        == rectangle.left || px == rectangle.right) && first_y <= py < y),
            ),
        decreases last_y + 1 - y,
    {
        let ghost before = framebuffer@;
        set_pixel(framebuffer, size, rectangle.left, y, color);
        let ghost middle = framebuffer@;
        proof {
            lemma_paint_one(
                original,
                before,
                middle,
                size,
                color,
                |px: int, py: int|
                    ((py == rectangle.top || py == rectangle.bottom) && first_x <= px < x) || ((px
                        == rectangle.left || px == rectangle.right) && first_y <= py < y),
                |px: int, py: int|
                    (((py == rectangle.top || py == rectangle.bottom) && first_x <= px < x) || ((px
                        == rectangle.left || px == rectangle.right) && first_y <= py < y)) || (px
                        == rectangle.left && py == y),
                rectangle.left as int,
                y as int,
            );
        }
        set_pixel(framebuffer, size, rectangle.right, y, color);
        proof {
            lemma_paint_one(
                original,
                middle,
                framebuffer@,
                size,
                color,
                |px: int, py: int|
                    (((py == rectangle.top || py == rectangle.bottom) && first_x <= px < x) || ((px
                        == rectangle.left || px == rectangle.right) && first_y <= py < y)) || (px
                        == rectangle.left && py == y),
                |px: int, py: int|
                    ((py == rectangle.top || py == rectangle.bottom) && first_x <= px < x) || ((px
                        == rectangle.left || px == rectangle.right) && first_y <= py < y + 1),
                rectangle.right as int,
                y as int,
            );
        }
        y = y + 1;
    }
    proof {
        let goal = painted_with(original, size, color, |px: int, py: int| on_outline(rectangle, px, py));
        assert forall|i: int| 0 <= i < framebuffer@.len() implies framebuffer@[i] == goal[i] by {
            if i < size.width * size.height {
                assert(size.width > 0) by (nonlinear_arith)
                    requires
                        0 <= i < size.width * size.height,
                ;
                crate::lemma_row_major_split(size.width as int, i);
                let py = i / size.width as int;
                assert(py < size.height) by (nonlinear_arith)
                    requires
                        i == py * size.width + i % size.width as int,
                        0 <= i % size.width as int,
                        i < size.width * size.height,
                        py >= 0,
                ;
            }
        }
        assert(framebuffer@ =~= goal);
    }
}

/// Whether `(x, y)` belongs to the cross centred on `position`, whose arms
/// reach four pixels.
pub open spec fn on_marker(position: ScreenPoint, x: int, y: int) -> bool {
    ||| y == position.y && position.x - 4 <= x <= position.x + 4
    ||| x == position.x && position.y - 4 <= y <= position.y + 4
}

/// Draws a cross centred on `position`, clipped to the screen.
pub fn draw_mouse_marker(framebuffer: &mut [u32], size: ScreenSize, position: ScreenPoint, color: u32)
    requires
        fits_screen(old(framebuffer)@, size),
        i32::MIN + 4 <= position.x <= i32::MAX - 4,
        i32::MIN + 4 <= position.y <= i32::MAX - 4,
    ensures
        final(framebuffer)@ == painted_with(
            old(framebuffer)@,
            size,
            color,
            |x: int, y: int| on_marker(position, x, y),
        ),
{
    let ghost original = framebuffer@;
    let mut offset: i32 = -4;
    proof {
        assert(framebuffer@ =~= painted_with(
            original,
            size,
            color,
            |x: int, y: int|
                (y == position.y && position.x - 4 <= x < position.x - 4) || (x == position.x
                    && position.y - 4 <= y < position.y - 4),
        ));
    }
    while offset <= 4
        invariant
            fits_screen(original, size),
            framebuffer@.len() == original.len(),
            -4 <= offset <= 5,
            i32::MIN + 4 <= position.x <= i32::MAX - 4,
            i32::MIN + 4 <= position.y <= i32::MAX - 4,
            framebuffer@ == painted_with(
                original,
                size,
                color,
                |x: int, y: int|
                    (y == position.y && position.x - 4 <= x < position.x + offset) || (x
                        == position.x && position.y - 4 <= y < position.y + offset),
            ),
        decreases 5 - offset,
    {
        let ghost before = framebuffer@;
        set_pixel(framebuffer, size, position.x + offset, position.y, color);
        let ghost middle = framebuffer@;
        proof {
            lemma_paint_one(
                original,
                before,
                middle,
                size,
                color,
                |x: int, y: int|
                    (y == position.y && position.x - 4 <= x < position.x + offset) || (x
                        == position.x && position.y - 4 <= y < position.y + offset),
                |x: int, y: int|
                    (y == position.y && position.x - 4 <= x < position.x + offset + 1) || (x
                        == position.x && position.y - 4 <= y < position.y + offset),
                position.x + offset,
                position.y as int,
            );
        }
        set_pixel(framebuffer, size, position.x, position.y + offset, color);
        proof {
            lemma_paint_one(
                original,
                middle,
                framebuffer@,
                size,
                color,
                |x: int, y: int|
                    (y == position.y && position.x - 4 <= x < position.x + offset + 1) || (x
                        == position.x && position.y - 4 <= y < position.y + offset),
                |x: int, y: int|
                    (y == position.y && position.x - 4 <= x < position.x + offset + 1) || (x
                        == position.x && position.y - 4 <= y < position.y + offset + 1),
                position.x as int,
                position.y + offset,
            );
        }
        offset = offset + 1;
    }
    proof {
        assert(framebuffer@ =~= painted_with(
            original,
            size,
            color,
            |x: int, y: int| on_marker(position, x, y),
        ));
    }
}

/// The grey level of an iteration count: 255 for none, falling linearly.
pub open spec fn shade(iterations: u64, max_iterations: u64) -> int {
    255 - (iterations * 255) / (max_iterations as int)
}

/// The grey of an iteration count, as a packed pixel with blue at full.
pub fn shade_color(iterations: u64, max_iterations: u64) -> (color: u32)
    requires
        max_iterations > 0,
        iterations <= max_iterations,
        iterations * 255 <= u64::MAX,
    ensures
        color == shade(iterations, max_iterations) * 0x10000 + shade(iterations, max_iterations)
            * 0x100 + 0xff,
{
    proof {
        assert((iterations * 255) / (max_iterations as int) <= 255) by (nonlinear_arith)
            requires
                iterations <= max_iterations,
                max_iterations > 0,
        ;
    }
    let shade: u64 = 255 - (iterations * 255 / max_iterations);
    proof {
        assert((shade << 16u64) | (shade << 8u64) | 0xff == shade * 0x10000 + shade * 0x100 + 0xff)
            by (bit_vector)
            requires
                shade <= 255,
        ;
    }
    ((shade << 16u64) | (shade << 8u64) | 0xff) as u32
}

/// The red and blue channels of a packed pixel exchanged.
pub fn swap_red_and_blue(color: u32) -> (swapped: u32)
    ensures
        swapped == ((color & 0x0000ff) << 16u32) | (color & 0x00ff00) | ((color & 0xff0000) >> 16u32),
{
    ((color & 0x0000ff) << 16u32) | (color & 0x00ff00) | ((color & 0xff0000) >> 16u32)
}

/// Whether the window has a size to draw on.
pub fn has_live_window_size(size: (usize, usize)) -> (live: bool)
    ensures
        live == (size.0 > 0 && size.1 > 0),
{
    size.0 > 0 && size.1 > 0
}

/// How many frames the timing history keeps.
pub const FRAME_HISTORY_CAPACITY: usize = 30usize;

/// The number and duration of one finished frame.
#[derive(Debug, Clone, Copy)]
pub struct FrameHistoryEntry {
    pub frame_number: u64,
    pub duration: Duration,
}

/// The last frames' timings in a fixed ring of slots.
#[derive(Debug)]
pub struct FrameTimingRing {
    entries: Vec<Option<FrameHistoryEntry>>,
    next_slot: usize,
}

impl Default for FrameTimingRing {
    fn default() -> (ring: Self)
        ensures
            ring.slots() == Seq::new(FRAME_HISTORY_CAPACITY as nat, |i: int| None::<FrameHistoryEntry>),
            ring.next_slot_spec() == 0,
    {
        let mut entries: Vec<Option<FrameHistoryEntry>> = Vec::new();
        let mut index: usize = 0;
        while index < FRAME_HISTORY_CAPACITY
            invariant
                index <= FRAME_HISTORY_CAPACITY,
                entries@ == Seq::new(index as nat, |i: int| None::<FrameHistoryEntry>),
            decreases FRAME_HISTORY_CAPACITY - index,
        {
            entries.push(None);
            proof {
                assert(entries@ =~= Seq::new((index + 1) as nat, |i: int| None::<FrameHistoryEntry>));
            }
            index = index + 1;
        }
        Self { entries, next_slot: 0 }
    }
}

impl FrameTimingRing {
    /// There is one entry per slot, and the next slot is one of them.
    #[verifier::type_invariant]
    closed spec fn well_formed(self) -> bool {
        &&& self.entries@.len() == FRAME_HISTORY_CAPACITY
        &&& self.next_slot < FRAME_HISTORY_CAPACITY
    }

    /// The slots in their physical order.
    pub closed spec fn slots(&self) -> Seq<Option<FrameHistoryEntry>> {
        self.entries@
    }

    /// The slot the next frame is recorded in.
    pub closed spec fn next_slot_spec(&self) -> usize {
        self.next_slot
    }

    /// Records a frame in the next slot, overwriting the oldest entry once
    /// every slot is used.
    pub fn push(&mut self, frame_number: u64, duration: Duration)
        ensures
            final(self).slots() == old(self).slots().update(
                old(self).next_slot_spec() as int,
                Some(FrameHistoryEntry { frame_number, duration }),
            ),
            final(self).next_slot_spec() == (old(self).next_slot_spec() + 1)
                % FRAME_HISTORY_CAPACITY as int,
    {
        proof {
            use_type_invariant(&*self);
        }
        let slot = self.next_slot;
        self.entries[slot] = Some(FrameHistoryEntry { frame_number, duration });
        self.next_slot = (slot + 1) % FRAME_HISTORY_CAPACITY;
    }

    /// The entries in their physical slot order.
    pub fn entries_in_ring_order(&self) -> (entries: Vec<Option<FrameHistoryEntry>>)
        ensures
            entries@ == self.slots(),
    {
        let mut entries: Vec<Option<FrameHistoryEntry>> = Vec::new();
        let mut index: usize = 0;
        while index < self.entries.len()
            invariant
                index <= self.entries@.len(),
                entries@ == self.entries@.take(index as int),
            decreases self.entries.len() - index,
        {
            entries.push(self.entries[index]);
            proof {
                assert(entries@ =~= self.entries@.take(index + 1));
            }
            index = index + 1;
        }
        proof {
            assert(self.entries@.take(self.entries@.len() as int) =~= self.entries@);
        }
        entries
    }
}

/// Escape counts of a `width` by `height` image, row-major, with the
/// iteration limit they were computed against.
pub struct IterationBuffer {
    width: usize,
    height: usize,
    max_iterations: u32,
    iterations: Vec<u32>,
}

impl IterationBuffer {
    #[verifier::type_invariant]
    closed spec fn well_formed(self) -> bool {
        &&& self.width > 0
        &&& self.height > 0
        &&& self.iterations@.len() == self.width * self.height
        &&& self.max_iterations > 0
        &&& forall|i: int| 0 <= i < self.iterations@.len() ==> #[trigger] self.iterations@[i] <= self.max_iterations
    }

    pub closed spec fn width_spec(&self) -> usize {
        self.width
    }

    pub closed spec fn height_spec(&self) -> usize {
        self.height
    }

    pub closed spec fn limit(&self) -> u32 {
        self.max_iterations
    }

    pub closed spec fn counts(&self) -> Seq<u32> {
        self.iterations@
    }

    /// A buffer of counts no larger than the limit, one per pixel.
    pub fn new(width: usize, height: usize, max_iterations: u32, iterations: Vec<u32>) -> (buffer: Self)
        requires
            width > 0,
            height > 0,
            iterations@.len() == width * height,
            max_iterations > 0,
            forall|i: int| 0 <= i < iterations@.len() ==> #[trigger] iterations@[i] <= max_iterations,
        ensures
            buffer.width_spec() == width,
            buffer.height_spec() == height,
            buffer.limit() == max_iterations,
            buffer.counts() == iterations@,
    {
        IterationBuffer { width, height, max_iterations, iterations }
    }

    pub fn width(&self) -> (width: usize)
        ensures
            width == self.width_spec(),
    {
        self.width
    }

    pub fn height(&self) -> (height: usize)
        ensures
            height == self.height_spec(),
    {
        self.height
    }

    pub fn max_iterations(&self) -> (max_iterations: u32)
        ensures
            max_iterations == self.limit(),
    {
        self.max_iterations
    }

    pub fn iterations(&self) -> (iterations: &[u32])
        ensures
            iterations@ == self.counts(),
    {
        self.iterations.as_slice()
    }
}

/// The shade-palette pixel of an escape count: black for points that never
/// escaped, otherwise a grey that darkens linearly with the count.
pub open spec fn shade_pixel(iterations: u32, max_iterations: u32) -> u32 {
    if iterations == max_iterations {
        0
    } else {
        let grey = 255 - (iterations * 255) / (max_iterations as int);
        (grey * 0x10000 + grey * 0x100 + 0xff) as u32
    }
}

/// The sprite of an iteration buffer in the shade palette.
pub fn sprite_from_iterations(image: &IterationBuffer) -> (sprite: crate::Sprite)
    requires
        image.limit() * 255 <= u32::MAX,
    ensures
        sprite.width_spec() == image.width_spec(),
        sprite.height_spec() == image.height_spec(),
        sprite.pixels_spec().len() == image.counts().len(),
        forall|i: int|
            0 <= i < image.counts().len() ==> #[trigger] sprite.pixels_spec()[i] == shade_pixel(
                image.counts()[i],
                image.limit(),
            ),
{
    proof {
        use_type_invariant(image);
    }
    let counts = image.iterations.as_slice();
    let max_iterations = image.max_iterations;
    let mut pixels: Vec<u32> = Vec::new();
    let mut i: usize = 0;
    while i < counts.len()
        invariant
            i <= counts@.len(),
            counts@ == image.counts(),
            max_iterations == image.limit(),
            max_iterations > 0,
            max_iterations * 255 <= u32::MAX,
            forall|j: int| 0 <= j < counts@.len() ==> #[trigger] counts@[j] <= max_iterations,
            pixels@.len() == i,
            forall|j: int| 0 <= j < i ==> #[trigger] pixels@[j] == shade_pixel(counts@[j], max_iterations),
        decreases counts@.len() - i,
    {
        let count = counts[i];
        let pixel = if count == max_iterations {
            0
        } else {
            proof {
                assert(count * 255 <= max_iterations * 255) by (nonlinear_arith)
                    requires
                        count <= max_iterations,
                ;
            }
            shade_color(count as u64, max_iterations as u64)
        };
        pixels.push(pixel);
        i = i + 1;
    }
    crate::Sprite::from_pixels(image.width, image.height, pixels)
}

/// The image id of the tile at `row`, `column` of layer `layer` on the CPU
/// target: the layer, row and column packed into 22, 21 and 21 bits.
pub open spec fn cpu_tile_id(layer: usize, row: usize, column: usize) -> u64 {
    ((layer as u64) << 42u64) | ((row as u64) << 21u64) | (column as u64)
}

/// The image id under which the CPU target stores a layer's tile.
pub fn cpu_tile_image_id(layer: usize, row: usize, column: usize) -> (id: ImageId)
    ensures
        id@ == cpu_tile_id(layer, row, column),
{
    ImageId::new(((layer as u64) << 42u64) | ((row as u64) << 21u64) | column as u64)
}

/// Tiles whose layer fits in 22 bits and whose row and column fit in
/// 21 bits get distinct image ids: the id is the number whose bits are the
/// layer, the row and the column in turn.
pub proof fn lemma_cpu_tile_ids_are_distinct(
    layer: usize,
    row: usize,
    column: usize,
    other_layer: usize,
    other_row: usize,
    other_column: usize,
)
    requires
        layer < 0x40_0000 && other_layer < 0x40_0000,
        row < 0x20_0000 && other_row < 0x20_0000,
        column < 0x20_0000 && other_column < 0x20_0000,
        (layer, row, column) != (other_layer, other_row, other_column),
    ensures
        cpu_tile_id(layer, row, column) == layer * 0x400_0000_0000 + row * 0x20_0000 + column,
        cpu_tile_id(layer, row, column) != cpu_tile_id(other_layer, other_row, other_column),
{
    let (l, r, c) = (layer as u64, row as u64, column as u64);
    let (m, s, d) = (other_layer as u64, other_row as u64, other_column as u64);
    assert((l << 42u64) | (r << 21u64) | c == l * 0x400_0000_0000 + r * 0x20_0000 + c)
        by (bit_vector)
        requires
            l < 0x40_0000,
            r < 0x20_0000,
            c < 0x20_0000,
    ;
    assert((m << 42u64) | (s << 21u64) | d == m * 0x400_0000_0000 + s * 0x20_0000 + d)
        by (bit_vector)
        requires
            m < 0x40_0000,
            s < 0x20_0000,
            d < 0x20_0000,
    ;
}

/// Byte `channel` of the opaque RGBA form of a pixel `0x..RRGGBB`: red,
/// green, blue, then full alpha.
pub open spec fn opaque_rgba8_byte(pixel: u32, channel: int) -> u8 {
    if channel == 0 {
        (pixel >> 16u32) as u8
    } else if channel == 1 {
        (pixel >> 8u32) as u8
    } else if channel == 2 {
        pixel as u8
    } else {
        0xff
    }
}

/// The opaque RGBA bytes of packed pixels, four per pixel.
pub open spec fn opaque_rgba8_of(pixels: Seq<u32>) -> Seq<u8> {
    Seq::new(pixels.len() * 4, |i: int| opaque_rgba8_byte(pixels[i / 4], i % 4))
}

/// A sprite as an image update for `image` at `revision`, and the draw of
/// that image on `layer` over `destination`, fully opaque and whole.
pub fn prepared_cpu_tile(
    image: ImageId,
    revision: ImageRevision,
    layer: u32,
    destination: Rect,
    sprite: &crate::Sprite,
) -> (prepared: (TileDraw, ImageUpdate))
    requires
        sprite.width_spec() <= u32::MAX,
        sprite.height_spec() <= u32::MAX,
        sprite.pixels_spec().len() * 4 <= usize::MAX,
    ensures
        prepared.0.image_spec() == image,
        prepared.0.revision_spec() == revision,
        prepared.0.layer_spec() == layer,
        prepared.0.destination_spec() == destination,
        prepared.0.source_spec() == (UvRect {
            left: ZERO_BITS,
            top: ZERO_BITS,
            right: ONE_BITS,
            bottom: ONE_BITS,
        }),
        prepared.0.opacity_spec() == ONE_BITS,
        prepared.1.image_spec() == image,
        prepared.1.revision_spec() == revision,
        prepared.1.width_spec() == sprite.width_spec(),
        prepared.1.height_spec() == sprite.height_spec(),
        prepared.1.rgba8_spec() == opaque_rgba8_of(sprite.pixels_spec()),
{
    proof {
        use_type_invariant(sprite);
        sprite.lemma_well_formed();
    }
    let pixels = sprite.pixels();
    let mut rgba8: Vec<u8> = Vec::new();
    let mut index: usize = 0;
    while index < pixels.len()
        invariant
            index <= pixels@.len(),
            pixels@.len() * 4 <= usize::MAX,
            rgba8@.len() == index * 4,
            forall|i: int| 0 <= i < index * 4 ==> rgba8@[i] == opaque_rgba8_byte(pixels@[i / 4], i % 4),
        decreases pixels.len() - index,
    {
        let pixel = pixels[index];
        let ghost before = rgba8@;
        rgba8.push((pixel >> 16u32) as u8);
        rgba8.push((pixel >> 8u32) as u8);
        rgba8.push(pixel as u8);
        rgba8.push(0xff);
        proof {
            assert forall|i: int| 0 <= i < (index + 1) * 4 implies rgba8@[i] == opaque_rgba8_byte(
                pixels@[i / 4],
                i % 4,
            ) by {
                if i >= index * 4 {
                    assert(i / 4 == index);
                }
            }
        }
        index = index + 1;
    }
    proof {
        assert(rgba8@ =~= opaque_rgba8_of(pixels@));
    }
    let width = sprite.width() as u32;
    let height = sprite.height() as u32;
    proof {
        assert(crate::render::rgba8_len(width, height) == pixels@.len() * 4) by (nonlinear_arith)
            requires
                crate::render::rgba8_len(width, height) == width * height * 4,
                pixels@.len() == width * height,
        ;
    }
    let update = match ImageUpdate::new(image, revision, width, height, rgba8) {
        Ok(update) => update,
        Err(_) => vstd::pervasive::unreached(),
    };
    let draw = TileDraw::new(image, revision, layer).with_destination(destination);
    (draw, update)
}

} // verus!

//! The menu-bar icon: a "G" of 3×3-pixel dots on a transparent 32×32 RGBA
//! image. Only the alpha channel is set, so the system can tint it.
use vstd::prelude::*;

verus! {

/// Side of the square icon, in pixels.
pub const ICON_SIZE: usize = 32;

/// The glyph, seven rows of five cells; `1` marks a dot.
pub open spec fn glyph_row(row: int) -> Seq<char> {
    if row == 0 {
        "01110"@
    } else if row == 1 {
        "10001"@
    } else if row == 2 {
        "10000"@
    } else if row == 3 {
        "10111"@
    } else if row == 4 {
        "10001"@
    } else if row == 5 {
        "10001"@
    } else {
        "01110"@
    }
}

/// Whether pixel (`x`, `y`) is opaque: glyph cells are four pixels apart,
/// start at column 6 and row 2, and each dot fills 3×3 pixels.
pub open spec fn icon_lit(x: int, y: int) -> bool {
    let cx = x - 6;
    let cy = y - 2;
    &&& 0 <= cx && 0 <= cy
    &&& cx % 4 < 3 && cy % 4 < 3
    &&& cx / 4 < 5 && cy / 4 < 7
    &&& glyph_row(cy / 4)[cx / 4] == '1'
}

/// Byte `i` of the RGBA image, row by row: only alpha bytes of lit pixels are set.
pub open spec fn icon_byte(i: int) -> u8 {
    if i % 4 == 3 && icon_lit((i / 4) % 32, (i / 4) / 32) {
        255
    } else {
        0
    }
}

fn glyph_dot(row: usize, column: usize) -> (b: bool)
    requires
        row < 7,
        column < 5,
    ensures
        b == (glyph_row(row as int)[column as int] == '1'),
{
    let line = if row == 0 {
        "01110"
    } else if row == 1 {
        "10001"
    } else if row == 2 {
        "10000"
    } else if row == 3 {
        "10111"
    } else if row == 4 {
        "10001"
    } else if row == 5 {
        "10001"
    } else {
        "01110"
    };
    proof {
        reveal_strlit("01110");
        reveal_strlit("10001");
        reveal_strlit("10000");
        reveal_strlit("10111");
    }
    let chars = crate::text::chars_of(line);
    chars[column] == '1'
}

/// The icon's RGBA bytes.
pub fn tray_icon_pixels() -> (v: Vec<u8>)
    ensures
        v@.len() == ICON_SIZE * ICON_SIZE * 4,
        forall|i: int| 0 <= i < v@.len() ==> #[trigger] v@[i] == icon_byte(i),
{
    let mut v: Vec<u8> = Vec::new();
    let mut i: usize = 0;
    while i < 4096
        invariant
            i <= 4096,
            v@.len() == i,
            forall|j: int| 0 <= j < i ==> #[trigger] v@[j] == icon_byte(j),
        decreases 4096 - i,
    {
        let pixel = i / 4;
        let x = pixel % 32;
        let y = pixel / 32;
        let lit = i % 4 == 3 && x >= 6 && y >= 2 && (x - 6) % 4 < 3 && (y - 2) % 4 < 3 && (x - 6)
            / 4 < 5 && (y - 2) / 4 < 7 && glyph_dot((y - 2) / 4, (x - 6) / 4);
        assert(lit == (i % 4 == 3 && icon_lit(x as int, y as int)));
        v.push(if lit {
            255
        } else {
            0
        });
        i += 1;
    }
    v
}

} // verus!

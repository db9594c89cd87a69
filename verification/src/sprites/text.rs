//! Sprite rectangles for the bitmap text font sheet: one fixed-size glyph
//! per supported character, named after the character's code point.

use vstd::prelude::*;
use vstd::string::StringExecFns;

use crate::sprites::{models_of, SpriteDefinition, SpriteRectModel};
use crate::strutil::{dec_digits, u32_to_decimal};

verus! {

/// Width of one glyph cell in pixels.
pub const CHAR_WIDTH: u32 = 5;

/// Height of one glyph cell in pixels.
pub const CHAR_HEIGHT: u32 = 6;

/// Each supported character with the pixel origin of its glyph cell
/// on the font sheet.
pub open spec fn font_cells_spec() -> Seq<(char, u32, u32)> {
    seq![
        ('a', 0, 0),
        ('b', 5, 0),
        ('c', 10, 0),
        ('d', 15, 0),
        ('e', 20, 0),
        ('f', 25, 0),
        ('g', 30, 0),
        ('h', 35, 0),
        ('i', 40, 0),
        ('j', 45, 0),
        ('k', 50, 0),
        ('l', 55, 0),
        ('m', 60, 0),
        ('n', 65, 0),
        ('o', 70, 0),
        ('p', 75, 0),
        ('q', 80, 0),
        ('r', 85, 0),
        ('s', 90, 0),
        ('t', 95, 0),
        ('u', 100, 0),
        ('v', 105, 0),
        ('w', 110, 0),
        ('x', 115, 0),
        ('y', 120, 0),
        ('z', 125, 0),
        ('"', 130, 0),
        ('@', 135, 0),
        (' ', 150, 0),
        ('0', 0, 6),
        ('1', 5, 6),
        ('2', 10, 6),
        ('3', 15, 6),
        ('4', 20, 6),
        ('5', 25, 6),
        ('6', 30, 6),
        ('7', 35, 6),
        ('8', 40, 6),
        ('9', 45, 6),
        ('…', 50, 6),
        ('.', 55, 6),
        (':', 60, 6),
        ('(', 65, 6),
        (')', 70, 6),
        ('-', 75, 6),
        ('\'', 80, 6),
        ('!', 85, 6),
        ('_', 90, 6),
        ('+', 95, 6),
        ('\\', 100, 6),
        ('/', 105, 6),
        ('[', 110, 6),
        (']', 115, 6),
        ('^', 120, 6),
        ('&', 125, 6),
        ('%', 130, 6),
        (',', 135, 6),
        ('=', 140, 6),
        ('$', 145, 6),
        ('#', 150, 6),
        ('Å', 0, 12),
        ('Ö', 5, 12),
        ('Ä', 10, 12),
        ('?', 15, 12),
        ('*', 20, 12),
        ('<', 110, 6),
        ('>', 115, 6),
        ('{', 110, 6),
        ('}', 115, 6),
    ]
}

/// The glyph cell table: (character, x, y) of each glyph's origin.
pub fn font_cells() -> (r: Vec<(char, u32, u32)>)
    ensures
        r@ == font_cells_spec(),
{
    let mut v: Vec<(char, u32, u32)> = Vec::new();
    v.push(('a', 0, 0));
    v.push(('b', 5, 0));
    v.push(('c', 10, 0));
    v.push(('d', 15, 0));
    v.push(('e', 20, 0));
    v.push(('f', 25, 0));
    v.push(('g', 30, 0));
    v.push(('h', 35, 0));
    v.push(('i', 40, 0));
    v.push(('j', 45, 0));
    v.push(('k', 50, 0));
    v.push(('l', 55, 0));
    v.push(('m', 60, 0));
    v.push(('n', 65, 0));
    v.push(('o', 70, 0));
    v.push(('p', 75, 0));
    v.push(('q', 80, 0));
    v.push(('r', 85, 0));
    v.push(('s', 90, 0));
    v.push(('t', 95, 0));
    v.push(('u', 100, 0));
    v.push(('v', 105, 0));
    v.push(('w', 110, 0));
    v.push(('x', 115, 0));
    v.push(('y', 120, 0));
    v.push(('z', 125, 0));
    v.push(('"', 130, 0));
    v.push(('@', 135, 0));
    v.push((' ', 150, 0));
    v.push(('0', 0, 6));
    v.push(('1', 5, 6));
    v.push(('2', 10, 6));
    v.push(('3', 15, 6));
    v.push(('4', 20, 6));
    v.push(('5', 25, 6));
    v.push(('6', 30, 6));
    v.push(('7', 35, 6));
    v.push(('8', 40, 6));
    v.push(('9', 45, 6));
    v.push(('…', 50, 6));
    v.push(('.', 55, 6));
    v.push((':', 60, 6));
    v.push(('(', 65, 6));
    v.push((')', 70, 6));
    v.push(('-', 75, 6));
    v.push(('\'', 80, 6));
    v.push(('!', 85, 6));
    v.push(('_', 90, 6));
    v.push(('+', 95, 6));
    v.push(('\\', 100, 6));
    v.push(('/', 105, 6));
    v.push(('[', 110, 6));
    v.push((']', 115, 6));
    v.push(('^', 120, 6));
    v.push(('&', 125, 6));
    v.push(('%', 130, 6));
    v.push((',', 135, 6));
    v.push(('=', 140, 6));
    v.push(('$', 145, 6));
    v.push(('#', 150, 6));
    v.push(('Å', 0, 12));
    v.push(('Ö', 5, 12));
    v.push(('Ä', 10, 12));
    v.push(('?', 15, 12));
    v.push(('*', 20, 12));
    v.push(('<', 110, 6));
    v.push(('>', 115, 6));
    v.push(('{', 110, 6));
    v.push(('}', 115, 6));
    proof {
        assert(v@ =~= font_cells_spec());
    }
    v
}

/// The sprite name of a character's glyph.
pub open spec fn glyph_name(c: char) -> Seq<char> {
    "CHARACTER_"@ + dec_digits(c as u32 as int)
}

/// The sheet rectangle of one glyph cell.
pub open spec fn glyph_model(cell: (char, u32, u32)) -> SpriteRectModel {
    SpriteRectModel {
        name: glyph_name(cell.0),
        sheet: "TEXT.BMP"@,
        x: cell.1,
        y: cell.2,
        width: CHAR_WIDTH,
        height: CHAR_HEIGHT,
    }
}

/// The sheet rectangles of the font sheet, as mathematical values.
pub open spec fn text_sprites_spec() -> Seq<SpriteRectModel> {
    font_cells_spec().map_values(|cell: (char, u32, u32)| glyph_model(cell))
}

/// The sprite rectangles of the font sheet, one per supported character.
#[verifier::loop_isolation(false)]
pub fn text_sprites() -> (r: Vec<SpriteDefinition>)
    ensures
        models_of(r@) == text_sprites_spec(),
{
    let cells = font_cells();
    let mut v: Vec<SpriteDefinition> = Vec::new();
    let mut i: usize = 0;
    while i < cells.len()
        invariant
            i <= cells@.len(),
            v@.len() == i,
            forall|j: int| 0 <= j < i ==> #[trigger] v@[j].model() == glyph_model(cells@[j]),
        decreases cells@.len() - i,
    {
        let (c, x, y) = cells[i];
        let name = String::from_str("CHARACTER_").concat(u32_to_decimal(c as u32).as_str());
        v.push(SpriteDefinition {
            name,
            sprite_sheet: String::from_str("TEXT.BMP"),
            x,
            y,
            width: CHAR_WIDTH,
            height: CHAR_HEIGHT,
        });
        i = i + 1;
    }
    proof {
        assert(models_of(v@) =~= text_sprites_spec());
    }
    v
}

} // verus!

//! Drawing text with the kernel's 8x16 bitmap font, and loading the
//! TrueType font that draws the characters outside ASCII.
use vstd::prelude::*;
use crate::error::Code;
use crate::fat::FatVolume;
use crate::frame_buffer::{in_rect, inside, rect_inside, FrameBuffer};
use crate::graphics::{PixelColor, Vector2D};

verus! {

/// Whether pixel `dx` (0 = leftmost) of a glyph row is set: bit `7 - dx`.
pub open spec fn glyph_bit(row: u8, dx: int) -> bool {
    (row >> ((7 - dx) as u8)) & 1u8 == 1u8
}

/// A bitmap font: 256 glyphs of 16 rows of 8 pixels.
pub struct BitmapFont {
    glyphs: Vec<[u8; 16]>,
}

impl BitmapFont {
    pub closed spec fn wf(&self) -> bool {
        self.glyphs@.len() == 256
    }

    /// Row `row` of the glyph of `c`.
    pub closed spec fn row_of(&self, c: u8, row: int) -> u8 {
        self.glyphs@[c as int][row]
    }

    /// A font from its 256 glyphs; `None` when there are not exactly 256.
    pub fn new(glyphs: Vec<[u8; 16]>) -> (r: Option<Self>)
        ensures
            r is Some <==> glyphs@.len() == 256,
            r matches Some(f) ==> f.wf() && forall|c: u8, row: int| 0 <= row < 16 ==> #[trigger] f.row_of(c, row) == glyphs@[c as int][row],
    {
        if glyphs.len() == 256 {
            Some(BitmapFont { glyphs })
        } else {
            None
        }
    }

    /// The glyph of `c`.
    pub fn get_font(&self, c: u8) -> (r: [u8; 16])
        requires
            self.wf(),
        ensures
            forall|row: int| 0 <= row < 16 ==> #[trigger] r[row] == self.row_of(c, row),
    {
        self.glyphs[c as usize]
    }
}

/// Whether the text `s` drawn at the origin with `font` sets pixel
/// (`dx`, `dy`): character `dx / 8`, row `dy`, column `dx % 8`.
pub open spec fn text_bit(font: &BitmapFont, s: Seq<u8>, dx: int, dy: int) -> bool {
    &&& 0 <= dx < 8 * s.len()
    &&& 0 <= dy < 16
    &&& glyph_bit(font.row_of(s[dx / 8], dy), dx % 8)
}

/// Draws character `c` with its top left corner at `pos`: the set pixels
/// of its glyph get `color`, the others keep theirs.
pub fn write_ascii(writer: &mut FrameBuffer, pos: Vector2D<i32>, c: u8, color: &PixelColor, font: &BitmapFont)
    requires
        old(writer).wf(),
        font.wf(),
        rect_inside(pos, Vector2D { x: 8i32, y: 16i32 }, old(writer).width_spec(), old(writer).height_spec()),
    ensures
        final(writer).wf(),
        final(writer).width_spec() == old(writer).width_spec(),
        final(writer).height_spec() == old(writer).height_spec(),
        final(writer).format_spec() == old(writer).format_spec(),
        forall|x: int, y: int| inside(x, y, old(writer).width_spec(), old(writer).height_spec()) ==> #[trigger] final(writer).pixel(x, y)
            == if in_rect(x, y, pos, Vector2D { x: 8i32, y: 16i32 }) && glyph_bit(font.row_of(c, y - pos.y), x - pos.x) {
                *color
            } else {
                old(writer).pixel(x, y)
            },
{
    proof { writer.lemma_dims(); }
    let glyph = font.get_font(c);
    let mut dy: i32 = 0;
    while dy < 16
        invariant
            writer.wf(),
            font.wf(),
            writer.width_spec() == old(writer).width_spec(),
            writer.height_spec() == old(writer).height_spec(),
            writer.format_spec() == old(writer).format_spec(),
            rect_inside(pos, Vector2D { x: 8i32, y: 16i32 }, old(writer).width_spec(), old(writer).height_spec()),
            forall|row: int| 0 <= row < 16 ==> #[trigger] glyph[row] == font.row_of(c, row),
            0 <= dy <= 16,
            forall|x: int, y: int| inside(x, y, old(writer).width_spec(), old(writer).height_spec()) ==> #[trigger] writer.pixel(x, y)
                == if in_rect(x, y, pos, Vector2D { x: 8i32, y: dy }) && glyph_bit(font.row_of(c, y - pos.y), x - pos.x) {
                    *color
                } else {
                    old(writer).pixel(x, y)
                },
        decreases 16 - dy,
    {
        let row = glyph[dy as usize];
        let mut dx: i32 = 0;
        while dx < 8
            invariant
                writer.wf(),
                writer.width_spec() == old(writer).width_spec(),
                writer.height_spec() == old(writer).height_spec(),
                writer.format_spec() == old(writer).format_spec(),
                rect_inside(pos, Vector2D { x: 8i32, y: 16i32 }, old(writer).width_spec(), old(writer).height_spec()),
                0 <= dy < 16,
                row == font.row_of(c, dy as int),
                0 <= dx <= 8,
                forall|x: int, y: int| inside(x, y, old(writer).width_spec(), old(writer).height_spec()) ==> #[trigger] writer.pixel(x, y)
                    == if (in_rect(x, y, pos, Vector2D { x: 8i32, y: dy }) || (y == pos.y + dy && pos.x <= x < pos.x + dx))
                        && glyph_bit(font.row_of(c, y - pos.y), x - pos.x) {
                        *color
                    } else {
                        old(writer).pixel(x, y)
                    },
            decreases 8 - dx,
        {
            proof { writer.lemma_dims(); }
            if (row >> ((7 - dx) as u8)) & 1 == 1 {
                writer.write(Vector2D::new(pos.x + dx, pos.y + dy), color);
            }
            dx = dx + 1;
        }
        dy = dy + 1;
    }
}

/// Draws the ASCII text `s` from `pos` rightwards, one 8-pixel cell per
/// character.
pub fn write_string(writer: &mut FrameBuffer, pos: Vector2D<i32>, s: &[u8], color: &PixelColor, font: &BitmapFont)
    requires
        old(writer).wf(),
        font.wf(),
        s@.len() <= 0x200_0000,
        rect_inside(pos, Vector2D { x: (8 * s@.len()) as i32, y: 16i32 }, old(writer).width_spec(), old(writer).height_spec()),
    ensures
        final(writer).wf(),
        final(writer).width_spec() == old(writer).width_spec(),
        final(writer).height_spec() == old(writer).height_spec(),
        final(writer).format_spec() == old(writer).format_spec(),
        forall|x: int, y: int| inside(x, y, old(writer).width_spec(), old(writer).height_spec()) ==> #[trigger] final(writer).pixel(x, y)
            == if text_bit(font, s@, x - pos.x, y - pos.y) { *color } else { old(writer).pixel(x, y) },
{
    let mut i: usize = 0;
    while i < s.len()
        invariant
            writer.wf(),
            font.wf(),
            writer.width_spec() == old(writer).width_spec(),
            writer.height_spec() == old(writer).height_spec(),
            writer.format_spec() == old(writer).format_spec(),
            s@.len() <= 0x200_0000,
            rect_inside(pos, Vector2D { x: (8 * s@.len()) as i32, y: 16i32 }, old(writer).width_spec(), old(writer).height_spec()),
            i <= s@.len(),
            forall|x: int, y: int| inside(x, y, old(writer).width_spec(), old(writer).height_spec()) ==> #[trigger] writer.pixel(x, y)
                == if text_bit(font, s@.subrange(0, i as int), x - pos.x, y - pos.y) { *color } else { old(writer).pixel(x, y) },
        decreases s@.len() - i,
    {
        let ghost before = *writer;
        proof { writer.lemma_dims(); }
        let p = Vector2D::new(pos.x + 8 * i as i32, pos.y);
        write_ascii(writer, p, s[i], color, font);
        proof {
            assert forall|x: int, y: int| inside(x, y, old(writer).width_spec(), old(writer).height_spec()) implies #[trigger] writer.pixel(x, y)
                == if text_bit(font, s@.subrange(0, i + 1), x - pos.x, y - pos.y) { *color } else { old(writer).pixel(x, y) } by {
                let dx = x - pos.x;
                if 0 <= dx < 8 * (i + 1) {
                    if dx / 8 == i {
                        assert(s@.subrange(0, i + 1)[dx / 8] == s@[i as int]);
                    } else {
                        assert(dx / 8 < i);
                        assert(s@.subrange(0, i + 1)[dx / 8] == s@.subrange(0, i as int)[dx / 8]);
                    }
                }
            }
        }
        i = i + 1;
    }
    proof {
        assert(s@.subrange(0, s@.len() as int) =~= s@);
    }
}

/// A TrueType font of `rusttype`.
#[verifier::external_type_specification]
#[verifier::external_body]
pub struct ExTtfFont<'a>(rusttype::Font<'a>);

/// Whether `rusttype` reads face `index` of the font data `data`.
pub uninterp spec fn ttf_parses(data: Seq<u8>, index: u32) -> bool;

/// Reads face `index` of the font data `data` with
/// `rusttype::Font::try_from_vec_and_index`, which gives `None` for data it
/// cannot read; whether it reads the data depends on the data and the index
/// alone (`ttf_parses`).
#[verifier::external_body]
fn parse_ttf(data: Vec<u8>, index: u32) -> (r: Option<rusttype::Font<'static>>)
    ensures
        r is Some <==> ttf_parses(data@, index),
{
    rusttype::Font::try_from_vec_and_index(data, index)
}

/// The path of the TrueType font on the boot volume: `/ipag.ttf`.
pub open spec fn font_path() -> Seq<u8> {
    seq![0x2fu8, 0x69, 0x70, 0x61, 0x67, 0x2e, 0x74, 0x74, 0x66]
}

/// Loads the TrueType font `/ipag.ttf` of `vol`: `NoSuchEntry` when the
/// path names no entry or names one before a `/`, else the font read from
/// the file's bytes, or `FreeTypeError` when they are no font.
pub fn init(vol: &FatVolume) -> (r: Result<rusttype::Font<'static>, Code>)
    requires
        vol@.wf(),
    ensures
        ({
            let (found, post_slash) = vol@.find_spec(font_path(), 0);
            match found {
                Some((c, i)) if !post_slash => {
                    let data = vol@.load_spec(vol@.entry_first_cluster(c, i), vol@.entry_size(c, i), vol@.fuel());
                    &&& r is Ok <==> ttf_parses(data, 0)
                    &&& r is Err ==> r == Err::<rusttype::Font<'static>, Code>(Code::FreeTypeError)
                },
                _ => r == Err::<rusttype::Font<'static>, Code>(Code::NoSuchEntry),
            }
        }),
{
    let path: &[u8] = &[0x2f, 0x69, 0x70, 0x61, 0x67, 0x2e, 0x74, 0x74, 0x66];
    assert(path@ =~= font_path());
    let (found, post_slash) = vol.find_file(path, 0);
    match found {
        Some((c, i)) => {
            if post_slash {
                return Err(Code::NoSuchEntry);
            }
            let entry = vol.entry_at(c, i);
            let data = vol.load_file(&entry);
            match parse_ttf(data, 0) {
                Some(f) => Ok(f),
                None => Err(Code::FreeTypeError),
            }
        },
        None => Err(Code::NoSuchEntry),
    }
}

} // verus!

use vstd::prelude::*;

verus! {

/// Characters per row of the font texture.
pub const CHARS_PER_LINE: i32 = 31;

/// Vertices that draw one character (two triangles).
pub const VERTICES_PER_CHAR: i32 = 6;

/// The resources that draw text: the shader `S`, the vertex array holding a
/// quad for every character of the font texture, and the font texture.
pub struct DrawText<S> {
    pub shader: S,
    pub vao: u32,
    pub texture: u32,
}

/// One character to draw: its position in the message and the first vertex
/// of its quad in the vertex array.
#[derive(Clone, Copy, Debug, PartialEq, Eq, Structural)]
pub struct GlyphDraw {
    pub letter: i32,
    pub first: i32,
}

/// The low byte of a character's code, which selects its glyph.
pub open spec fn glyph_byte(c: char) -> int {
    (c as int) % 256
}

/// Characters whose low byte is a space or a control code are not drawn.
pub open spec fn is_drawn(c: char) -> bool {
    glyph_byte(c) > 32
}

/// First vertex of a character's quad. The font texture's bottom row holds
/// `!` to `@`, the middle row `A` to `_`, the top row `` ` `` onwards.
pub open spec fn glyph_first(c: char) -> int {
    let b = glyph_byte(c);
    if 65 <= (c as int) && (c as int) <= 95 {
        CHARS_PER_LINE * VERTICES_PER_CHAR + (b - 65) * VERTICES_PER_CHAR
    } else if (c as int) > 95 {
        CHARS_PER_LINE * VERTICES_PER_CHAR * 2 + (b - 96) * VERTICES_PER_CHAR
    } else {
        (b - 33) * VERTICES_PER_CHAR
    }
}

/// A character beyond `_` whose low byte lies below `` ` `` has no glyph: its
/// glyph index would be negative.
pub open spec fn has_glyph(c: char) -> bool {
    !(is_drawn(c) && (c as int) > 95 && glyph_byte(c) < 96)
}

/// The characters of `message` that are drawn, with their positions and
/// first vertices, in order.
pub open spec fn glyph_draws(message: Seq<char>) -> Seq<GlyphDraw>
    decreases message.len(),
{
    if message.len() == 0 {
        Seq::empty()
    } else {
        let rest = glyph_draws(message.drop_last());
        let c = message.last();
        if is_drawn(c) {
            rest.push(
                GlyphDraw {
                    letter: (message.len() - 1) as i32,
                    first: glyph_first(c) as i32,
                },
            )
        } else {
            rest
        }
    }
}

/// The code point of a character.
fn char_code(c: char) -> (code: u32)
    ensures
        code as int == c as int,
{
    c as u32
}

impl<S> DrawText<S> {
    /// Text resources from a compiled shader, the character quads' vertex
    /// array and the font texture.
    pub fn new(shader: S, vao: u32, texture: u32) -> (t: DrawText<S>)
        ensures
            t.shader == shader,
            t.vao == vao,
            t.texture == texture,
    {
        DrawText { shader, vao, texture }
    }

    /// Lays `message` out for drawing: for every character that is drawn,
    /// its position in the message (the caller places it that many
    /// character widths to the right) and the first vertex of its quad.
    pub fn layout_text(&self, message: &Vec<char>) -> (draws: Vec<GlyphDraw>)
        requires
            message@.len() <= i32::MAX,
            forall|i: int| 0 <= i < message@.len() ==> has_glyph(#[trigger] message@[i]),
        ensures
            draws@ == glyph_draws(message@),
    {
        let mut draws: Vec<GlyphDraw> = Vec::new();
        let mut letter: i32 = 0;
        let mut i: usize = 0;
        while i < message.len()
            invariant
                message@.len() <= i32::MAX,
                forall|k: int| 0 <= k < message@.len() ==> has_glyph(#[trigger] message@[k]),
                i <= message@.len(),
                letter == i,
                draws@ == glyph_draws(message@.take(i as int)),
            decreases message@.len() - i,
        {
            let c = message[i];
            let code = char_code(c);
            let byte = code % 256;
            assert(byte as int == glyph_byte(c));
            assert(has_glyph(message@[i as int]));
            if byte > 32 {
                let first: i32 = if code >= 65 && code <= 95 {
                    CHARS_PER_LINE * VERTICES_PER_CHAR + (byte - 65) as i32 * VERTICES_PER_CHAR
                } else if code > 95 {
                    CHARS_PER_LINE * VERTICES_PER_CHAR * 2 + (byte - 96) as i32 * VERTICES_PER_CHAR
                } else {
                    (byte - 33) as i32 * VERTICES_PER_CHAR
                };
                draws.push(GlyphDraw { letter, first });
            }
            assert(message@.take(i + 1).drop_last() =~= message@.take(i as int));
            letter = letter + 1;
            i = i + 1;
        }
        assert(message@.take(i as int) =~= message@);
        draws
    }
}

} // verus!

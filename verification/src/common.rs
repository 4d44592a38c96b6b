use vstd::prelude::*;

verus! {

/// Keyboard events of the game's own vocabulary.
#[derive(Clone, Copy, Debug, PartialEq, Eq, Structural)]
pub enum Event {
    Idle,
    Up,
    Down,
    Left,
    Right,
    Shift,
    Space,
    OffUp,
    OffDown,
    OffLeft,
    OffRight,
    OffShift,
    OffSpace,
}

/// Rows of the rendered text that are skipped at the top of a title.
pub const TITLE_OFF_TOP: u32 = 11;

/// Index of the alpha byte of pixel `(y, x)` in a 4-byte-per-pixel surface.
pub open spec fn alpha_index(y: int, x: int, pitch: int) -> int {
    y * pitch + x * 4 + 3
}

/// Whether cell `(r, x)` of a title mask is lit: the pixel `TITLE_OFF_TOP`
/// rows further down in the rendered text has a non-zero alpha.
pub open spec fn mask_bit(pixels: Seq<u8>, height: int, pitch: int, r: int, x: int) -> u8 {
    if r + TITLE_OFF_TOP < height && pixels[alpha_index(r + TITLE_OFF_TOP, x, pitch)] > 0 {
        1
    } else {
        0
    }
}

/// The title mask cannot overflow or read past the rendered text.
pub open spec fn title_mask_fits(len: int, width: int, height: int, pitch: int) -> bool {
    &&& width * height <= u32::MAX
    &&& (height > TITLE_OFF_TOP && width > 0) ==> {
        &&& (height - 1) * pitch + (width - 1) * 4 <= u32::MAX
        &&& alpha_index(height - 1, width - 1, pitch) < len
    }
}

proof fn lemma_row_index(r: int, x: int, w: int, h: int)
    requires
        0 <= r < h,
        0 <= x < w,
    ensures
        0 <= r * w + x < w * h,
        r * w <= (h - 1) * w,
{
    assert(r * w + x < w * h) by (nonlinear_arith)
        requires
            0 <= r < h,
            0 <= x < w,
    ;
    assert(0 <= r * w) by (nonlinear_arith)
        requires
            0 <= r,
            0 <= w,
    ;
    assert(r * w <= (h - 1) * w) by (nonlinear_arith)
        requires
            0 <= r < h,
            0 <= w,
    ;
}

proof fn lemma_row_index_distinct(r1: int, x1: int, r2: int, x2: int, w: int)
    requires
        0 <= r1,
        0 <= r2,
        0 <= x1 < w,
        0 <= x2 < w,
        r1 != r2 || x1 != x2,
    ensures
        r1 * w + x1 != r2 * w + x2,
{
    if r1 < r2 {
        assert(r1 * w + x1 < r2 * w + x2) by (nonlinear_arith)
            requires
                r1 < r2,
                0 <= x1 < w,
                0 <= x2,
        ;
    } else if r2 < r1 {
        assert(r2 * w + x2 < r1 * w + x1) by (nonlinear_arith)
            requires
                r2 < r1,
                0 <= x2 < w,
                0 <= x1,
        ;
    }
}

proof fn lemma_alpha_index_bound(y: int, x: int, w: int, h: int, pitch: int)
    requires
        0 <= y < h,
        0 <= x < w,
        0 <= pitch,
    ensures
        0 <= y * pitch + x * 4 <= (h - 1) * pitch + (w - 1) * 4,
{
    assert(0 <= y * pitch <= (h - 1) * pitch) by (nonlinear_arith)
        requires
            0 <= y < h,
            0 <= pitch,
    ;
}

/// Picks out the lit pixels of a rendered title: for every row `r` and column
/// `x` the mask holds 1 where the pixel `TITLE_OFF_TOP` rows further down the
/// rendered text has a non-zero alpha, and 0 elsewhere (the last
/// `TITLE_OFF_TOP` rows of the mask stay 0).
pub fn title_mask(pixels: &[u8], width: u32, height: u32, pitch: u32) -> (mask: Vec<u8>)
    requires
        title_mask_fits(pixels@.len() as int, width as int, height as int, pitch as int),
    ensures
        mask@.len() == width * height,
        forall|r: int, x: int|
            0 <= r < height && 0 <= x < width ==> #[trigger] mask@[r * width + x] == mask_bit(
                pixels@,
                height as int,
                pitch as int,
                r,
                x,
            ),
{
    let pixels_len = pixels.len();
    let size = width * height;
    let mut mask: Vec<u8> = vec![0u8; size as usize];
    assert forall|r: int, x: int| 0 <= r < height && 0 <= x < width implies #[trigger] mask@[r
        * width + x] == 0 by {
        lemma_row_index(r, x, width as int, height as int);
    }
    let off_top = TITLE_OFF_TOP;
    let mut y = off_top;
    while y < height
        invariant
            title_mask_fits(pixels@.len() as int, width as int, height as int, pitch as int),
            size == width * height,
            pixels_len == pixels@.len(),
            mask@.len() == size,
            off_top == TITLE_OFF_TOP,
            off_top <= y,
            y <= height || height <= off_top,
            forall|r: int, x: int|
                0 <= r < height && 0 <= x < width ==> #[trigger] mask@[r * width + x] == if r
                    + off_top < y {
                    mask_bit(pixels@, height as int, pitch as int, r, x)
                } else {
                    0
                },
        decreases height - y,
    {
        let mut x: u32 = 0;
        while x < width
            invariant
                title_mask_fits(pixels@.len() as int, width as int, height as int, pitch as int),
                size == width * height,
                pixels_len == pixels@.len(),
                mask@.len() == size,
                off_top == TITLE_OFF_TOP,
                off_top <= y < height,
                x <= width,
                forall|r: int, c: int|
                    0 <= r < height && 0 <= c < width ==> #[trigger] mask@[r * width + c] == if r
                        + off_top < y || (r + off_top == y && c < x) {
                        mask_bit(pixels@, height as int, pitch as int, r, c)
                    } else {
                        0
                    },
            decreases width - x,
        {
            proof {
                lemma_alpha_index_bound(y as int, x as int, width as int, height as int, pitch as int);
            }
            assert(height > TITLE_OFF_TOP && width > 0);
            let index = (y * pitch + x * 4) as usize;
            assert(index + 3 <= alpha_index(height - 1, width - 1, pitch as int));
            assert(alpha_index(height - 1, width - 1, pitch as int) < pixels@.len());
            let val = pixels[index + 3];
            let row = y - off_top;
            proof {
                lemma_row_index(row as int, x as int, width as int, height as int);
            }
            let here = row * width + x;
            if val > 0 {
                let ghost prev = mask@;
                mask[here as usize] = 1;
                assert forall|r: int, c: int|
                    0 <= r < height && 0 <= c < width implies #[trigger] mask@[r * width + c] == if r
                        + off_top < y || (r + off_top == y && c < x + 1) {
                        mask_bit(pixels@, height as int, pitch as int, r, c)
                    } else {
                        0
                    } by {
                    lemma_row_index(r, c, width as int, height as int);
                    if r != row || c != x {
                        lemma_row_index_distinct(r, c, row as int, x as int, width as int);
                        assert(prev[r * width + c] == mask@[r * width + c]);
                    }
                }
            } else {
                assert forall|r: int, c: int|
                    0 <= r < height && 0 <= c < width implies #[trigger] mask@[r * width + c] == if r
                        + off_top < y || (r + off_top == y && c < x + 1) {
                        mask_bit(pixels@, height as int, pitch as int, r, c)
                    } else {
                        0
                    } by {
                    lemma_row_index(r, c, width as int, height as int);
                }
            }
            x = x + 1;
        }
        y = y + 1;
    }
    mask
}

/// An opaque colour: red, green and blue channels.
#[derive(Clone, Copy, Debug, PartialEq, Eq, Structural)]
pub struct Colour {
    pub r: u8,
    pub g: u8,
    pub b: u8,
}

/// Side of the square of texture pixels that a lit mask cell spans.
pub const TITLE_GAP: u32 = 4;

/// Byte offset in the title texture of texture pixel `(yy, xx)` shifted
/// right by `slant` pixels.
pub open spec fn block_offset(yy: int, xx: int, slant: int, pitch: int) -> int {
    yy * pitch + (xx + slant) * 4
}

/// Writes one texture pixel at byte `off`: full alpha, then the colour.
pub open spec fn paint_block(buf: Seq<u8>, off: int, c: Colour) -> Seq<u8> {
    buf.update(off, 255).update(off + 1, c.r).update(off + 2, c.g).update(off + 3, c.b)
}

/// Paints the 2 by 2 texture pixels of mask cell `(y, x)`, top row first,
/// left pixel first.
pub open spec fn paint_cell(buf: Seq<u8>, y: int, x: int, slant: int, pitch: int, c: Colour) -> Seq<
    u8,
> {
    let g = TITLE_GAP as int;
    let b1 = paint_block(buf, block_offset(y * g, x * g, slant, pitch), c);
    let b2 = paint_block(b1, block_offset(y * g, x * g + 1, slant, pitch), c);
    let b3 = paint_block(b2, block_offset(y * g + 1, x * g, slant, pitch), c);
    paint_block(b3, block_offset(y * g + 1, x * g + 1, slant, pitch), c)
}

/// Paints the lit cells among the first `n` cells of mask row `y`, left to right.
pub open spec fn paint_row(
    buf: Seq<u8>,
    mask: Seq<u8>,
    width: int,
    y: int,
    slant: int,
    pitch: int,
    c: Colour,
    n: int,
) -> Seq<u8>
    decreases n,
{
    if n <= 0 {
        buf
    } else {
        let before = paint_row(buf, mask, width, y, slant, pitch, c, n - 1);
        if mask[y * width + n - 1] == 1 {
            paint_cell(before, y, n - 1, slant, pitch, c)
        } else {
            before
        }
    }
}

/// Paints the first `k` mask rows counted from the second-to-last row
/// upwards; the `k`-th of them is row `height - 1 - k` and is shifted right by
/// `2 * (k - 1)` pixels, which slants the title.
pub open spec fn paint_rows(
    buf: Seq<u8>,
    mask: Seq<u8>,
    width: int,
    height: int,
    pitch: int,
    c: Colour,
    k: int,
) -> Seq<u8>
    decreases k,
{
    if k <= 0 {
        buf
    } else {
        paint_row(
            paint_rows(buf, mask, width, height, pitch, c, k - 1),
            mask,
            width,
            height - 1 - k,
            2 * (k - 1),
            pitch,
            c,
            width,
        )
    }
}

/// The texture pixels of lit cell `(y, x)` lie inside the texture and their
/// offsets fit in 32 bits.
pub open spec fn title_cell_fits(y: int, x: int, height: int, pitch: int, len: int) -> bool {
    let g = TITLE_GAP as int;
    let last = block_offset(y * g + 1, x * g + 1, 2 * (height - 2 - y), pitch);
    &&& y * g + 2 <= u32::MAX
    &&& x * g + 2 <= u32::MAX
    &&& last <= u32::MAX
    &&& last + 3 < len
}

/// Painting a title of `width` by `height` mask cells into a texture of `len`
/// bytes neither overflows nor writes outside the texture.
pub open spec fn title_paint_fits(mask: Seq<u8>, width: int, height: int, pitch: int, len: int) -> bool {
    &&& width * height <= u32::MAX
    &&& mask.len() == width * height
    &&& height >= 1 ==> 2 * (height - 1) <= u32::MAX
    &&& forall|y: int, x: int|
        0 <= y < height - 1 && 0 <= x < width && #[trigger] mask[y * width + x] == 1
            ==> title_cell_fits(y, x, height, pitch, len)
}

fn paint_block_at(buffer: &mut [u8], off: usize, c: Colour)
    requires
        off + 3 < old(buffer)@.len(),
    ensures
        final(buffer)@ == paint_block(old(buffer)@, off as int, c),
{
    buffer[off] = 255;
    buffer[off + 1] = c.r;
    buffer[off + 2] = c.g;
    buffer[off + 3] = c.b;
}

proof fn lemma_block_offsets(y: int, x: int, i: int, j: int, slant: int, pitch: int)
    requires
        0 <= y,
        0 <= x,
        0 <= i <= 1,
        0 <= j <= 1,
        0 <= slant,
        0 <= pitch,
    ensures
        0 <= (y * 4 + i) * pitch <= (y * 4 + 1) * pitch,
        0 <= block_offset(y * 4 + i, x * 4 + j, slant, pitch) <= block_offset(
            y * 4 + 1,
            x * 4 + 1,
            slant,
            pitch,
        ),
{
    assert(0 <= (y * 4 + i) * pitch <= (y * 4 + 1) * pitch) by (nonlinear_arith)
        requires
            0 <= y,
            0 <= i <= 1,
            0 <= pitch,
    ;
}

/// Paints lit mask cell `(y, x)` as 2 by 2 texture pixels.
fn paint_title_cell(buffer: &mut [u8], y: u32, x: u32, slant: u32, pitch: u32, c: Colour)
    requires
        title_cell_fits(y as int, x as int, y + 2 + slant / 2, pitch as int, old(buffer)@.len() as int),
        slant % 2 == 0,
    ensures
        final(buffer)@ == paint_cell(old(buffer)@, y as int, x as int, slant as int, pitch as int, c),
        final(buffer)@.len() == old(buffer)@.len(),
{
    let gap = TITLE_GAP;
    let yy = y * gap;
    let xx = x * gap;
    proof {
        lemma_block_offsets(y as int, x as int, 0, 0, slant as int, pitch as int);
        lemma_block_offsets(y as int, x as int, 0, 1, slant as int, pitch as int);
        lemma_block_offsets(y as int, x as int, 1, 0, slant as int, pitch as int);
        lemma_block_offsets(y as int, x as int, 1, 1, slant as int, pitch as int);
    }
    paint_block_at(buffer, (yy * pitch + (xx + slant) * 4) as usize, c);
    paint_block_at(buffer, (yy * pitch + (xx + 1 + slant) * 4) as usize, c);
    paint_block_at(buffer, ((yy + 1) * pitch + (xx + slant) * 4) as usize, c);
    paint_block_at(buffer, ((yy + 1) * pitch + (xx + 1 + slant) * 4) as usize, c);
}

/// Paints a title mask into a 4-byte-per-pixel texture: starting from the
/// second-to-last mask row and going up, every lit cell becomes a 2 by 2
/// square of pixels (alpha 255, then the colour's red, green and blue) at four
/// times the cell's position, and each row up is shifted two pixels further
/// right, which slants the title. Bytes outside the painted squares are left
/// as they are; where squares overlap, the one painted later wins (see
/// `lemma_title_painted` for the result in the usual case of whole-pixel
/// rows).
pub fn paint_title(
    buffer: &mut [u8],
    pitch: u32,
    mask: &Vec<u8>,
    width: u32,
    height: u32,
    colour: Colour,
)
    requires
        title_paint_fits(
            mask@,
            width as int,
            height as int,
            pitch as int,
            old(buffer)@.len() as int,
        ),
    ensures
        final(buffer)@ == paint_rows(
            old(buffer)@,
            mask@,
            width as int,
            height as int,
            pitch as int,
            colour,
            height - 1,
        ),
{
    let ghost start = buffer@;
    let mut slant: u32 = 0;
    let mut oppy: u32 = 1;
    while oppy < height
        invariant
            title_paint_fits(mask@, width as int, height as int, pitch as int, start.len() as int),
            buffer@.len() == start.len(),
            1 <= oppy,
            oppy <= height || oppy == 1,
            slant == 2 * (oppy - 1),
            buffer@ == paint_rows(
                start,
                mask@,
                width as int,
                height as int,
                pitch as int,
                colour,
                oppy - 1,
            ),
        decreases height - oppy,
    {
        let y = height - oppy - 1;
        let ghost row_start = buffer@;
        let mut x: u32 = 0;
        while x < width
            invariant
                title_paint_fits(mask@, width as int, height as int, pitch as int, start.len() as int),
                buffer@.len() == start.len(),
                1 <= oppy < height,
                y == height - oppy - 1,
                slant == 2 * (oppy - 1),
                x <= width,
                row_start == paint_rows(
                    start,
                    mask@,
                    width as int,
                    height as int,
                    pitch as int,
                    colour,
                    oppy - 1,
                ),
                buffer@ == paint_row(
                    row_start,
                    mask@,
                    width as int,
                    y as int,
                    slant as int,
                    pitch as int,
                    colour,
                    x as int,
                ),
            decreases width - x,
        {
            proof {
                lemma_row_index(y as int, x as int, width as int, height as int);
            }
            let index = y * width + x;
            let val = mask[index as usize];
            if val == 1 {
                assert(title_cell_fits(y as int, x as int, height as int, pitch as int, start.len() as int));
                paint_title_cell(buffer, y, x, slant, pitch, colour);
            }
            x = x + 1;
        }
        slant = slant + 2;
        oppy = oppy + 1;
    }
}

/// Byte `t` (0 to 3) of a painted texture pixel: alpha, then the colour.
pub open spec fn pixel_byte(c: Colour, t: int) -> u8 {
    if t == 0 {
        255
    } else if t == 1 {
        c.r
    } else if t == 2 {
        c.g
    } else {
        c.b
    }
}

/// Byte offset of texture pixel `(i, j)` (each 0 or 1) of mask cell `(y, x)`
/// in a title painted from a mask `height` rows high.
pub open spec fn title_block(height: int, pitch: int, y: int, x: int, i: int, j: int) -> int {
    block_offset(
        y * TITLE_GAP + i,
        x * TITLE_GAP + j,
        2 * (height - 2 - y),
        pitch,
    )
}

/// Mask cell `(y, x)` is painted, and `(i, j)` names one of its four pixels.
pub open spec fn lit_block(mask: Seq<u8>, width: int, height: int, y: int, x: int, i: int, j: int) -> bool {
    &&& 0 <= y < height - 1
    &&& 0 <= x < width
    &&& mask[y * width + x] == 1
    &&& 0 <= i < 2
    &&& 0 <= j < 2
}

/// Byte `p` belongs to a painted pixel of the title.
pub open spec fn title_covers(mask: Seq<u8>, width: int, height: int, pitch: int, p: int) -> bool {
    exists|y: int, x: int, i: int, j: int|
        #[trigger] lit_block(mask, width, height, y, x, i, j) && title_block(
            height,
            pitch,
            y,
            x,
            i,
            j,
        ) <= p < title_block(height, pitch, y, x, i, j) + 4
}

spec fn cell_offsets(y: int, x: int, slant: int, pitch: int) -> Seq<int> {
    let g = TITLE_GAP as int;
    seq![
        block_offset(y * g, x * g, slant, pitch),
        block_offset(y * g, x * g + 1, slant, pitch),
        block_offset(y * g + 1, x * g, slant, pitch),
        block_offset(y * g + 1, x * g + 1, slant, pitch),
    ]
}

spec fn row_offsets(mask: Seq<u8>, width: int, y: int, slant: int, pitch: int, n: int) -> Seq<int>
    decreases n,
{
    if n <= 0 {
        Seq::empty()
    } else {
        row_offsets(mask, width, y, slant, pitch, n - 1) + if mask[y * width + n - 1] == 1 {
            cell_offsets(y, n - 1, slant, pitch)
        } else {
            Seq::empty()
        }
    }
}

spec fn rows_offsets(mask: Seq<u8>, width: int, height: int, pitch: int, k: int) -> Seq<int>
    decreases k,
{
    if k <= 0 {
        Seq::empty()
    } else {
        rows_offsets(mask, width, height, pitch, k - 1) + row_offsets(
            mask,
            width,
            height - 1 - k,
            2 * (k - 1),
            pitch,
            width,
        )
    }
}

spec fn paint_blocks(buf: Seq<u8>, offs: Seq<int>, c: Colour) -> Seq<u8>
    decreases offs.len(),
{
    if offs.len() == 0 {
        buf
    } else {
        paint_block(paint_blocks(buf, offs.drop_last(), c), offs.last(), c)
    }
}

proof fn lemma_paint_blocks_concat(buf: Seq<u8>, a: Seq<int>, b: Seq<int>, c: Colour)
    ensures
        paint_blocks(buf, a + b, c) == paint_blocks(paint_blocks(buf, a, c), b, c),
    decreases b.len(),
{
    if b.len() == 0 {
        assert(a + b =~= a);
    } else {
        assert((a + b).drop_last() =~= a + b.drop_last());
        assert((a + b).last() == b.last());
        lemma_paint_blocks_concat(buf, a, b.drop_last(), c);
    }
}

proof fn lemma_paint_cell_blocks(buf: Seq<u8>, y: int, x: int, slant: int, pitch: int, c: Colour)
    ensures
        paint_cell(buf, y, x, slant, pitch, c) == paint_blocks(buf, cell_offsets(y, x, slant, pitch), c),
{
    let offs = cell_offsets(y, x, slant, pitch);
    assert(offs.drop_last().drop_last().drop_last().drop_last() =~= Seq::<int>::empty());
    assert(offs.drop_last().drop_last().drop_last() =~= seq![offs[0]]);
    assert(offs.drop_last().drop_last() =~= seq![offs[0], offs[1]]);
    assert(offs.drop_last() =~= seq![offs[0], offs[1], offs[2]]);
    reveal_with_fuel(paint_blocks, 5);
}

proof fn lemma_paint_row_blocks(
    buf: Seq<u8>,
    mask: Seq<u8>,
    width: int,
    y: int,
    slant: int,
    pitch: int,
    c: Colour,
    n: int,
)
    ensures
        paint_row(buf, mask, width, y, slant, pitch, c, n) == paint_blocks(
            buf,
            row_offsets(mask, width, y, slant, pitch, n),
            c,
        ),
    decreases n,
{
    if n > 0 {
        lemma_paint_row_blocks(buf, mask, width, y, slant, pitch, c, n - 1);
        let before = row_offsets(mask, width, y, slant, pitch, n - 1);
        if mask[y * width + n - 1] == 1 {
            lemma_paint_cell_blocks(
                paint_row(buf, mask, width, y, slant, pitch, c, n - 1),
                y,
                n - 1,
                slant,
                pitch,
                c,
            );
            lemma_paint_blocks_concat(buf, before, cell_offsets(y, n - 1, slant, pitch), c);
        } else {
            assert(before + Seq::<int>::empty() =~= before);
        }
    }
}

proof fn lemma_paint_rows_blocks(
    buf: Seq<u8>,
    mask: Seq<u8>,
    width: int,
    height: int,
    pitch: int,
    c: Colour,
    k: int,
)
    ensures
        paint_rows(buf, mask, width, height, pitch, c, k) == paint_blocks(
            buf,
            rows_offsets(mask, width, height, pitch, k),
            c,
        ),
    decreases k,
{
    if k > 0 {
        lemma_paint_rows_blocks(buf, mask, width, height, pitch, c, k - 1);
        let before = rows_offsets(mask, width, height, pitch, k - 1);
        let row = row_offsets(mask, width, height - 1 - k, 2 * (k - 1), pitch, width);
        lemma_paint_row_blocks(
            paint_rows(buf, mask, width, height, pitch, c, k - 1),
            mask,
            width,
            height - 1 - k,
            2 * (k - 1),
            pitch,
            c,
            width,
        );
        lemma_paint_blocks_concat(buf, before, row, c);
    }
}

/// Painting blocks at offsets that are multiples of 4: each byte of a
/// painted block holds its pixel byte, every other byte is unchanged.
proof fn lemma_paint_blocks_bytes(buf: Seq<u8>, offs: Seq<int>, c: Colour)
    requires
        forall|i: int|
            0 <= i < offs.len() ==> #[trigger] offs[i] % 4 == 0 && 0 <= offs[i] && offs[i] + 3
                < buf.len(),
    ensures
        paint_blocks(buf, offs, c).len() == buf.len(),
        forall|p: int|
            0 <= p < buf.len() ==> #[trigger] paint_blocks(buf, offs, c)[p] == if offs.contains(
                p - p % 4,
            ) {
                pixel_byte(c, p % 4)
            } else {
                buf[p]
            },
    decreases offs.len(),
{
    if offs.len() > 0 {
        let rest = offs.drop_last();
        let o = offs.last();
        assert(offs[offs.len() - 1] == o);
        lemma_paint_blocks_bytes(buf, rest, c);
        let before = paint_blocks(buf, rest, c);
        assert forall|p: int| 0 <= p < buf.len() implies #[trigger] paint_blocks(buf, offs, c)[p]
            == if offs.contains(p - p % 4) {
            pixel_byte(c, p % 4)
        } else {
            buf[p]
        } by {
            if p - p % 4 == o {
                assert(offs.contains(p - p % 4));
            } else {
                assert(!(o <= p < o + 4));
                assert(before[p] == paint_blocks(buf, offs, c)[p]);
                if rest.contains(p - p % 4) {
                    let i = choose|i: int| 0 <= i < rest.len() && rest[i] == p - p % 4;
                    assert(offs[i] == p - p % 4);
                }
                if offs.contains(p - p % 4) {
                    let i = choose|i: int| 0 <= i < offs.len() && offs[i] == p - p % 4;
                    assert(i != offs.len() - 1);
                    assert(rest[i] == p - p % 4);
                }
            }
        }
    }
}

proof fn lemma_row_offsets_members(
    mask: Seq<u8>,
    width: int,
    y: int,
    slant: int,
    pitch: int,
    n: int,
)
    requires
        0 <= n <= width,
    ensures
        forall|q: int|
            #[trigger] row_offsets(mask, width, y, slant, pitch, n).contains(q) <==> exists|
                x: int,
                i: int,
                j: int,
            |
                0 <= x < n && 0 <= i < 2 && 0 <= j < 2 && mask[y * width + x] == 1 && q
                    == #[trigger] block_offset(y * 4 + i, x * 4 + j, slant, pitch),
    decreases n,
{
    if n > 0 {
        lemma_row_offsets_members(mask, width, y, slant, pitch, n - 1);
        let before = row_offsets(mask, width, y, slant, pitch, n - 1);
        let cell = if mask[y * width + n - 1] == 1 {
            cell_offsets(y, n - 1, slant, pitch)
        } else {
            Seq::empty()
        };
        let all = row_offsets(mask, width, y, slant, pitch, n);
        assert(all == before + cell);
        assert forall|q: int|
            #[trigger] all.contains(q) <==> exists|x: int, i: int, j: int|
                0 <= x < n && 0 <= i < 2 && 0 <= j < 2 && mask[y * width + x] == 1 && q
                    == #[trigger] block_offset(y * 4 + i, x * 4 + j, slant, pitch) by {
            if all.contains(q) {
                let k = choose|k: int| 0 <= k < all.len() && all[k] == q;
                if k < before.len() {
                    assert(before[k] == q);
                    assert(before.contains(q));
                } else {
                    let t = k - before.len();
                    assert(cell[t] == q);
                    let i = t / 2;
                    let j = t % 2;
                    assert(q == block_offset(y * 4 + i, (n - 1) * 4 + j, slant, pitch));
                }
            }
            if exists|x: int, i: int, j: int|
                0 <= x < n && 0 <= i < 2 && 0 <= j < 2 && mask[y * width + x] == 1 && q
                    == #[trigger] block_offset(y * 4 + i, x * 4 + j, slant, pitch) {
                let (x, i, j) = choose|x: int, i: int, j: int|
                    0 <= x < n && 0 <= i < 2 && 0 <= j < 2 && mask[y * width + x] == 1 && q
                        == #[trigger] block_offset(y * 4 + i, x * 4 + j, slant, pitch);
                if x < n - 1 {
                    assert(before.contains(q));
                    let k = choose|k: int| 0 <= k < before.len() && before[k] == q;
                    assert(all[k] == q);
                } else {
                    let t = 2 * i + j;
                    assert(cell[t] == q);
                    assert(all[before.len() + t] == q);
                }
            }
        }
    }
}

proof fn lemma_rows_offsets_members(mask: Seq<u8>, width: int, height: int, pitch: int, k: int)
    requires
        0 <= k,
        0 <= width,
    ensures
        forall|q: int|
            #[trigger] rows_offsets(mask, width, height, pitch, k).contains(q) <==> exists|
                y: int,
                x: int,
                i: int,
                j: int,
            |
                height - 1 - k <= y < height - 1 && 0 <= x < width && 0 <= i < 2 && 0 <= j < 2
                    && mask[y * width + x] == 1 && q == #[trigger] title_block(
                    height,
                    pitch,
                    y,
                    x,
                    i,
                    j,
                ),
    decreases k,
{
    if k > 0 {
        lemma_rows_offsets_members(mask, width, height, pitch, k - 1);
        let y0 = height - 1 - k;
        let slant = 2 * (k - 1);
        lemma_row_offsets_members(mask, width, y0, slant, pitch, width);
        let before = rows_offsets(mask, width, height, pitch, k - 1);
        let row = row_offsets(mask, width, y0, slant, pitch, width);
        let all = rows_offsets(mask, width, height, pitch, k);
        assert(all == before + row);
        assert forall|q: int|
            #[trigger] all.contains(q) <==> exists|y: int, x: int, i: int, j: int|
                height - 1 - k <= y < height - 1 && 0 <= x < width && 0 <= i < 2 && 0 <= j < 2
                    && mask[y * width + x] == 1 && q == #[trigger] title_block(
                    height,
                    pitch,
                    y,
                    x,
                    i,
                    j,
                ) by {
            if all.contains(q) {
                let t = choose|t: int| 0 <= t < all.len() && all[t] == q;
                if t < before.len() {
                    assert(before[t] == q);
                    assert(before.contains(q));
                } else {
                    assert(row[t - before.len()] == q);
                    assert(row.contains(q));
                    let (x, i, j) = choose|x: int, i: int, j: int|
                        0 <= x < width && 0 <= i < 2 && 0 <= j < 2 && mask[y0 * width + x] == 1
                            && q == #[trigger] block_offset(y0 * 4 + i, x * 4 + j, slant, pitch);
                    assert(q == title_block(height, pitch, y0, x, i, j));
                }
            }
            if exists|y: int, x: int, i: int, j: int|
                height - 1 - k <= y < height - 1 && 0 <= x < width && 0 <= i < 2 && 0 <= j < 2
                    && mask[y * width + x] == 1 && q == #[trigger] title_block(
                    height,
                    pitch,
                    y,
                    x,
                    i,
                    j,
                ) {
                let (y, x, i, j) = choose|y: int, x: int, i: int, j: int|
                    height - 1 - k <= y < height - 1 && 0 <= x < width && 0 <= i < 2 && 0 <= j
                        < 2 && mask[y * width + x] == 1 && q == #[trigger] title_block(
                        height,
                        pitch,
                        y,
                        x,
                        i,
                        j,
                    );
                if y == y0 {
                    assert(q == block_offset(y0 * 4 + i, x * 4 + j, slant, pitch));
                    assert(row.contains(q));
                    let t = choose|t: int| 0 <= t < row.len() && row[t] == q;
                    assert(all[before.len() + t] == q);
                } else {
                    assert(before.contains(q));
                    let t = choose|t: int| 0 <= t < before.len() && before[t] == q;
                    assert(all[t] == q);
                }
            }
        }
    }
}

/// Law: when the texture's rows are a whole number of pixels long
/// (`pitch` a multiple of 4), painting a title leaves every pixel of every
/// lit mask cell holding alpha 255 and the colour, and leaves every other
/// byte of the texture as it was.
pub proof fn lemma_title_painted(
    buf: Seq<u8>,
    mask: Seq<u8>,
    width: int,
    height: int,
    pitch: int,
    c: Colour,
)
    requires
        0 <= width,
        0 <= height,
        0 <= pitch,
        pitch % 4 == 0,
        title_paint_fits(mask, width, height, pitch, buf.len() as int),
    ensures
        paint_rows(buf, mask, width, height, pitch, c, height - 1).len() == buf.len(),
        forall|y: int, x: int, i: int, j: int, t: int|
            lit_block(mask, width, height, y, x, i, j) && 0 <= t < 4 ==> #[trigger] paint_rows(
                buf,
                mask,
                width,
                height,
                pitch,
                c,
                height - 1,
            )[title_block(height, pitch, y, x, i, j) + t] == pixel_byte(c, t),
        forall|p: int|
            0 <= p < buf.len() && !title_covers(mask, width, height, pitch, p) ==> #[trigger] paint_rows(
                buf,
                mask,
                width,
                height,
                pitch,
                c,
                height - 1,
            )[p] == buf[p],
{
    let k = if height >= 1 {
        height - 1
    } else {
        0
    };
    assert(paint_rows(buf, mask, width, height, pitch, c, height - 1) == paint_rows(
        buf,
        mask,
        width,
        height,
        pitch,
        c,
        k,
    ));
    let offs = rows_offsets(mask, width, height, pitch, k);
    lemma_paint_rows_blocks(buf, mask, width, height, pitch, c, k);
    lemma_rows_offsets_members(mask, width, height, pitch, k);
    assert forall|t: int| 0 <= t < offs.len() implies #[trigger] offs[t] % 4 == 0 && 0 <= offs[t]
        && offs[t] + 3 < buf.len() by {
        assert(offs.contains(offs[t]));
        let (y, x, i, j) = choose|y: int, x: int, i: int, j: int|
            height - 1 - k <= y < height - 1 && 0 <= x < width && 0 <= i < 2 && 0 <= j < 2
                && mask[y * width + x] == 1 && offs[t] == #[trigger] title_block(
                height,
                pitch,
                y,
                x,
                i,
                j,
            );
        assert(title_cell_fits(y, x, height, pitch, buf.len() as int));
        lemma_block_offsets(y, x, i, j, 2 * (height - 2 - y), pitch);
        let m = pitch / 4;
        assert((y * 4 + i) * pitch == ((y * 4 + i) * m) * 4) by (nonlinear_arith)
            requires
                pitch == m * 4,
        ;
        vstd::arithmetic::div_mod::lemma_mod_multiples_basic((y * 4 + i) * m, 4);
    }
    lemma_paint_blocks_bytes(buf, offs, c);
    let result = paint_blocks(buf, offs, c);
    assert forall|y: int, x: int, i: int, j: int, t: int|
        lit_block(mask, width, height, y, x, i, j) && 0 <= t < 4 implies #[trigger] paint_rows(
        buf,
        mask,
        width,
        height,
        pitch,
        c,
        height - 1,
    )[title_block(height, pitch, y, x, i, j) + t] == pixel_byte(c, t) by {
        let o = title_block(height, pitch, y, x, i, j);
        assert(offs.contains(o));
        let at = choose|at: int| 0 <= at < offs.len() && offs[at] == o;
        assert(offs[at] % 4 == 0 && 0 <= offs[at] && offs[at] + 3 < buf.len());
        assert((o + t) - (o + t) % 4 == o);
        assert(result[o + t] == pixel_byte(c, (o + t) % 4));
    }
    assert forall|p: int|
        0 <= p < buf.len() && !title_covers(mask, width, height, pitch, p) implies #[trigger] paint_rows(
        buf,
        mask,
        width,
        height,
        pitch,
        c,
        height - 1,
    )[p] == buf[p] by {
        if offs.contains(p - p % 4) {
            let (y, x, i, j) = choose|y: int, x: int, i: int, j: int|
                height - 1 - k <= y < height - 1 && 0 <= x < width && 0 <= i < 2 && 0 <= j < 2
                    && mask[y * width + x] == 1 && p - p % 4 == #[trigger] title_block(
                    height,
                    pitch,
                    y,
                    x,
                    i,
                    j,
                );
            assert(lit_block(mask, width, height, y, x, i, j));
        }
    }
}

/// Law: the title shows the text. When the mask is the one `title_mask`
/// reads from a rendered text, every opaque pixel of the text (below the
/// skipped top rows, and above its last row) comes out as a painted 2 by 2
/// square of the title.
pub proof fn lemma_text_becomes_title(
    pixels: Seq<u8>,
    text_pitch: int,
    buf: Seq<u8>,
    mask: Seq<u8>,
    width: int,
    height: int,
    pitch: int,
    c: Colour,
)
    requires
        0 <= width,
        0 <= height,
        0 <= pitch,
        pitch % 4 == 0,
        title_paint_fits(mask, width, height, pitch, buf.len() as int),
        forall|r: int, x: int|
            0 <= r < height && 0 <= x < width ==> #[trigger] mask[r * width + x] == mask_bit(
                pixels,
                height,
                text_pitch,
                r,
                x,
            ),
    ensures
        forall|r: int, x: int, i: int, j: int, t: int|
            0 <= r < height - 1 && 0 <= x < width && 0 <= i < 2 && 0 <= j < 2 && 0 <= t < 4 && r
                + TITLE_OFF_TOP < height && pixels[alpha_index(r + TITLE_OFF_TOP, x, text_pitch)]
                > 0 ==> #[trigger] paint_rows(buf, mask, width, height, pitch, c, height - 1)[title_block(
                height,
                pitch,
                r,
                x,
                i,
                j,
            ) + t] == pixel_byte(c, t),
{
    lemma_title_painted(buf, mask, width, height, pitch, c);
    assert forall|r: int, x: int, i: int, j: int, t: int|
        0 <= r < height - 1 && 0 <= x < width && 0 <= i < 2 && 0 <= j < 2 && 0 <= t < 4 && r
            + TITLE_OFF_TOP < height && pixels[alpha_index(r + TITLE_OFF_TOP, x, text_pitch)]
            > 0 implies #[trigger] paint_rows(buf, mask, width, height, pitch, c, height - 1)[title_block(
        height,
        pitch,
        r,
        x,
        i,
        j,
    ) + t] == pixel_byte(c, t) by {
        assert(mask[r * width + x] == mask_bit(pixels, height, text_pitch, r, x));
        assert(lit_block(mask, width, height, r, x, i, j));
    }
}

} // verus!

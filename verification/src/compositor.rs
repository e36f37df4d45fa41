//! The compositor: turns one frame description into the exact byte stream a
//! row-addressed, bit-packed monochrome panel expects.
//!
//! For every output row it emits two control bytes — a fixed command byte
//! and the row index with its bits reversed end to end — followed by the
//! row's pixel data: for each eight-pixel window, the OR-combination of
//! every overlapping draw object's bits, aligned at bit level for objects
//! placed off byte boundaries, and finally inverted, because the panel
//! treats a zero bit as "pixel on".

use vstd::prelude::*;

use crate::display::{Object, OAM, WIDTH, HEIGHT};
use crate::sprites::{Sprite, spec_sprite_fetch, sprite_data, sprite_fetch};

verus! {

/// Pixel-data bytes per output row.
pub const ROW_BYTES: usize = WIDTH / 8;

/// Bytes sent per output row: two control bytes, then the pixel data.
pub const ROW_STRIDE: usize = ROW_BYTES + 2;

/// The command byte that precedes every row.
pub const ROW_COMMAND: u8 = 0x80;

/// A byte with its bits mirrored end to end: bit 7 swaps with bit 0, bit 6
/// with bit 1, and so on.
pub open spec fn spec_reverse(b: u8) -> u8 {
    let b1 = (b & 0xF0) >> 4 | (b & 0x0F) << 4;
    let b2 = (b1 & 0xCC) >> 2 | (b1 & 0x33) << 2;
    (b2 & 0xAA) >> 1 | (b2 & 0x55) << 1
}

/// Reverse the bits in a byte.
///
/// The panel addresses its rows with the row index's bits in reverse order,
/// so every row's address byte goes through this permutation.
pub fn reverse(byte: u8) -> (r: u8)
    ensures
        r == spec_reverse(byte),
{
    let mut byte = byte;
    byte = (byte & 0xF0) >> 4 | (byte & 0x0F) << 4;
    byte = (byte & 0xCC) >> 2 | (byte & 0x33) << 2;
    byte = (byte & 0xAA) >> 1 | (byte & 0x55) << 1;
    byte
}

/// Bit reversal is self-inverse: applying it twice gives the byte back.
pub proof fn lemma_reverse_involutive(b: u8)
    ensures
        spec_reverse(spec_reverse(b)) == b,
{
    assert(spec_reverse(spec_reverse(b)) == b) by (bit_vector);
}

/// Bit `i` of the reversed byte is bit `7 - i` of the input: the
/// permutation really is the end-to-end mirror.
pub proof fn lemma_reverse_mirrors_bits(b: u8, i: u8)
    requires
        i < 8,
    ensures
        spec_reverse(b) >> i & 1 == b >> (7 - i) & 1,
{
    assert(i < 8 ==> (spec_reverse(b) >> i & 1 == b >> ((7 - i) as u8) & 1)) by (bit_vector);
}

/// The byte index into an object's asset for pixel offset `dx`, `dy` from
/// the object's top-left corner.
pub open spec fn asset_index(o: Object, dx: int, dy: int) -> int {
    dx / 8 + dy * (o.width as int / 8)
}

/// What one draw object contributes, before inversion, to the output byte
/// covering pixel columns `[bc * 8, bc * 8 + 8)` of row `row`.
///
/// The window's offset into the object is `dx`, `dy`, in signed arithmetic:
/// an object to the window's right gives a negative `dx`. A source byte at
/// `dx` is shifted left by `dx mod 8` to meet the window; when the window
/// also spans the following source byte — or, for negative `dx`, the first
/// one — that byte is shifted right by `7 - dx mod 8` and OR-ed in as well.
/// Reads past the asset's end act as blank.
pub open spec fn spec_object_byte(o: Object, row: int, bc: int) -> u8 {
    let dx = 8 * bc - o.x;
    let dy = row - o.y;
    if 0 <= dy < o.height as int {
        let left = if 0 <= dx < o.width as int {
            spec_sprite_fetch(o.sprite, asset_index(o, dx, dy)) << (dx % 8)
        } else {
            0u8
        };
        let right = if 0 <= dx + 7 < o.width as int {
            if dx < 0 {
                spec_sprite_fetch(o.sprite, asset_index(o, dx + 7, dy)) >> (7 - (dx + 7) % 8)
            } else {
                spec_sprite_fetch(o.sprite, asset_index(o, dx, dy) + 1) >> (7 - dx % 8)
            }
        } else {
            0u8
        };
        left | right
    } else {
        0u8
    }
}

/// The OR-combination of the first `n` objects' contributions to one output
/// byte.
pub open spec fn composite(objs: Seq<Object>, n: int, row: int, bc: int) -> u8
    decreases n,
{
    if n <= 0 {
        0u8
    } else {
        composite(objs, n - 1, row, bc) | spec_object_byte(objs[n - 1], row, bc)
    }
}

/// The OR-combination of every object's contribution to one output byte.
pub open spec fn composite_all(objs: Seq<Object>, row: int, bc: int) -> u8 {
    composite(objs, objs.len() as int, row, bc)
}

/// Byte `i` of the full frame transmission: each row contributes its
/// command byte, its bit-reversed row address, and its eighteen data bytes,
/// the data inverted bit for bit because the panel draws a zero bit as on.
pub open spec fn frame_byte(objs: Seq<Object>, i: int) -> u8 {
    let row = i / 20;
    let k = i % 20;
    if k == 0 {
        ROW_COMMAND
    } else if k == 1 {
        spec_reverse(row as u8)
    } else {
        !composite_all(objs, row, k - 2)
    }
}

/// The byte stream of one whole frame: twenty bytes for each of the 168
/// rows, in row order.
pub open spec fn frame_stream(objs: Seq<Object>) -> Seq<u8> {
    Seq::new((168 * 20) as nat, |i: int| frame_byte(objs, i))
}

/// Each data byte of the frame stream is the inverted OR-combination of
/// every object's contribution to its eight-pixel window.
pub proof fn lemma_frame_data_byte(objs: Seq<Object>, row: int, bc: int)
    requires
        0 <= row < 168,
        0 <= bc < 18,
    ensures
        frame_stream(objs)[row * 20 + 2 + bc] == !composite_all(objs, row, bc),
{
    let i = row * 20 + 2 + bc;
    assert(i / 20 == row && i % 20 == bc + 2) by (nonlinear_arith)
        requires
            0 <= row,
            0 <= bc < 18,
            i == row * 20 + 2 + bc,
    ;
}

/// Each row of the frame stream opens with the command byte and the row's
/// bit-reversed address.
pub proof fn lemma_frame_control_bytes(objs: Seq<Object>, row: int)
    requires
        0 <= row < 168,
    ensures
        frame_stream(objs)[row * 20] == ROW_COMMAND,
        frame_stream(objs)[row * 20 + 1] == spec_reverse(row as u8),
{
    assert((row * 20) / 20 == row && (row * 20) % 20 == 0 && (row * 20 + 1) / 20 == row && (row
        * 20 + 1) % 20 == 1) by (nonlinear_arith)
        requires
            0 <= row,
    ;
}

/// Overlapping draw objects compose by OR: with two objects in the frame,
/// the composed byte is the OR of what each contributes on its own — never
/// a "first wins" choice.
pub proof fn lemma_two_objects_compose_by_or(o1: Object, o2: Object, row: int, bc: int)
    ensures
        composite_all(seq![o1, o2], row, bc) == spec_object_byte(o1, row, bc) | spec_object_byte(
            o2,
            row,
            bc,
        ),
{
    let objs = seq![o1, o2];
    let c1 = spec_object_byte(o1, row, bc);
    let c2 = spec_object_byte(o2, row, bc);
    assert(composite(objs, 0, row, bc) == 0u8);
    assert(composite(objs, 1, row, bc) == 0u8 | c1);
    assert(composite(objs, 2, row, bc) == (0u8 | c1) | c2);
    assert((0u8 | c1) | c2 == c1 | c2) by (bit_vector);
}

/// A single fully on-screen, byte-aligned object of the solid block asset
/// reproduces the asset's bytes exactly: inside its footprint each data
/// byte of the frame is the asset's byte inverted, and every data byte
/// outside it is fully blank — 0xFF, all bits inverted from zero.
pub proof fn lemma_single_aligned_block(o: Object, row: int, bc: int)
    requires
        o.sprite == Sprite::Block,
        o.width == 24,
        o.height == 24,
        o.x % 8 == 0,
        o.x + 24 <= 144,
        o.y + 24 <= 168,
        0 <= row < 168,
        0 <= bc < 18,
    ensures
        o.y <= row < o.y + 24 && o.x <= 8 * bc < o.x + 24 ==> frame_stream(seq![o])[row * 20 + 2
            + bc] == !sprite_data(Sprite::Block)[asset_index(o, 8 * bc - o.x, row - o.y)],
        !(o.y <= row < o.y + 24 && o.x <= 8 * bc < o.x + 24) ==> frame_stream(seq![o])[row * 20
            + 2 + bc] == 0xFFu8,
{
    lemma_frame_data_byte(seq![o], row, bc);
    let c = spec_object_byte(o, row, bc);
    assert(composite(seq![o], 0, row, bc) == 0u8);
    assert(composite_all(seq![o], row, bc) == 0u8 | c);
    let dx = 8 * bc - o.x;
    let dy = row - o.y;
    if o.y <= row < o.y + 24 && o.x <= 8 * bc < o.x + 24 {
        let q = o.x as int / 8;
        assert(o.x == 8 * q);
        assert(dx == 8 * (bc - q));
        assert(dx % 8 == 0 && dx / 8 == bc - q) by (nonlinear_arith)
            requires
                dx == 8 * (bc - q),
        ;
        let idx = asset_index(o, dx, dy);
        assert(idx == dx / 8 + dy * 3);
        assert(0 <= idx < 72);
        assert(spec_sprite_fetch(o.sprite, idx) == 0xFFu8);
        assert(c == (0xFFu8 << 0) | (
        if 0 <= dx + 7 < 24 {
            if idx + 1 < 72 {
                0xFFu8 >> 7
            } else {
                0u8 >> 7
            }
        } else {
            0u8
        }));
        assert((0xFFu8 << 0) | (0xFFu8 >> 7) == 0xFFu8) by (bit_vector);
        assert((0xFFu8 << 0) | (0u8 >> 7) == 0xFFu8) by (bit_vector);
        assert((0xFFu8 << 0) | 0u8 == 0xFFu8) by (bit_vector);
        assert(c == 0xFFu8);
        assert(0u8 | 0xFFu8 == 0xFFu8) by (bit_vector);
        assert(!composite_all(seq![o], row, bc) == !0xFFu8);
        assert(sprite_data(Sprite::Block)[idx] == 0xFFu8);
    } else {
        if 0 <= dy < 24 {
            let q = o.x as int / 8;
            assert(o.x == 8 * q);
            assert(dx == 8 * (bc - q));
            assert(dx % 8 == 0) by (nonlinear_arith)
                requires
                    dx == 8 * (bc - q),
            ;
            assert(dx < 0 || dx >= 24);
            if dx < 0 {
                assert(dx <= -8) by (nonlinear_arith)
                    requires
                        dx == 8 * (bc - q),
                        dx < 0,
                ;
                assert(!(0 <= dx + 7 < 24));
            }
            assert(c == 0u8 | 0u8);
        }
        assert(0u8 | 0u8 == 0u8) by (bit_vector);
        assert(c == 0u8);
        assert(0u8 | 0u8 == 0u8) by (bit_vector);
        assert(composite_all(seq![o], row, bc) == 0u8);
        assert(!0u8 == 0xFFu8) by (bit_vector);
    }
}

/// One draw object's contribution, before inversion, to the output byte at
/// row `row`, byte column `bc`.
fn object_byte(o: &Object, row: usize, bc: usize) -> (b: u8)
    requires
        row < HEIGHT,
        bc < ROW_BYTES,
    ensures
        b == spec_object_byte(*o, row as int, bc as int),
{
    let dx: i32 = (bc as i32) * 8 - (o.x as i32);
    let dy: i32 = (row as i32) - (o.y as i32);
    if !(dy >= 0 && dy < o.height as i32) {
        return 0;
    }
    let dyu = dy as usize;
    let wbytes = (o.width / 8) as usize;
    proof {
        assert(dyu * wbytes < 0x2000_0000) by (nonlinear_arith)
            requires
                dyu < 0x1_0000,
                wbytes < 0x2000,
        ;
    }
    let mut byte: u8 = 0;
    if dx >= 0 && dx < o.width as i32 {
        let dxu = dx as usize;
        let left = sprite_fetch(o.sprite, dxu / 8 + dyu * wbytes);
        let shift = (dxu % 8) as u32;
        byte = byte | (left << shift);
    }
    if dx + 7 >= 0 && dx + 7 < o.width as i32 {
        if dx < 0 {
            let dxu = (dx + 7) as usize;
            let right = sprite_fetch(o.sprite, dxu / 8 + dyu * wbytes);
            let shift = (7 - dxu % 8) as u32;
            byte = byte | (right >> shift);
        } else {
            let dxu = dx as usize;
            let right = sprite_fetch(o.sprite, dxu / 8 + dyu * wbytes + 1);
            let shift = (7 - dxu % 8) as u32;
            byte = byte | (right >> shift);
        }
    }
    proof {
        assert(forall|a: u8, b: u8| (0u8 | a) | b == #[trigger] (a | b)) by (bit_vector);
        assert(forall|a: u8| #[trigger] (0u8 | a) == a) by (bit_vector);
        assert(forall|a: u8| #[trigger] (a | 0u8) == a) by (bit_vector);
    }
    byte
}

/// The OR-combination of every object's contribution to the output byte at
/// row `row`, byte column `bc`, before inversion.
pub fn composite_byte(oam: &OAM, row: usize, bc: usize) -> (b: u8)
    requires
        row < HEIGHT,
        bc < ROW_BYTES,
    ensures
        b == composite_all(oam.objects@, row as int, bc as int),
{
    let mut byte: u8 = 0;
    let n = oam.objects.len();
    let mut j: usize = 0;
    while j < n
        invariant
            j <= n,
            n == oam.objects@.len(),
            row < HEIGHT,
            bc < ROW_BYTES,
            byte == composite(oam.objects@, j as int, row as int, bc as int),
        decreases n - j,
    {
        let o = oam.objects[j];
        byte = byte | object_byte(&o, row, bc);
        j = j + 1;
    }
    byte
}

/// Compose the whole frame: for every row, the command byte, the
/// bit-reversed row address, and the row's eighteen data bytes, each the
/// inverted OR-combination of every overlapping object's bits.
///
/// The driver shifts these bytes out over the bus unchanged, holding
/// chip-select for the whole transfer.
pub fn render_frame(oam: &OAM) -> (out: Vec<u8>)
    ensures
        out@ == frame_stream(oam.objects@),
{
    let mut out: Vec<u8> = Vec::new();
    let mut row: usize = 0;
    while row < HEIGHT
        invariant
            row <= HEIGHT,
            out@.len() == row * 20,
            forall|i: int| 0 <= i < row * 20 ==> out@[i] == frame_byte(oam.objects@, i),
        decreases HEIGHT - row,
    {
        out.push(ROW_COMMAND);
        out.push(reverse(row as u8));
        proof {
            assert((row * 20) % 20 == 0 && (row * 20) / 20 == row as int && (row * 20 + 1) % 20
                == 1 && (row * 20 + 1) / 20 == row as int) by (nonlinear_arith)
                requires
                    0 <= row,
            ;
        }
        let mut bc: usize = 0;
        while bc < ROW_BYTES
            invariant
                row < HEIGHT,
                bc <= ROW_BYTES,
                out@.len() == row * 20 + 2 + bc,
                forall|i: int| 0 <= i < row * 20 + 2 + bc ==> out@[i] == frame_byte(oam.objects@, i),
            decreases ROW_BYTES - bc,
        {
            let b = composite_byte(oam, row, bc);
            out.push(!b);
            proof {
                let i = row * 20 + 2 + bc;
                assert(i % 20 == 2 + bc && i / 20 == row as int) by (nonlinear_arith)
                    requires
                        0 <= row,
                        0 <= bc < 18,
                        i == row * 20 + 2 + bc,
                ;
            }
            bc = bc + 1;
        }
        row = row + 1;
    }
    proof {
        assert(out@ =~= frame_stream(oam.objects@));
    }
    out
}

} // verus!

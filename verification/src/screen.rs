//! Facts about the display as a grid of pixels packed eight to a byte.
use vstd::prelude::*;
use crate::bits::{byte_bit, lemma_bits_determine_byte, lemma_xor_bit};
use crate::machine::{CpuState, pixel, flips, covers, bits_byte, flip_mask, drawn_display, collides};

verus! {

/// Distinct on-screen pixels differ in their byte or in their bit.
pub proof fn lemma_pixel_position(px: int, py: int, qx: int, qy: int)
    requires
        0 <= px < 64,
        0 <= py < 32,
        0 <= qx < 64,
        0 <= qy < 32,
    ensures
        0 <= py * 8 + px / 8 < 256,
        (qy * 8 + qx / 8 == py * 8 + px / 8 && qx % 8 == px % 8) ==> (qx == px && qy == py),
{
}

/// Writing one bit of one display byte changes only the pixel stored there.
pub proof fn lemma_write_pixel(d: Seq<u8>, d2: Seq<u8>, px: int, py: int)
    requires
        d.len() == 256,
        d2.len() == 256,
        0 <= px < 64,
        0 <= py < 32,
        forall|c: int| 0 <= c < 256 && c != py * 8 + px / 8 ==> d2[c] == d[c],
        forall|j: u8|
            j < 8 && j != (7 - px % 8) as u8 ==> #[trigger] byte_bit(d2[py * 8 + px / 8], j) == byte_bit(
                d[py * 8 + px / 8],
                j,
            ),
    ensures
        forall|qx: int, qy: int|
            0 <= qx < 64 && 0 <= qy < 32 && !(qx == px && qy == py) ==> #[trigger] pixel(d2, qx, qy)
                == pixel(d, qx, qy),
{
    assert forall|qx: int, qy: int|
        0 <= qx < 64 && 0 <= qy < 32 && !(qx == px && qy == py) implies #[trigger] pixel(d2, qx, qy)
        == pixel(d, qx, qy) by {
        lemma_pixel_position(px, py, qx, qy);
        lemma_pixel_position(qx, qy, px, py);
        if qy * 8 + qx / 8 == py * 8 + px / 8 {
            assert(qx % 8 != px % 8);
            assert((7 - qx % 8) as u8 != (7 - px % 8) as u8);
        }
    }
}

/// The bits of `bits_byte`, from the most significant down, are its arguments.
pub proof fn lemma_bits_byte(
    f0: bool,
    f1: bool,
    f2: bool,
    f3: bool,
    f4: bool,
    f5: bool,
    f6: bool,
    f7: bool,
)
    ensures
        byte_bit(bits_byte(f0, f1, f2, f3, f4, f5, f6, f7), 7) == f0,
        byte_bit(bits_byte(f0, f1, f2, f3, f4, f5, f6, f7), 6) == f1,
        byte_bit(bits_byte(f0, f1, f2, f3, f4, f5, f6, f7), 5) == f2,
        byte_bit(bits_byte(f0, f1, f2, f3, f4, f5, f6, f7), 4) == f3,
        byte_bit(bits_byte(f0, f1, f2, f3, f4, f5, f6, f7), 3) == f4,
        byte_bit(bits_byte(f0, f1, f2, f3, f4, f5, f6, f7), 2) == f5,
        byte_bit(bits_byte(f0, f1, f2, f3, f4, f5, f6, f7), 1) == f6,
        byte_bit(bits_byte(f0, f1, f2, f3, f4, f5, f6, f7), 0) == f7,
{
    assert(byte_bit(bits_byte(f0, f1, f2, f3, f4, f5, f6, f7), 7) == f0) by (bit_vector);
    assert(byte_bit(bits_byte(f0, f1, f2, f3, f4, f5, f6, f7), 6) == f1) by (bit_vector);
    assert(byte_bit(bits_byte(f0, f1, f2, f3, f4, f5, f6, f7), 5) == f2) by (bit_vector);
    assert(byte_bit(bits_byte(f0, f1, f2, f3, f4, f5, f6, f7), 4) == f3) by (bit_vector);
    assert(byte_bit(bits_byte(f0, f1, f2, f3, f4, f5, f6, f7), 3) == f4) by (bit_vector);
    assert(byte_bit(bits_byte(f0, f1, f2, f3, f4, f5, f6, f7), 2) == f5) by (bit_vector);
    assert(byte_bit(bits_byte(f0, f1, f2, f3, f4, f5, f6, f7), 1) == f6) by (bit_vector);
    assert(byte_bit(bits_byte(f0, f1, f2, f3, f4, f5, f6, f7), 0) == f7) by (bit_vector);
}

/// A pixel of the mask of its byte says whether the sprite flips it.
pub proof fn lemma_flip_mask_pixel(s: CpuState, sx: int, sy: int, n: u8, px: int, py: int)
    requires
        0 <= px < 64,
        0 <= py < 32,
    ensures
        byte_bit(flip_mask(s, sx, sy, n, py * 8 + px / 8), (7 - px % 8) as u8) == flips(
            s,
            sx,
            sy,
            n,
            px,
            py,
        ),
{
    let b = py * 8 + px / 8;
    assert(b / 8 == py);
    assert(b % 8 == px / 8);
    let x0 = (b % 8) * 8;
    assert(px == x0 + px % 8);
    lemma_bits_byte(
        flips(s, sx, sy, n, x0, py),
        flips(s, sx, sy, n, x0 + 1, py),
        flips(s, sx, sy, n, x0 + 2, py),
        flips(s, sx, sy, n, x0 + 3, py),
        flips(s, sx, sy, n, x0 + 4, py),
        flips(s, sx, sy, n, x0 + 5, py),
        flips(s, sx, sy, n, x0 + 6, py),
        flips(s, sx, sy, n, x0 + 7, py),
    );
}

/// Each on-screen pixel of a drawn display is the old pixel, flipped where
/// the sprite flips it.
pub proof fn lemma_drawn_pixel(s: CpuState, sx: int, sy: int, n: u8, px: int, py: int)
    requires
        s.display.len() == 256,
        0 <= px < 64,
        0 <= py < 32,
    ensures
        pixel(drawn_display(s, sx, sy, n), px, py) == (pixel(s.display, px, py) != flips(
            s,
            sx,
            sy,
            n,
            px,
            py,
        )),
{
    let b = py * 8 + px / 8;
    lemma_pixel_position(px, py, px, py);
    lemma_flip_mask_pixel(s, sx, sy, n, px, py);
    lemma_xor_bit(s.display[b], flip_mask(s, sx, sy, n, b), (7 - px % 8) as u8);
}

/// Two displays with the same pixels are the same display.
pub proof fn lemma_pixels_determine_display(d1: Seq<u8>, d2: Seq<u8>)
    requires
        d1.len() == 256,
        d2.len() == 256,
        forall|px: int, py: int|
            0 <= px < 64 && 0 <= py < 32 ==> #[trigger] pixel(d1, px, py) == pixel(d2, px, py),
    ensures
        d1 == d2,
{
    assert forall|b: int| 0 <= b < 256 implies d1[b] == d2[b] by {
        let py = b / 8;
        assert forall|j: u8| j < 8 implies byte_bit(d1[b], j) == byte_bit(d2[b], j) by {
            let px = (b % 8) * 8 + (7 - j);
            assert(py * 8 + px / 8 == b);
            assert((7 - px % 8) as u8 == j);
            assert(pixel(d1, px, py) == pixel(d2, px, py));
        }
        lemma_bits_determine_byte(d1[b], d2[b]);
    }
    assert(d1 =~= d2);
}

/// Whether pixel (`px`, `py`) comes before position (`row`, `col`) of a
/// sprite drawn at (`sx`, `sy`), in the row-by-row order of drawing.
pub open spec fn drawn_before(sx: int, sy: int, row: int, col: int, px: int, py: int) -> bool {
    py - sy < row || (py - sy == row && px - sx < col)
}

/// `d` is the display of `s` with the sprite drawn up to position (`row`, `col`).
pub open spec fn partly_drawn(d: Seq<u8>, s: CpuState, sx: int, sy: int, n: u8, row: int, col: int) -> bool {
    forall|px: int, py: int|
        0 <= px < 64 && 0 <= py < 32 ==> #[trigger] pixel(d, px, py) == (pixel(s.display, px, py) != (
        flips(s, sx, sy, n, px, py) && drawn_before(sx, sy, row, col, px, py)))
}

/// Whether the sprite, drawn up to position (`row`, `col`), has turned off a pixel.
pub open spec fn collides_before(s: CpuState, sx: int, sy: int, n: u8, row: int, col: int) -> bool {
    exists|px: int, py: int|
        #[trigger] flips(s, sx, sy, n, px, py) && drawn_before(sx, sy, row, col, px, py) && pixel(
            s.display,
            px,
            py,
        )
}

/// Drawing the pixel at position (`row`, `col`) of the sprite advances the drawing by one pixel.
pub proof fn lemma_draw_pixel_step(
    d: Seq<u8>,
    d2: Seq<u8>,
    s: CpuState,
    sx: int,
    sy: int,
    n: u8,
    row: int,
    col: int,
)
    requires
        partly_drawn(d, s, sx, sy, n, row, col),
        d.len() == 256,
        d2.len() == 256,
        0 <= sx < 64,
        0 <= sy < 32,
        0 <= row < n,
        sy + row < 32,
        0 <= col < 8,
        sx + col < 64,
        forall|c: int|
            0 <= c < 256 && c != (sy + row) * 8 + (sx + col) / 8 ==> d2[c] == d[c],
        forall|j: u8|
            j < 8 && j != (7 - (sx + col) % 8) as u8 ==> #[trigger] byte_bit(
                d2[(sy + row) * 8 + (sx + col) / 8],
                j,
            ) == byte_bit(d[(sy + row) * 8 + (sx + col) / 8], j),
        byte_bit(d2[(sy + row) * 8 + (sx + col) / 8], (7 - (sx + col) % 8) as u8) == (byte_bit(
            d[(sy + row) * 8 + (sx + col) / 8],
            (7 - (sx + col) % 8) as u8,
        ) != byte_bit(s.memory[s.i + row], (7 - col) as u8)),
    ensures
        partly_drawn(d2, s, sx, sy, n, row, col + 1),
        byte_bit(d[(sy + row) * 8 + (sx + col) / 8], (7 - (sx + col) % 8) as u8) == pixel(
            s.display,
            sx + col,
            sy + row,
        ),
        flips(s, sx, sy, n, sx + col, sy + row) == byte_bit(s.memory[s.i + row], (7 - col) as u8),
        collides_before(s, sx, sy, n, row, col + 1) == (collides_before(s, sx, sy, n, row, col) || (
        pixel(s.display, sx + col, sy + row) && flips(s, sx, sy, n, sx + col, sy + row))),
{
    let px = sx + col;
    let py = sy + row;
    lemma_write_pixel(d, d2, px, py);
    assert(pixel(d, px, py) == pixel(s.display, px, py));
    assert(covers(sx, sy, n, px, py));
    assert forall|qx: int, qy: int| 0 <= qx < 64 && 0 <= qy < 32 implies #[trigger] pixel(d2, qx, qy) == (
    pixel(s.display, qx, qy) != (flips(s, sx, sy, n, qx, qy) && drawn_before(
        sx,
        sy,
        row,
        col + 1,
        qx,
        qy,
    ))) by {
        if qx == px && qy == py {
        } else {
            assert(pixel(d, qx, qy) == pixel(s.display, qx, qy) != (flips(s, sx, sy, n, qx, qy)
                && drawn_before(sx, sy, row, col, qx, qy)));
        }
    }
    if collides_before(s, sx, sy, n, row, col + 1) {
        let (qx, qy) = choose|qx: int, qy: int|
            #[trigger] flips(s, sx, sy, n, qx, qy) && drawn_before(sx, sy, row, col + 1, qx, qy)
                && pixel(s.display, qx, qy);
        if !(qx == px && qy == py) {
            assert(flips(s, sx, sy, n, qx, qy) && drawn_before(sx, sy, row, col, qx, qy) && pixel(
                s.display,
                qx,
                qy,
            ));
        }
    }
    if collides_before(s, sx, sy, n, row, col) {
        let (qx, qy) = choose|qx: int, qy: int|
            #[trigger] flips(s, sx, sy, n, qx, qy) && drawn_before(sx, sy, row, col, qx, qy) && pixel(
                s.display,
                qx,
                qy,
            );
        assert(flips(s, sx, sy, n, qx, qy) && drawn_before(sx, sy, row, col + 1, qx, qy) && pixel(
            s.display,
            qx,
            qy,
        ));
    }
    if pixel(s.display, px, py) && flips(s, sx, sy, n, px, py) {
        assert(flips(s, sx, sy, n, px, py) && drawn_before(sx, sy, row, col + 1, px, py) && pixel(
            s.display,
            px,
            py,
        ));
    }
}

/// Once a row's visible pixels are drawn, the drawing is at the start of the next row.
pub proof fn lemma_draw_row_done(d: Seq<u8>, s: CpuState, sx: int, sy: int, n: u8, row: int, col: int)
    requires
        partly_drawn(d, s, sx, sy, n, row, col),
        col == 8 || sx + col >= 64,
        0 <= col <= 8,
    ensures
        partly_drawn(d, s, sx, sy, n, row + 1, 0),
        collides_before(s, sx, sy, n, row + 1, 0) == collides_before(s, sx, sy, n, row, col),
{
    assert forall|px: int, py: int| #[trigger] flips(s, sx, sy, n, px, py) implies drawn_before(
        sx,
        sy,
        row,
        col,
        px,
        py,
    ) == drawn_before(sx, sy, row + 1, 0, px, py) by {}
    if collides_before(s, sx, sy, n, row + 1, 0) {
        let (qx, qy) = choose|qx: int, qy: int|
            #[trigger] flips(s, sx, sy, n, qx, qy) && drawn_before(sx, sy, row + 1, 0, qx, qy) && pixel(
                s.display,
                qx,
                qy,
            );
        assert(flips(s, sx, sy, n, qx, qy) && drawn_before(sx, sy, row, col, qx, qy) && pixel(
            s.display,
            qx,
            qy,
        ));
    }
    if collides_before(s, sx, sy, n, row, col) {
        let (qx, qy) = choose|qx: int, qy: int|
            #[trigger] flips(s, sx, sy, n, qx, qy) && drawn_before(sx, sy, row, col, qx, qy) && pixel(
                s.display,
                qx,
                qy,
            );
        assert(flips(s, sx, sy, n, qx, qy) && drawn_before(sx, sy, row + 1, 0, qx, qy) && pixel(
            s.display,
            qx,
            qy,
        ));
    }
}

/// Once every visible row is drawn, the display is the drawn display and the
/// collision is the sprite's collision.
pub proof fn lemma_draw_done(d: Seq<u8>, s: CpuState, sx: int, sy: int, n: u8, row: int)
    requires
        partly_drawn(d, s, sx, sy, n, row, 0),
        row == n || sy + row >= 32,
        d.len() == 256,
        s.display.len() == 256,
    ensures
        d == drawn_display(s, sx, sy, n),
        collides_before(s, sx, sy, n, row, 0) == collides(s, sx, sy, n),
{
    assert forall|px: int, py: int| #[trigger] flips(s, sx, sy, n, px, py) implies drawn_before(
        sx,
        sy,
        row,
        0,
        px,
        py,
    ) by {}
    assert forall|px: int, py: int| 0 <= px < 64 && 0 <= py < 32 implies #[trigger] pixel(d, px, py)
        == pixel(drawn_display(s, sx, sy, n), px, py) by {
        lemma_drawn_pixel(s, sx, sy, n, px, py);
    }
    lemma_pixels_determine_display(d, drawn_display(s, sx, sy, n));
    if collides(s, sx, sy, n) {
        let (qx, qy) = choose|qx: int, qy: int|
            #[trigger] flips(s, sx, sy, n, qx, qy) && pixel(s.display, qx, qy);
        assert(flips(s, sx, sy, n, qx, qy) && drawn_before(sx, sy, row, 0, qx, qy) && pixel(
            s.display,
            qx,
            qy,
        ));
    }
}

} // verus!

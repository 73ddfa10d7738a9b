//! The packed pixel frame and its addressing arithmetic.
//!
//! A frame is one bit per pixel, organized as `height / 8` pages of `width`
//! bytes each: pixel `(x, y)` lives in bit `y % 8` of the byte at
//! `(y / 8) * width + x`. The functions here describe single-pixel updates of
//! such a frame and prove the laws the driver's pixel operations obey.

use vstd::prelude::*;

verus! {

/// Whether bit `i` of byte `b` is set. Meaningful for `i < 8`.
pub open spec fn bit_of(b: u8, i: u8) -> bool {
    b & (1u8 << i) != 0
}

/// Byte `b` with bit `i` set.
pub open spec fn with_bit_set(b: u8, i: u8) -> u8 {
    b | (1u8 << i)
}

/// Byte `b` with bit `i` cleared.
pub open spec fn with_bit_cleared(b: u8, i: u8) -> u8 {
    b & !(1u8 << i)
}

/// Byte `b` with bit `i` inverted.
pub open spec fn with_bit_toggled(b: u8, i: u8) -> u8 {
    if bit_of(b, i) {
        with_bit_cleared(b, i)
    } else {
        with_bit_set(b, i)
    }
}

/// The index of the byte owning pixel `(x, y)` in a page-major frame of the
/// given width.
pub open spec fn byte_index(width: u8, x: u8, y: u8) -> int {
    (y as int / 8) * (width as int) + x as int
}

/// The value of pixel `(x, y)` in a packed frame.
pub open spec fn spec_pixel(frame: Seq<u8>, width: u8, x: u8, y: u8) -> bool {
    bit_of(frame[byte_index(width, x, y)], (y as int % 8) as u8)
}

/// The frame with pixel `(x, y)` turned on.
pub open spec fn frame_with_pixel_on(frame: Seq<u8>, width: u8, x: u8, y: u8) -> Seq<u8> {
    let idx = byte_index(width, x, y);
    frame.update(idx, with_bit_set(frame[idx], (y as int % 8) as u8))
}

/// The frame with pixel `(x, y)` turned off.
pub open spec fn frame_with_pixel_off(frame: Seq<u8>, width: u8, x: u8, y: u8) -> Seq<u8> {
    let idx = byte_index(width, x, y);
    frame.update(idx, with_bit_cleared(frame[idx], (y as int % 8) as u8))
}

/// The frame with pixel `(x, y)` inverted.
pub open spec fn frame_with_pixel_toggled(frame: Seq<u8>, width: u8, x: u8, y: u8) -> Seq<u8> {
    let idx = byte_index(width, x, y);
    frame.update(idx, with_bit_toggled(frame[idx], (y as int % 8) as u8))
}

/// Setting a bit raises it and moves no other bit.
pub proof fn lemma_bit_set(b: u8, i: u8, j: u8)
    by (bit_vector)
    requires
        i < 8,
        j < 8,
    ensures
        bit_of(with_bit_set(b, i), i),
        i != j ==> bit_of(with_bit_set(b, i), j) == bit_of(b, j),
{
}

/// Clearing a bit lowers it and moves no other bit.
pub proof fn lemma_bit_cleared(b: u8, i: u8, j: u8)
    by (bit_vector)
    requires
        i < 8,
        j < 8,
    ensures
        !bit_of(with_bit_cleared(b, i), i),
        i != j ==> bit_of(with_bit_cleared(b, i), j) == bit_of(b, j),
{
}

/// Toggling a bit inverts it and moves no other bit.
pub proof fn lemma_bit_toggled(b: u8, i: u8, j: u8)
    by (bit_vector)
    requires
        i < 8,
        j < 8,
    ensures
        bit_of(with_bit_toggled(b, i), i) == !bit_of(b, i),
        i != j ==> bit_of(with_bit_toggled(b, i), j) == bit_of(b, j),
{
}

/// Setting then clearing a bit equals clearing it; if the bit was low, the
/// byte is restored exactly.
pub proof fn lemma_bit_set_then_cleared(b: u8, i: u8)
    by (bit_vector)
    requires
        i < 8,
    ensures
        with_bit_cleared(with_bit_set(b, i), i) == with_bit_cleared(b, i),
        !bit_of(b, i) ==> with_bit_cleared(with_bit_set(b, i), i) == b,
{
}

/// Toggling a bit twice restores the byte exactly.
pub proof fn lemma_bit_toggled_twice(b: u8, i: u8)
    by (bit_vector)
    requires
        i < 8,
    ensures
        with_bit_toggled(with_bit_toggled(b, i), i) == b,
{
}

/// The owning byte of an in-bounds pixel lies within the frame.
pub proof fn lemma_byte_index_bounds(width: u8, height: u8, x: u8, y: u8)
    by (nonlinear_arith)
    requires
        x < width,
        y < height,
        height % 8 == 0,
    ensures
        0 <= byte_index(width, x, y) < (height as int / 8) * (width as int),
{
}

/// The owning byte's index of an in-bounds pixel of a display no larger than
/// 128 by 64 is small enough for machine indexing.
pub proof fn lemma_byte_index_small(width: u8, height: u8, x: u8, y: u8)
    by (nonlinear_arith)
    requires
        x < width,
        y < height,
        width <= 128,
        height <= 64,
    ensures
        0 <= byte_index(width, x, y) < 1024,
{
}

/// Distinct in-bounds pixels of the same row band share a byte only in the
/// same column.
pub proof fn lemma_byte_index_injective(width: u8, x1: u8, y1: u8, x2: u8, y2: u8)
    by (nonlinear_arith)
    requires
        x1 < width,
        x2 < width,
        byte_index(width, x1, y1) == byte_index(width, x2, y2),
    ensures
        x1 == x2,
        y1 as int / 8 == y2 as int / 8,
{
}

/// Replacing the byte of pixel `(x, y)` with one that agrees on every bit but
/// `y % 8` leaves every other pixel of the frame unchanged.
pub proof fn lemma_pixel_update_localized(
    frame: Seq<u8>,
    width: u8,
    height: u8,
    x: u8,
    y: u8,
    nb: u8,
)
    requires
        height % 8 == 0,
        frame.len() == (height as int / 8) * (width as int),
        x < width,
        y < height,
        forall|k: u8|
            k < 8 && k != (y as int % 8) as u8 ==> #[trigger] bit_of(nb, k) == bit_of(
                frame[byte_index(width, x, y)],
                k,
            ),
    ensures
        forall|i: u8, j: u8|
            i < width && j < height && !(i == x && j == y) ==> #[trigger] spec_pixel(
                frame.update(byte_index(width, x, y), nb),
                width,
                i,
                j,
            ) == spec_pixel(frame, width, i, j),
{
    let idx = byte_index(width, x, y);
    lemma_byte_index_bounds(width, height, x, y);
    assert forall|i: u8, j: u8|
        i < width && j < height && !(i == x && j == y) implies #[trigger] spec_pixel(
        frame.update(idx, nb),
        width,
        i,
        j,
    ) == spec_pixel(frame, width, i, j) by {
        lemma_byte_index_bounds(width, height, i, j);
        if byte_index(width, i, j) == idx {
            lemma_byte_index_injective(width, i, j, x, y);
            assert(j != y);
            assert(j as int == 8 * (j as int / 8) + j as int % 8);
            assert(y as int == 8 * (y as int / 8) + y as int % 8);
            assert(j as int % 8 != y as int % 8);
            assert(bit_of(nb, (j as int % 8) as u8) == bit_of(frame[idx], (j as int % 8) as u8));
        }
    }
}

/// Law: setting a pixel and then clearing it yields the same frame as
/// clearing it directly; in particular, if the pixel was off to begin with,
/// the frame returns exactly to its original state.
pub proof fn lemma_set_then_clear_pixel(frame: Seq<u8>, width: u8, height: u8, x: u8, y: u8)
    requires
        height % 8 == 0,
        frame.len() == (height as int / 8) * (width as int),
        x < width,
        y < height,
    ensures
        frame_with_pixel_off(frame_with_pixel_on(frame, width, x, y), width, x, y)
            == frame_with_pixel_off(frame, width, x, y),
        !spec_pixel(frame, width, x, y) ==> frame_with_pixel_off(
            frame_with_pixel_on(frame, width, x, y),
            width,
            x,
            y,
        ) == frame,
{
    let idx = byte_index(width, x, y);
    let k = (y as int % 8) as u8;
    lemma_byte_index_bounds(width, height, x, y);
    let b = frame[idx];
    lemma_bit_set_then_cleared(b, k);
    assert(frame_with_pixel_off(frame_with_pixel_on(frame, width, x, y), width, x, y)
        =~= frame.update(idx, with_bit_cleared(with_bit_set(b, k), k)));
    assert(frame_with_pixel_off(frame, width, x, y) =~= frame.update(idx, with_bit_cleared(b, k)));
    if !spec_pixel(frame, width, x, y) {
        assert(frame.update(idx, b) =~= frame);
    }
}

/// Law: inverting a pixel twice restores the frame exactly.
pub proof fn lemma_toggle_pixel_twice(frame: Seq<u8>, width: u8, height: u8, x: u8, y: u8)
    requires
        height % 8 == 0,
        frame.len() == (height as int / 8) * (width as int),
        x < width,
        y < height,
    ensures
        frame_with_pixel_toggled(frame_with_pixel_toggled(frame, width, x, y), width, x, y)
            == frame,
{
    let idx = byte_index(width, x, y);
    let k = (y as int % 8) as u8;
    lemma_byte_index_bounds(width, height, x, y);
    let b = frame[idx];
    lemma_bit_toggled_twice(b, k);
    assert(frame_with_pixel_toggled(frame_with_pixel_toggled(frame, width, x, y), width, x, y)
        =~= frame.update(idx, with_bit_toggled(with_bit_toggled(b, k), k)));
    assert(frame.update(idx, b) =~= frame);
}

} // verus!

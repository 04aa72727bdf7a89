//! How sprites are laid out as a container: the bytes of each opcode, of a
//! sprite's stream and block, and of the whole container.
use crate::bytes::{le_bytes, twos_complement};
use crate::canvas::{address_of, zeros};
use crate::opcode::{OP_END, OP_MOVE_X, OP_NEXT_LINE, OP_PAINT};
use crate::rle::identifier;
use crate::sprite::SpriteView;
use vstd::prelude::*;

verus! {

/// A paint opcode with its operands: the count of pixels, then the pixels.
pub open spec fn paint_bytes(count: u32, run: Seq<u8>) -> Seq<u8> {
    seq![OP_PAINT] + le_bytes(count) + run
}

/// A Move-X opcode with its operand.
pub open spec fn move_x_bytes(byte_delta: i32) -> Seq<u8> {
    seq![OP_MOVE_X] + le_bytes(twos_complement(byte_delta))
}

/// A Next-line opcode.
pub open spec fn next_line_bytes() -> Seq<u8> {
    seq![OP_NEXT_LINE]
}

/// The bytes of row `row` of `pixels`.
pub open spec fn row_of(pixels: Seq<u8>, width: u32, row: int) -> Seq<u8> {
    pixels.subrange(address_of(0, row, width as int), address_of(0, row + 1, width as int))
}

/// The opcodes that paint row `row` of `pixels` and bring the pen to the
/// start of the next row: a paint run of the row's `width` pixels, a
/// Next-line, and a Move-X back by the row's length in bytes.
pub open spec fn row_stream(pixels: Seq<u8>, width: u32, row: int) -> Seq<u8> {
    paint_bytes(width, row_of(pixels, width, row)) + next_line_bytes() + move_x_bytes(
        (-2 * width) as i32,
    )
}

/// The opcode stream that paints the rows of `pixels` from `row` on, row by
/// row, and then ends.
pub open spec fn stream_from(pixels: Seq<u8>, width: u32, height: u32, row: int) -> Seq<u8>
    decreases height - row,
{
    if row >= height {
        seq![OP_END]
    } else {
        row_stream(pixels, width, row) + stream_from(pixels, width, height, row + 1)
    }
}

/// The opcodes of the rows before `upto`, one row after the other.
pub open spec fn rows_upto(pixels: Seq<u8>, width: u32, upto: int) -> Seq<u8>
    decreases upto,
{
    if upto <= 0 {
        Seq::empty()
    } else {
        rows_upto(pixels, width, upto - 1) + row_stream(pixels, width, upto - 1)
    }
}

/// The nine words of a sprite's header.
pub open spec fn header_bytes(s: SpriteView) -> Seq<u8> {
    le_bytes(s.length) + le_bytes(s.offset_x) + le_bytes(s.offset_y) + le_bytes(s.width)
        + le_bytes(s.height) + le_bytes(s.reserved_1) + le_bytes(s.reserved_2) + le_bytes(
        s.reserved_3,
    ) + le_bytes(s.reserved_4)
}

/// The opcode stream of a sprite: none for a sentinel, else the stream that
/// paints its pixels row by row.
pub open spec fn stream_of(s: SpriteView) -> Seq<u8> {
    if s.is_sentinel() {
        Seq::empty()
    } else {
        stream_from(s.pixels, s.width, s.height, 0)
    }
}

/// A sprite as it stands in a container: header, then stream.
pub open spec fn block_of(s: SpriteView) -> Seq<u8> {
    header_bytes(s) + stream_of(s)
}

/// The blocks of the first `upto` sprites, one after the other.
pub open spec fn blocks_upto(sprites: Seq<SpriteView>, upto: int) -> Seq<u8>
    decreases upto,
{
    if upto <= 0 {
        Seq::empty()
    } else {
        blocks_upto(sprites, upto - 1) + block_of(sprites[upto - 1])
    }
}

/// Where the block of sprite `i` starts: after the identifier, the two words
/// that follow it, the offset table, and the blocks of the sprites before.
pub open spec fn offset_of(sprites: Seq<SpriteView>, i: int) -> int {
    22 + 4 * sprites.len() as int + blocks_upto(sprites, i).len() as int
}

/// The first `upto` entries of the offset table.
pub open spec fn table_upto(sprites: Seq<SpriteView>, upto: int) -> Seq<u8>
    decreases upto,
{
    if upto <= 0 {
        Seq::empty()
    } else {
        table_upto(sprites, upto - 1) + le_bytes(offset_of(sprites, upto - 1) as u32)
    }
}

/// The container that holds `sprites`, one slot each and in their order:
/// identifier, reserved word, count, offset table, blocks.
pub open spec fn encoded(reserved: u32, sprites: Seq<SpriteView>) -> Seq<u8> {
    identifier() + le_bytes(reserved) + le_bytes(sprites.len() as u32) + table_upto(
        sprites,
        sprites.len() as int,
    ) + blocks_upto(sprites, sprites.len() as int)
}

/// True when a sprite can stand in a container: its pixel buffer has the
/// length that its size calls for, and a sentinel holds the blank
/// placeholder.
pub open spec fn encodable_sprite(s: SpriteView) -> bool {
    s.well_formed() && (s.is_sentinel() ==> s.pixels == zeros(2))
}

/// True when `sprites` can stand in one container: each of them can, and the
/// container is short enough for every position in it to fit an offset.
pub open spec fn encodable(sprites: Seq<SpriteView>) -> bool {
    &&& forall|i: int| 0 <= i < sprites.len() ==> encodable_sprite(#[trigger] sprites[i])
    &&& offset_of(sprites, sprites.len() as int) <= u32::MAX
}

/// The sprites as a decoder finds them in their container: each tagged with
/// the file number, its slot, and the offset of its block.
pub open spec fn placed(file_number: u32, sprites: Seq<SpriteView>) -> Seq<SpriteView> {
    Seq::new(
        sprites.len(),
        |i: int|
            SpriteView {
                file_number,
                index: i as u32,
                offset: offset_of(sprites, i) as u32,
                ..sprites[i]
            },
    )
}

/// Rows follow one another in the canvas without a gap, from its first byte
/// to its last.
pub proof fn lemma_row_addresses(width: u32, height: u32, row: int)
    requires
        0 <= row <= height,
    ensures
        address_of(0, row, width as int) >= 0,
        address_of(0, row + 1, width as int) == address_of(0, row, width as int) + 2 * width,
        address_of(0, row, width as int) <= width * height * 2,
        address_of(0, height as int, width as int) == width * height * 2,
{
    assert(row * 2 * width >= 0) by (nonlinear_arith)
        requires
            row >= 0,
            width >= 0,
    ;
    assert((row + 1) * 2 * width == row * 2 * width + 2 * width) by (nonlinear_arith);
    assert(row * 2 * width <= width * height * 2) by (nonlinear_arith)
        requires
            0 <= row <= height,
            width >= 0,
    ;
    assert(height * 2 * width == width * height * 2) by (nonlinear_arith);
}

/// How long the stream of the rows from `row` on is.
pub proof fn lemma_stream_len(pixels: Seq<u8>, width: u32, height: u32, row: int)
    requires
        0 <= row <= height,
        pixels.len() == width * height * 2,
    ensures
        stream_from(pixels, width, height, row).len() == (height - row) * (2 * width + 11) + 1,
    decreases height - row,
{
    if row < height {
        lemma_row_addresses(width, height, row);
        lemma_row_addresses(width, height, row + 1);
        lemma_stream_len(pixels, width, height, row + 1);
        assert((height - row) * (2 * width + 11) == (height - (row + 1)) * (2 * width + 11) + (2
            * width + 11)) by (nonlinear_arith);
    } else {
        assert((height - row) * (2 * width + 11) == 0) by (nonlinear_arith)
            requires
                height - row == 0,
        ;
    }
}

/// How long the block of a sprite is.
pub proof fn lemma_block_len(s: SpriteView)
    requires
        encodable_sprite(s),
    ensures
        header_bytes(s).len() == 36,
        s.is_sentinel() ==> block_of(s).len() == 36,
        !s.is_sentinel() ==> block_of(s).len() == 37 + s.height * (2 * s.width + 11),
        block_of(s).len() >= 36,
{
    if !s.is_sentinel() {
        lemma_stream_len(s.pixels, s.width, s.height, 0);
        assert(s.height * (2 * s.width + 11) >= 0) by (nonlinear_arith)
            requires
                s.height >= 0,
                s.width >= 0,
        ;
    }
}

/// The offset table has four bytes per entry.
pub proof fn lemma_table_len(sprites: Seq<SpriteView>, upto: int)
    requires
        0 <= upto,
    ensures
        table_upto(sprites, upto).len() == 4 * upto,
    decreases upto,
{
    if upto > 0 {
        lemma_table_len(sprites, upto - 1);
    }
}

/// The blocks of more sprites are no shorter.
pub proof fn lemma_blocks_grow(sprites: Seq<SpriteView>, i: int, j: int)
    requires
        0 <= i <= j,
    ensures
        blocks_upto(sprites, i).len() <= blocks_upto(sprites, j).len(),
    decreases j,
{
    if i < j {
        lemma_blocks_grow(sprites, i, j - 1);
    }
}

/// The rows before `row`, followed by the stream from `row` on, are the
/// whole stream.
pub proof fn lemma_rows_then_rest(pixels: Seq<u8>, width: u32, height: u32, row: int)
    requires
        0 <= row <= height,
    ensures
        rows_upto(pixels, width, row) + stream_from(pixels, width, height, row) == stream_from(
            pixels,
            width,
            height,
            0,
        ),
    decreases row,
{
    if row > 0 {
        lemma_rows_then_rest(pixels, width, height, row - 1);
        let before = rows_upto(pixels, width, row - 1);
        let this = row_stream(pixels, width, row - 1);
        let rest = stream_from(pixels, width, height, row);
        assert((before + this) + rest =~= before + (this + rest));
    } else {
        assert(rows_upto(pixels, width, 0) + stream_from(pixels, width, height, 0)
            =~= stream_from(pixels, width, height, 0));
    }
}

} // verus!

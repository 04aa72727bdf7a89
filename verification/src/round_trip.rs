//! Decoding undoes encoding: the proof that a container laid out from
//! sprites decodes to those sprites, and that a stream of any opcodes decodes
//! to what the opcodes draw.
use crate::bytes::{
    has_bytes, le_bytes, le_u32_at, lemma_le_bytes_read_back, lemma_le_bytes_read_back_signed,
    twos_complement,
};
use crate::canvas::{address_of, blank_canvas, overwrite, room_at, zeros, SIZE_LIMIT};
use crate::error::Error;
use crate::layout::{
    block_of, blocks_upto, encodable, encodable_sprite, encoded, header_bytes, lemma_block_len,
    lemma_row_addresses, lemma_table_len, move_x_bytes, next_line_bytes, offset_of, paint_bytes,
    placed, row_of, row_stream, stream_from, stream_of, table_upto,
};
use crate::opcode::{
    half_toward_zero, outcome_of, step_of, Machine, Step, OP_END, OP_MOVE_X, OP_PAINT,
};
use crate::rle::{
    decode, decode_slots, decode_sprite, directory_of, identifier, identifier_check,
    lemma_identifier_is_text, sprite_at,
};
use crate::sprite::{ContainerView, SpriteView};
use vstd::prelude::*;

verus! {

/// True when the bytes of `part` stand in `data` from position `at` on.
pub open spec fn holds_at(data: Seq<u8>, at: int, part: Seq<u8>) -> bool {
    has_bytes(data, at, part.len() as int) && data.subrange(at, at + part.len()) == part
}

/// What stands in a sequence stands at the same place in that sequence
/// followed by another.
pub proof fn lemma_holds_in_front(front: Seq<u8>, back: Seq<u8>, at: int, part: Seq<u8>)
    requires
        holds_at(front, at, part),
    ensures
        holds_at(front + back, at, part),
{
    assert((front + back).subrange(at, at + part.len()) =~= front.subrange(at, at + part.len()));
}

/// What stands in a sequence stands in another sequence followed by that
/// one, further on by the length of the other.
pub proof fn lemma_holds_in_back(front: Seq<u8>, back: Seq<u8>, at: int, part: Seq<u8>)
    requires
        holds_at(back, at, part),
    ensures
        holds_at(front + back, front.len() + at, part),
{
    assert((front + back).subrange(front.len() + at, front.len() + at + part.len())
        =~= back.subrange(at, at + part.len()));
}

/// A part of a part of a sequence is a part of the sequence.
pub proof fn lemma_holds_within(data: Seq<u8>, at: int, part: Seq<u8>, inner: int, piece: Seq<u8>)
    requires
        holds_at(data, at, part),
        holds_at(part, inner, piece),
    ensures
        holds_at(data, at + inner, piece),
{
    assert(data.subrange(at + inner, at + inner + piece.len()) =~= data.subrange(
        at,
        at + part.len(),
    ).subrange(inner, inner + piece.len()));
}

/// Where a paint opcode stands with a run that the canvas has room for, the
/// machine copies the run to the canvas at the pen's address and moves the
/// pen past it.
pub proof fn lemma_paint_decodes(data: Seq<u8>, width: int, m: Machine, count: u32, run: Seq<u8>)
    requires
        holds_at(data, m.pos, paint_bytes(count, run)),
        run.len() == 2 * count,
        room_at(m.canvas, address_of(m.x, m.y, width)) >= count,
    ensures
        step_of(data, width, m) == Step::Continue(
            Machine {
                pos: m.pos + 5 + 2 * count,
                x: m.x + count,
                y: m.y,
                canvas: overwrite(m.canvas, address_of(m.x, m.y, width), run),
            },
        ),
{
    let bytes = paint_bytes(count, run);
    let window = data.subrange(m.pos, m.pos + bytes.len());
    assert(window[0] == data[m.pos]);
    assert(bytes[0] == OP_PAINT);
    assert(data.subrange(m.pos + 1, m.pos + 5) =~= window.subrange(1, 5));
    assert(bytes.subrange(1, 5) =~= le_bytes(count));
    lemma_le_bytes_read_back(data, m.pos + 1, count);
    assert(data.subrange(m.pos + 5, m.pos + 5 + 2 * count) =~= window.subrange(
        5,
        5 + 2 * count,
    ));
    assert(bytes.subrange(5, 5 + 2 * count) =~= run);
    assert((data.len() - (m.pos + 5)) / 2 >= count);
}

/// Where a Move-X opcode stands, the machine moves the pen along its row by
/// half of the operand, rounded toward zero.
pub proof fn lemma_move_x_decodes(data: Seq<u8>, width: int, m: Machine, byte_delta: i32)
    requires
        holds_at(data, m.pos, move_x_bytes(byte_delta)),
    ensures
        step_of(data, width, m) == Step::Continue(
            Machine {
                pos: m.pos + 5,
                x: m.x + half_toward_zero(byte_delta as int),
                y: m.y,
                canvas: m.canvas,
            },
        ),
{
    let bytes = move_x_bytes(byte_delta);
    let window = data.subrange(m.pos, m.pos + bytes.len());
    assert(window[0] == data[m.pos]);
    assert(bytes[0] == OP_MOVE_X);
    assert(data.subrange(m.pos + 1, m.pos + 5) =~= window.subrange(1, 5));
    assert(bytes.subrange(1, 5) =~= le_bytes(twos_complement(byte_delta)));
    lemma_le_bytes_read_back_signed(data, m.pos + 1, byte_delta);
}

/// Where a Next-line opcode stands, the machine moves the pen one row down.
pub proof fn lemma_next_line_decodes(data: Seq<u8>, width: int, m: Machine)
    requires
        holds_at(data, m.pos, next_line_bytes()),
    ensures
        step_of(data, width, m) == Step::Continue(
            Machine { pos: m.pos + 1, x: m.x, y: m.y + 1, canvas: m.canvas },
        ),
{
    let window = data.subrange(m.pos, m.pos + 1);
    assert(window[0] == data[m.pos]);
}

/// One opcode of a stream with its operand; the end opcode is not among
/// them.
pub enum Op {
    /// Paints a run of pixels, given as their bytes.
    Paint(Seq<u8>),
    /// Moves the pen along its row by half of this many bytes.
    MoveX(i32),
    /// Moves the pen one row down.
    NextLine,
}

/// An opcode as it stands in a stream.
pub open spec fn op_bytes(op: Op) -> Seq<u8> {
    match op {
        Op::Paint(run) => paint_bytes((run.len() / 2) as u32, run),
        Op::MoveX(byte_delta) => move_x_bytes(byte_delta),
        Op::NextLine => next_line_bytes(),
    }
}

/// The stream of the opcodes from `from` on, closed by an end opcode.
pub open spec fn ops_bytes(ops: Seq<Op>, from: int) -> Seq<u8>
    decreases ops.len() - from,
{
    if from >= ops.len() {
        seq![OP_END]
    } else {
        op_bytes(ops[from]) + ops_bytes(ops, from + 1)
    }
}

/// What the opcodes from `from` on make of `canvas`, with the pen at
/// `(x, y)`: each paint run copied to the pen's address, each move applied
/// to the pen. `None` where a run is no whole number of pixels, holds more
/// pixels than a count can say, or has no room in the canvas.
pub open spec fn drawn(ops: Seq<Op>, from: int, width: int, x: int, y: int, canvas: Seq<u8>)
    -> Option<Seq<u8>>
    decreases ops.len() - from,
{
    if from >= ops.len() {
        Some(canvas)
    } else {
        match ops[from] {
            Op::Paint(run) => {
                let count = run.len() as int / 2;
                let addr = address_of(x, y, width);
                if run.len() == 2 * count && count <= u32::MAX && count <= room_at(canvas, addr) {
                    drawn(ops, from + 1, width, x + count, y, overwrite(canvas, addr, run))
                } else {
                    None
                }
            },
            Op::MoveX(byte_delta) => drawn(
                ops,
                from + 1,
                width,
                x + half_toward_zero(byte_delta as int),
                y,
                canvas,
            ),
            Op::NextLine => drawn(ops, from + 1, width, x, y + 1, canvas),
        }
    }
}

/// Decoding a stream gives what its opcodes draw: where the bytes of any
/// run of paint, Move-X and Next-line opcodes stand, closed by an end opcode,
/// the outcome is the canvas that those opcodes make.
pub proof fn lemma_ops_decode(
    data: Seq<u8>,
    at: int,
    ops: Seq<Op>,
    from: int,
    width: int,
    x: int,
    y: int,
    canvas: Seq<u8>,
)
    requires
        0 <= from <= ops.len(),
        holds_at(data, at, ops_bytes(ops, from)),
        drawn(ops, from, width, x, y, canvas) is Some,
    ensures
        outcome_of(data, width, Machine { pos: at, x, y, canvas }) == Ok::<Seq<u8>, Error>(
            drawn(ops, from, width, x, y, canvas)->Some_0,
        ),
    decreases ops.len() - from,
{
    let stream = ops_bytes(ops, from);
    let m = Machine { pos: at, x, y, canvas };
    if from >= ops.len() {
        assert(stream[0] == OP_END);
        assert(data[at] == data.subrange(at, at + stream.len())[0]);
    } else {
        let this = op_bytes(ops[from]);
        let rest = ops_bytes(ops, from + 1);
        assert(holds_at(stream, 0, this)) by {
            assert(stream.subrange(0, this.len() as int) =~= this);
        }
        assert(holds_at(stream, this.len() as int, rest)) by {
            assert(stream.subrange(this.len() as int, (this.len() + rest.len()) as int) =~= rest);
        }
        lemma_holds_within(data, at, stream, 0, this);
        lemma_holds_within(data, at, stream, this.len() as int, rest);
        match ops[from] {
            Op::Paint(run) => {
                let count = run.len() as int / 2;
                let next = Machine {
                    pos: at + 5 + 2 * count,
                    x: x + count,
                    y,
                    canvas: overwrite(canvas, address_of(x, y, width), run),
                };
                lemma_paint_decodes(data, width, m, count as u32, run);
                assert(step_of(data, width, m) == Step::Continue(next));
                lemma_ops_decode(data, next.pos, ops, from + 1, width, next.x, y, next.canvas);
            },
            Op::MoveX(byte_delta) => {
                let next = Machine {
                    pos: at + 5,
                    x: x + half_toward_zero(byte_delta as int),
                    y,
                    canvas,
                };
                lemma_move_x_decodes(data, width, m, byte_delta);
                assert(step_of(data, width, m) == Step::Continue(next));
                lemma_ops_decode(data, next.pos, ops, from + 1, width, next.x, y, canvas);
            },
            Op::NextLine => {
                let next = Machine { pos: at + 1, x, y: y + 1, canvas };
                lemma_next_line_decodes(data, width, m);
                assert(step_of(data, width, m) == Step::Continue(next));
                lemma_ops_decode(data, next.pos, ops, from + 1, width, x, y + 1, canvas);
            },
        }
    }
}

/// The opcodes of one row paint that row at the start of row `row` and
/// leave the pen at the start of the next.
pub proof fn lemma_row_paints(
    data: Seq<u8>,
    at: int,
    pixels: Seq<u8>,
    width: u32,
    height: u32,
    row: int,
    canvas: Seq<u8>,
)
    requires
        width < SIZE_LIMIT,
        0 <= row < height,
        pixels.len() == width * height * 2,
        canvas.len() == pixels.len(),
        holds_at(data, at, row_stream(pixels, width, row)),
    ensures
        row_stream(pixels, width, row).len() == 2 * width + 11,
        outcome_of(data, width as int, Machine { pos: at, x: 0, y: row, canvas }) == outcome_of(
            data,
            width as int,
            Machine {
                pos: at + 2 * width + 11,
                x: 0,
                y: row + 1,
                canvas: overwrite(
                    canvas,
                    address_of(0, row, width as int),
                    row_of(pixels, width, row),
                ),
            },
        ),
{
    lemma_row_addresses(width, height, row);
    lemma_row_addresses(width, height, row + 1);
    let first = address_of(0, row, width as int);
    let run = row_of(pixels, width, row);
    let paint = paint_bytes(width, run);
    let back: i32 = (-2 * width) as i32;
    let stream = row_stream(pixels, width, row);
    let painted = overwrite(canvas, first, run);
    let m = Machine { pos: at, x: 0, y: row, canvas };
    let m1 = Machine { pos: at + 5 + 2 * width, x: width as int, y: row, canvas: painted };
    let m2 = Machine { pos: at + 6 + 2 * width, x: width as int, y: row + 1, canvas: painted };
    let m3 = Machine { pos: at + 11 + 2 * width, x: 0, y: row + 1, canvas: painted };
    assert(run.len() == 2 * width);
    assert(holds_at(stream, 0, paint)) by {
        assert(stream.subrange(0, paint.len() as int) =~= paint);
    }
    assert(holds_at(stream, 5 + 2 * width, next_line_bytes())) by {
        assert(stream.subrange(5 + 2 * width, 6 + 2 * width) =~= next_line_bytes());
    }
    assert(holds_at(stream, 6 + 2 * width, move_x_bytes(back))) by {
        assert(stream.subrange(6 + 2 * width, 11 + 2 * width) =~= move_x_bytes(back));
    }
    lemma_holds_within(data, at, stream, 0, paint);
    lemma_holds_within(data, at, stream, 5 + 2 * width, next_line_bytes());
    lemma_holds_within(data, at, stream, 6 + 2 * width, move_x_bytes(back));
    assert(room_at(canvas, first) >= width) by {
        if width > 0 {
            assert((canvas.len() - first) / 2 >= width);
        }
    }
    lemma_paint_decodes(data, width as int, m, width, run);
    lemma_next_line_decodes(data, width as int, m1);
    lemma_move_x_decodes(data, width as int, m2, back);
    assert(half_toward_zero(back as int) == -width);
    assert(step_of(data, width as int, m) == Step::Continue(m1));
    assert(step_of(data, width as int, m1) == Step::Continue(m2));
    assert(step_of(data, width as int, m2) == Step::Continue(m3));
    assert(outcome_of(data, width as int, m) == outcome_of(data, width as int, m1));
    assert(outcome_of(data, width as int, m1) == outcome_of(data, width as int, m2));
    assert(outcome_of(data, width as int, m2) == outcome_of(data, width as int, m3));
}

/// Run on a canvas that already shows the rows before `row`, the stream of
/// the rows from `row` on paints the rest: the outcome is `pixels`.
pub proof fn lemma_stream_paints(
    data: Seq<u8>,
    at: int,
    pixels: Seq<u8>,
    width: u32,
    height: u32,
    row: int,
    canvas: Seq<u8>,
)
    requires
        width < SIZE_LIMIT,
        0 <= row <= height,
        pixels.len() == width * height * 2,
        canvas.len() == pixels.len(),
        forall|i: int| 0 <= i < address_of(0, row, width as int) ==> canvas[i] == pixels[i],
        holds_at(data, at, stream_from(pixels, width, height, row)),
    ensures
        outcome_of(data, width as int, Machine { pos: at, x: 0, y: row, canvas }) == Ok::<
            Seq<u8>,
            Error,
        >(pixels),
    decreases height - row,
{
    let stream = stream_from(pixels, width, height, row);
    lemma_row_addresses(width, height, row);
    if row >= height {
        assert(stream[0] == OP_END);
        assert(data[at] == data.subrange(at, at + stream.len())[0]);
        assert(canvas =~= pixels);
    } else {
        lemma_row_addresses(width, height, row + 1);
        let this = row_stream(pixels, width, row);
        let rest = stream_from(pixels, width, height, row + 1);
        let painted = overwrite(canvas, address_of(0, row, width as int), row_of(pixels, width, row));
        assert(holds_at(stream, 0, this)) by {
            assert(stream.subrange(0, this.len() as int) =~= this);
        }
        lemma_holds_within(data, at, stream, 0, this);
        lemma_row_paints(data, at, pixels, width, height, row, canvas);
        assert(holds_at(stream, this.len() as int, rest)) by {
            assert(stream.subrange(this.len() as int, (this.len() + rest.len()) as int) =~= rest);
        }
        lemma_holds_within(data, at, stream, this.len() as int, rest);
        lemma_stream_paints(data, at + 2 * width + 11, pixels, width, height, row + 1, painted);
    }
}

/// The block of every sprite stands in the run of blocks, where the blocks
/// before it end; and the blocks only grow.
pub proof fn lemma_blocks_hold(sprites: Seq<SpriteView>, i: int, upto: int)
    requires
        0 <= i < upto <= sprites.len(),
    ensures
        holds_at(blocks_upto(sprites, upto), blocks_upto(sprites, i).len() as int, block_of(sprites[i])),
        blocks_upto(sprites, i).len() + block_of(sprites[i]).len() <= blocks_upto(
            sprites,
            upto,
        ).len(),
    decreases upto,
{
    let front = blocks_upto(sprites, upto - 1);
    let last = block_of(sprites[upto - 1]);
    if i == upto - 1 {
        assert(last.subrange(0, last.len() as int) =~= last);
        lemma_holds_in_back(front, last, 0, last);
    } else {
        lemma_blocks_hold(sprites, i, upto - 1);
        lemma_holds_in_front(front, last, blocks_upto(sprites, i).len() as int, block_of(sprites[i]));
    }
}

/// Entry `i` of the offset table holds the offset of sprite `i`.
pub proof fn lemma_table_holds(sprites: Seq<SpriteView>, i: int, upto: int)
    requires
        0 <= i < upto,
    ensures
        table_upto(sprites, upto).len() == 4 * upto,
        holds_at(table_upto(sprites, upto), 4 * i, le_bytes(offset_of(sprites, i) as u32)),
    decreases upto,
{
    let front = table_upto(sprites, upto - 1);
    let last = le_bytes(offset_of(sprites, upto - 1) as u32);
    lemma_table_len(sprites, upto - 1);
    if i == upto - 1 {
        assert(last.subrange(0, last.len() as int) =~= last);
        lemma_holds_in_back(front, last, 0, last);
    } else {
        lemma_table_holds(sprites, i, upto - 1);
        lemma_holds_in_front(front, last, 4 * i, le_bytes(offset_of(sprites, i) as u32));
    }
}

/// Where the block of a sprite stands at `offset`, slot `index` decodes to
/// that sprite, tagged with the file number, the slot and the offset.
pub proof fn lemma_block_decodes(
    data: Seq<u8>,
    file_number: u32,
    index: u32,
    offset: u32,
    s: SpriteView,
)
    requires
        encodable_sprite(s),
        holds_at(data, offset as int, block_of(s)),
    ensures
        decode_sprite(data, file_number, index, offset) == Ok::<SpriteView, Error>(
            SpriteView { file_number, index, offset, ..s },
        ),
{
    let block = block_of(s);
    let header = header_bytes(s);
    let stream = stream_of(s);
    lemma_block_len(s);
    assert(holds_at(block, 0, header)) by {
        assert(block.subrange(0, 36) =~= header);
    }
    lemma_holds_within(data, offset as int, block, 0, header);
    lemma_header_words(data, offset as int, s);
    assert(0 <= s.width * s.height * 2) by (nonlinear_arith)
        requires
            0 <= s.width,
            0 <= s.height,
    ;
    if s.is_sentinel() {
        assert(decode_sprite(data, file_number, index, offset) == Ok::<SpriteView, Error>(
            sprite_at(data, file_number, index, offset, zeros(2)),
        ));
    } else {
        assert(holds_at(block, 36, stream)) by {
            assert(block.subrange(36, 36 + stream.len() as int) =~= stream);
        }
        lemma_holds_within(data, offset as int, block, 36, stream);
        lemma_stream_paints(
            data,
            offset + 36,
            s.pixels,
            s.width,
            s.height,
            0,
            blank_canvas(s.width, s.height),
        );
    }
}

/// Where the header of a sprite stands, its nine words read back as the
/// sprite's fields.
pub proof fn lemma_header_words(data: Seq<u8>, at: int, s: SpriteView)
    requires
        holds_at(data, at, header_bytes(s)),
    ensures
        has_bytes(data, at, 36),
        le_u32_at(data, at + 0) == s.length,
        le_u32_at(data, at + 4) == s.offset_x,
        le_u32_at(data, at + 8) == s.offset_y,
        le_u32_at(data, at + 12) == s.width,
        le_u32_at(data, at + 16) == s.height,
        le_u32_at(data, at + 20) == s.reserved_1,
        le_u32_at(data, at + 24) == s.reserved_2,
        le_u32_at(data, at + 28) == s.reserved_3,
        le_u32_at(data, at + 32) == s.reserved_4,
{
    let header = header_bytes(s);
    lemma_word_within(data, at, header, 0, s.length);
    lemma_word_within(data, at, header, 4, s.offset_x);
    lemma_word_within(data, at, header, 8, s.offset_y);
    lemma_word_within(data, at, header, 12, s.width);
    lemma_word_within(data, at, header, 16, s.height);
    lemma_word_within(data, at, header, 20, s.reserved_1);
    lemma_word_within(data, at, header, 24, s.reserved_2);
    lemma_word_within(data, at, header, 28, s.reserved_3);
    lemma_word_within(data, at, header, 32, s.reserved_4);
}

/// A word whose bytes stand in a part of a sequence reads back from the
/// sequence.
pub proof fn lemma_word_within(data: Seq<u8>, at: int, part: Seq<u8>, inner: int, v: u32)
    requires
        holds_at(data, at, part),
        has_bytes(part, inner, 4),
        part.subrange(inner, inner + 4) =~= le_bytes(v),
    ensures
        le_u32_at(data, at + inner) == v,
{
    lemma_holds_within(data, at, part, inner, le_bytes(v));
    lemma_le_bytes_read_back(data, at + inner, v);
}

/// A sprite built from any opcodes decodes to what they draw: where the
/// header of a sprite stands at `offset`, followed by the bytes of opcodes
/// that draw its pixels on a blank canvas, slot `index` decodes to that
/// sprite, with exactly those pixels.
pub proof fn lemma_sprite_decodes(
    data: Seq<u8>,
    file_number: u32,
    index: u32,
    offset: u32,
    s: SpriteView,
    ops: Seq<Op>,
)
    requires
        !s.is_sentinel(),
        holds_at(data, offset as int, header_bytes(s) + ops_bytes(ops, 0)),
        drawn(ops, 0, s.width as int, 0, 0, blank_canvas(s.width, s.height)) == Some(s.pixels),
    ensures
        decode_sprite(data, file_number, index, offset) == Ok::<SpriteView, Error>(
            SpriteView { file_number, index, offset, ..s },
        ),
{
    let header = header_bytes(s);
    let stream = ops_bytes(ops, 0);
    let block = header + stream;
    assert(holds_at(block, 0, header)) by {
        assert(block.subrange(0, 36) =~= header);
    }
    assert(holds_at(block, 36, stream)) by {
        assert(block.subrange(36, 36 + stream.len() as int) =~= stream);
    }
    lemma_holds_within(data, offset as int, block, 0, header);
    lemma_holds_within(data, offset as int, block, 36, stream);
    lemma_header_words(data, offset as int, s);
    lemma_ops_decode(
        data,
        offset + 36,
        ops,
        0,
        s.width as int,
        0,
        0,
        blank_canvas(s.width, s.height),
    );
}

/// What one slot of a container was built from: a sprite, and the opcodes
/// that were written out behind its header.
pub struct Built {
    pub sprite: SpriteView,
    pub ops: Seq<Op>,
}

/// True when `data` holds at `offset` what the slot was built from. An empty
/// slot has the offset 0. A sentinel stands with its header alone and holds
/// the blank placeholder. Any other sprite stands with its header and the
/// bytes of its opcodes, and its pixels are what the opcodes draw on a blank
/// canvas.
pub open spec fn slot_built(data: Seq<u8>, offset: u32, slot: Option<Built>) -> bool {
    match slot {
        None => offset == 0,
        Some(built) => {
            let s = built.sprite;
            &&& offset != 0
            &&& if s.is_sentinel() {
                holds_at(data, offset as int, header_bytes(s)) && s.pixels == zeros(2)
            } else {
                &&& holds_at(data, offset as int, header_bytes(s) + ops_bytes(built.ops, 0))
                &&& drawn(built.ops, 0, s.width as int, 0, 0, blank_canvas(s.width, s.height))
                    == Some(s.pixels)
            }
        },
    }
}

/// The sprites that the first `upto` slots were built from, each tagged with
/// the file number, its slot and its offset.
pub open spec fn sprites_built(
    file_number: u32,
    table: Seq<u32>,
    slots: Seq<Option<Built>>,
    upto: int,
) -> Seq<SpriteView>
    decreases upto,
{
    if upto <= 0 {
        Seq::empty()
    } else {
        let before = sprites_built(file_number, table, slots, upto - 1);
        match slots[upto - 1] {
            None => before,
            Some(built) => before.push(
                SpriteView {
                    file_number,
                    index: (upto - 1) as u32,
                    offset: table[upto - 1],
                    ..built.sprite
                },
            ),
        }
    }
}

/// The slots of a table that hold what they were built from decode to the
/// sprites they were built from.
pub proof fn lemma_built_slots_decode(
    data: Seq<u8>,
    file_number: u32,
    table: Seq<u32>,
    slots: Seq<Option<Built>>,
    upto: int,
)
    requires
        0 <= upto <= table.len(),
        table.len() == slots.len(),
        forall|i: int| 0 <= i < table.len() ==> slot_built(data, #[trigger] table[i], slots[i]),
    ensures
        decode_slots(data, file_number, table, upto) == Ok::<Seq<SpriteView>, Error>(
            sprites_built(file_number, table, slots, upto),
        ),
    decreases upto,
{
    if upto > 0 {
        let i = upto - 1;
        lemma_built_slots_decode(data, file_number, table, slots, i);
        assert(slot_built(data, table[i], slots[i]));
        match slots[i] {
            None => {},
            Some(built) => {
                let s = built.sprite;
                if s.is_sentinel() {
                    lemma_header_words(data, table[i] as int, s);
                } else {
                    lemma_sprite_decodes(data, file_number, i as u32, table[i], s, built.ops);
                }
            },
        }
    }
}

/// Decoding reproduces what a container was built from, however it was laid
/// out: where a buffer starts with the identifier and a directory, and every
/// slot of its table holds what it was built from, the buffer decodes to the
/// sprites of the slots that are not empty, in table order, each with exactly
/// the pixels that its opcodes draw.
pub proof fn lemma_built_container_decodes(
    file_number: u32,
    data: Seq<u8>,
    slots: Seq<Option<Built>>,
)
    requires
        identifier_check(data) is Ok,
        directory_of(data) is Ok,
        directory_of(data)->Ok_0.1.len() == slots.len(),
        forall|i: int|
            0 <= i < slots.len() ==> slot_built(
                data,
                #[trigger] directory_of(data)->Ok_0.1[i],
                slots[i],
            ),
    ensures
        decode(file_number, data) == Ok::<ContainerView, Error>(
            ContainerView {
                reserved: le_u32_at(data, 14),
                sprites: sprites_built(
                    file_number,
                    directory_of(data)->Ok_0.1,
                    slots,
                    slots.len() as int,
                ),
            },
        ),
{
    let table = directory_of(data)->Ok_0.1;
    lemma_built_slots_decode(data, file_number, table, slots, table.len() as int);
}

/// What stands at the head of an encoded container: the identifier, the
/// reserved word and the count of sprites.
pub proof fn lemma_encoded_head(reserved: u32, sprites: Seq<SpriteView>)
    requires
        encodable(sprites),
    ensures
        encoded(reserved, sprites).len() == offset_of(sprites, sprites.len() as int),
        encoded(reserved, sprites).subrange(0, 14) == identifier(),
        le_u32_at(encoded(reserved, sprites), 14) == reserved,
        le_u32_at(encoded(reserved, sprites), 18) == sprites.len(),
{
    let data = encoded(reserved, sprites);
    let n = sprites.len() as int;
    lemma_table_len(sprites, n);
    lemma_identifier_is_text();
    assert(data.subrange(0, 14) =~= identifier());
    assert(data.subrange(14, 18) =~= le_bytes(reserved));
    assert(data.subrange(18, 22) =~= le_bytes(n as u32));
    lemma_le_bytes_read_back(data, 14, reserved);
    lemma_le_bytes_read_back(data, 18, n as u32);
}

/// What an encoded container holds for sprite `i`: its offset in entry `i`
/// of the table, and its block at that offset.
pub proof fn lemma_encoded_slot(reserved: u32, sprites: Seq<SpriteView>, i: int)
    requires
        encodable(sprites),
        0 <= i < sprites.len(),
    ensures
        22 <= offset_of(sprites, i) <= u32::MAX,
        has_bytes(encoded(reserved, sprites), 22, 4 * sprites.len() as int),
        le_u32_at(encoded(reserved, sprites), 22 + 4 * i) == offset_of(sprites, i),
        holds_at(encoded(reserved, sprites), offset_of(sprites, i), block_of(sprites[i])),
{
    let data = encoded(reserved, sprites);
    let n = sprites.len() as int;
    let head = identifier() + le_bytes(reserved) + le_bytes(n as u32);
    let table = table_upto(sprites, n);
    let blocks = blocks_upto(sprites, n);
    let word = le_bytes(offset_of(sprites, i) as u32);
    lemma_identifier_is_text();
    lemma_table_len(sprites, n);
    lemma_blocks_hold(sprites, i, n);
    lemma_table_holds(sprites, i, n);
    assert(head.len() == 22);
    assert(data == head + table + blocks);
    lemma_holds_in_back(head, table, 4 * i, word);
    lemma_holds_in_front(head + table, blocks, 22 + 4 * i, word);
    lemma_le_bytes_read_back(data, 22 + 4 * i, offset_of(sprites, i) as u32);
    lemma_holds_in_back(
        head + table,
        blocks,
        blocks_upto(sprites, i).len() as int,
        block_of(sprites[i]),
    );
}

/// True when `data` holds the block of every sprite at the offset that
/// `table` gives for it, which is the offset of its place in the layout.
pub open spec fn holds_blocks(data: Seq<u8>, table: Seq<u32>, sprites: Seq<SpriteView>) -> bool {
    &&& table.len() == sprites.len()
    &&& forall|i: int|
        0 <= i < sprites.len() ==> {
            &&& encodable_sprite(#[trigger] sprites[i])
            &&& table[i] != 0
            &&& table[i] == offset_of(sprites, i)
            &&& holds_at(data, table[i] as int, block_of(sprites[i]))
        }
}

/// Where a buffer holds the blocks of `sprites` as `table` says, the first
/// `upto` slots of the table decode to the first `upto` sprites, each in its
/// place.
pub proof fn lemma_slots_decode(
    data: Seq<u8>,
    file_number: u32,
    table: Seq<u32>,
    sprites: Seq<SpriteView>,
    upto: int,
)
    requires
        holds_blocks(data, table, sprites),
        0 <= upto <= sprites.len() <= u32::MAX,
    ensures
        decode_slots(data, file_number, table, upto) == Ok::<Seq<SpriteView>, Error>(
            placed(file_number, sprites).take(upto),
        ),
    decreases upto,
{
    let all = placed(file_number, sprites);
    if upto <= 0 {
        assert(all.take(0) =~= Seq::<SpriteView>::empty());
    } else {
        let i = upto - 1;
        lemma_slots_decode(data, file_number, table, sprites, i);
        assert(encodable_sprite(sprites[i]));
        lemma_block_decodes(data, file_number, i as u32, table[i], sprites[i]);
        assert(all.take(upto) =~= all.take(i).push(all[i]));
    }
}

/// Decoding undoes encoding: a container laid out from sprites decodes to
/// those sprites, with the pixels and the header words they were laid out
/// from, each tagged with the file number, its slot and its offset.
pub proof fn lemma_round_trip(file_number: u32, reserved: u32, sprites: Seq<SpriteView>)
    requires
        encodable(sprites),
    ensures
        decode(file_number, encoded(reserved, sprites)) == Ok::<ContainerView, Error>(
            ContainerView { reserved, sprites: placed(file_number, sprites) },
        ),
{
    let data = encoded(reserved, sprites);
    let n = sprites.len() as int;
    let table = Seq::new(sprites.len(), |i: int| le_u32_at(data, 22 + 4 * i));
    lemma_encoded_head(reserved, sprites);
    lemma_identifier_is_text();
    lemma_table_len(sprites, n);
    assert(has_bytes(data, 22, 4 * n));
    assert(directory_of(data) == Ok::<(u32, Seq<u32>), Error>((reserved, table))) by {
        assert(directory_of(data)->Ok_0.1 =~= table);
    }
    assert(holds_blocks(data, table, sprites)) by {
        assert forall|i: int| 0 <= i < sprites.len() implies {
            &&& encodable_sprite(#[trigger] sprites[i])
            &&& table[i] != 0
            &&& table[i] == offset_of(sprites, i)
            &&& holds_at(data, table[i] as int, block_of(sprites[i]))
        } by {
            lemma_encoded_slot(reserved, sprites, i);
        }
    }
    lemma_slots_decode(data, file_number, table, sprites, n);
    assert(placed(file_number, sprites).take(n) =~= placed(file_number, sprites));
}

} // verus!

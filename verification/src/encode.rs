//! The way back: writing sprites out as a container.
use crate::bytes::{i32_le_bytes, le_bytes, u32_le_bytes};
use crate::canvas::{zeros, SIZE_LIMIT};
use crate::layout::{
    block_of, blocks_upto, encodable, encodable_sprite, encoded, header_bytes, lemma_block_len,
    lemma_blocks_grow, lemma_row_addresses, lemma_rows_then_rest, move_x_bytes, next_line_bytes,
    offset_of, paint_bytes, row_stream, rows_upto, stream_from, table_upto,
};
use crate::opcode::{OP_END, OP_MOVE_X, OP_NEXT_LINE, OP_PAINT};
use crate::rle::identifier;
use crate::sprite::{views_of, Sprite};
use vstd::prelude::*;
use vstd::slice::slice_subrange;

verus! {

/// Appends the bytes of `src` to `out`.
fn push_bytes(out: &mut Vec<u8>, src: &[u8])
    ensures
        final(out)@ == old(out)@ + src@,
{
    let ghost before = out@;
    let mut i: usize = 0;
    assert(out@ =~= before + src@.take(0));
    while i < src.len()
        invariant
            i <= src@.len(),
            out@ == before + src@.take(i as int),
        decreases src@.len() - i,
    {
        out.push(src[i]);
        i = i + 1;
        assert(out@ =~= before + src@.take(i as int));
    }
    assert(src@.take(i as int) =~= src@);
}

/// Appends the four bytes of `v`, least significant first.
fn push_word(out: &mut Vec<u8>, v: u32)
    ensures
        final(out)@ == old(out)@ + le_bytes(v),
{
    let word = u32_le_bytes(v);
    push_bytes(out, word.as_slice());
}

/// Appends the identifier.
fn push_identifier(out: &mut Vec<u8>)
    ensures
        final(out)@ == old(out)@ + identifier(),
{
    let id: [u8; 14] = [
        0x52, 0x65, 0x73, 0x6f, 0x75, 0x72, 0x63, 0x65, 0x20, 0x46, 0x69, 0x6c, 0x65, 0x00,
    ];
    assert(id@ =~= identifier());
    push_bytes(out, id.as_slice());
}

/// Appends a paint opcode for the `count` pixels of `pixels` that start at
/// byte `from`.
fn push_paint(out: &mut Vec<u8>, count: u32, pixels: &Vec<u8>, from: usize)
    requires
        from + 2 * count <= pixels@.len(),
    ensures
        final(out)@ == old(out)@ + paint_bytes(
            count,
            pixels@.subrange(from as int, from + 2 * count),
        ),
{
    let ghost before = out@;
    let len: usize = pixels.len();
    out.push(OP_PAINT);
    push_word(out, count);
    let upto: usize = from + 2 * (count as usize);
    push_bytes(out, slice_subrange(pixels.as_slice(), from, upto));
    assert(out@ =~= before + paint_bytes(count, pixels@.subrange(from as int, from + 2 * count)));
}

/// Appends a Next-line opcode.
fn push_next_line(out: &mut Vec<u8>)
    ensures
        final(out)@ == old(out)@ + next_line_bytes(),
{
    let ghost before = out@;
    out.push(OP_NEXT_LINE);
    assert(out@ =~= before + next_line_bytes());
}

/// Appends a Move-X opcode by `byte_delta` bytes.
fn push_move_x(out: &mut Vec<u8>, byte_delta: i32)
    ensures
        final(out)@ == old(out)@ + move_x_bytes(byte_delta),
{
    let ghost before = out@;
    out.push(OP_MOVE_X);
    let word = i32_le_bytes(byte_delta);
    push_bytes(out, word.as_slice());
    assert(out@ =~= before + move_x_bytes(byte_delta));
}

/// Appends the opcode stream that paints `pixels` row by row.
fn push_stream(out: &mut Vec<u8>, pixels: &Vec<u8>, width: u32, height: u32)
    requires
        width < SIZE_LIMIT,
        height < SIZE_LIMIT,
        pixels@.len() == width * height * 2,
    ensures
        final(out)@ == old(out)@ + stream_from(pixels@, width, height, 0),
{
    let ghost before = out@;
    let mut row: u32 = 0;
    assert(out@ =~= before + rows_upto(pixels@, width, 0));
    while row < height
        invariant
            row <= height,
            width < SIZE_LIMIT,
            height < SIZE_LIMIT,
            pixels@.len() == width * height * 2,
            out@ == before + rows_upto(pixels@, width, row as int),
        decreases height - row,
    {
        proof {
            lemma_row_addresses(width, height, row as int);
            lemma_row_addresses(width, height, row + 1);
        }
        let ghost earlier = out@;
        let len: usize = pixels.len();
        let from: usize = (row as usize) * 2 * (width as usize);
        push_paint(out, width, pixels, from);
        push_next_line(out);
        push_move_x(out, -2 * (width as i32));
        row = row + 1;
        assert(out@ =~= earlier + row_stream(pixels@, width, row - 1));
        assert(out@ =~= before + rows_upto(pixels@, width, row as int));
    }
    out.push(OP_END);
    proof {
        lemma_rows_then_rest(pixels@, width, height, height as int);
        assert(out@ =~= before + (rows_upto(pixels@, width, height as int) + seq![OP_END]));
    }
}

/// Appends the block of a sprite: its header and its stream.
fn push_block(out: &mut Vec<u8>, sprite: &Sprite)
    requires
        encodable_sprite(sprite@),
    ensures
        final(out)@ == old(out)@ + block_of(sprite@),
{
    let ghost before = out@;
    push_word(out, sprite.length);
    push_word(out, sprite.offset_x);
    push_word(out, sprite.offset_y);
    push_word(out, sprite.width);
    push_word(out, sprite.height);
    push_word(out, sprite.reserved_1);
    push_word(out, sprite.reserved_2);
    push_word(out, sprite.reserved_3);
    push_word(out, sprite.reserved_4);
    assert(out@ =~= before + header_bytes(sprite@));
    if !sprite.is_sentinel() {
        push_stream(out, &sprite.pixels, sprite.width, sprite.height);
    }
    assert(out@ =~= before + block_of(sprite@));
}

/// Says whether a sprite can stand in a container.
pub fn can_encode(sprite: &Sprite) -> (b: bool)
    ensures
        b == encodable_sprite(sprite@),
{
    if sprite.is_sentinel() {
        let fits = sprite.pixels.len() == 2 && sprite.pixels[0] == 0 && sprite.pixels[1] == 0;
        assert(fits == (sprite.pixels@ =~= zeros(2)));
        fits
    } else {
        assert(sprite.width * sprite.height * 2 <= 7999 * 7999 * 2) by (nonlinear_arith)
            requires
                0 <= sprite.width < 8000,
                0 <= sprite.height < 8000,
        ;
        assert(0 <= sprite.width * sprite.height) by (nonlinear_arith)
            requires
                0 <= sprite.width,
                0 <= sprite.height,
        ;
        let wanted: usize = (sprite.width as usize) * (sprite.height as usize) * 2;
        sprite.pixels.len() == wanted
    }
}

/// The length of the block of a sprite.
fn block_size(sprite: &Sprite) -> (n: u64)
    requires
        encodable_sprite(sprite@),
    ensures
        n == block_of(sprite@).len(),
        n <= 0x1000_0000,
{
    proof {
        lemma_block_len(sprite@);
    }
    if sprite.is_sentinel() {
        36
    } else {
        assert(0 <= sprite.height * (2 * sprite.width + 11) <= 7999 * 16009) by (nonlinear_arith)
            requires
                0 <= sprite.width < 8000,
                0 <= sprite.height < 8000,
        ;
        37 + (sprite.height as u64) * (2 * (sprite.width as u64) + 11)
    }
}

/// Where the block of each sprite starts, if the sprites can stand in one
/// container.
fn offsets_for(sprites: &Vec<Sprite>) -> (r: Option<Vec<u32>>)
    ensures
        match r {
            Some(offsets) => {
                &&& encodable(views_of(sprites@))
                &&& offsets@.len() == sprites@.len()
                &&& forall|i: int|
                    0 <= i < offsets@.len() ==> #[trigger] offsets@[i] == offset_of(
                        views_of(sprites@),
                        i,
                    )
            },
            None => !encodable(views_of(sprites@)),
        },
{
    let ghost views = views_of(sprites@);
    let n = sprites.len();
    proof {
        lemma_blocks_grow(views, 0, n as int);
    }
    if n > 0x3fff_ffff {
        return None;
    }
    let mut at: u64 = 22 + 4 * (n as u64);
    if at > 0xffff_ffff {
        return None;
    }
    let mut offsets: Vec<u32> = Vec::new();
    let mut i: usize = 0;
    while i < n
        invariant
            i <= n,
            n == sprites@.len(),
            n <= 0x3fff_ffff,
            views == views_of(sprites@),
            at == offset_of(views, i as int),
            at <= u32::MAX,
            offsets@.len() == i,
            forall|j: int| 0 <= j < i ==> encodable_sprite(#[trigger] views[j]),
            forall|j: int| 0 <= j < i ==> #[trigger] offsets@[j] == offset_of(views, j),
        decreases n - i,
    {
        let sprite = &sprites[i];
        assert(views[i as int] == sprite@);
        if !can_encode(sprite) {
            return None;
        }
        offsets.push(at as u32);
        at = at + block_size(sprite);
        i = i + 1;
        if at > 0xffff_ffff {
            proof {
                lemma_blocks_grow(views, i as int, n as int);
            }
            return None;
        }
    }
    Some(offsets)
}

/// Lays `sprites` out as a container, one slot each and in their order, with
/// `reserved` as its reserved word.
///
/// Each sprite gives its header words and its pixels; its `file_number`,
/// `index` and `offset` play no part. The pixels of a sprite are written as a
/// paint run, a Next-line and a Move-X per row; a sentinel is written as its
/// header alone. Returns `None` where a sprite has a pixel buffer of the wrong
/// length, where a sentinel holds anything but the blank placeholder, or where
/// the container would grow past what a 32-bit offset can address.
pub fn encode(reserved: u32, sprites: &Vec<Sprite>) -> (r: Option<Vec<u8>>)
    ensures
        match r {
            Some(bytes) => encodable(views_of(sprites@)) && bytes@ == encoded(
                reserved,
                views_of(sprites@),
            ),
            None => !encodable(views_of(sprites@)),
        },
{
    let ghost views = views_of(sprites@);
    let offsets = match offsets_for(sprites) {
        Some(offsets) => offsets,
        None => {
            return None;
        },
    };
    let n = sprites.len();
    proof {
        lemma_blocks_grow(views, 0, n as int);
    }
    let mut out: Vec<u8> = Vec::new();
    push_identifier(&mut out);
    push_word(&mut out, reserved);
    push_word(&mut out, n as u32);
    let ghost head = identifier() + le_bytes(reserved) + le_bytes(n as u32);
    assert(out@ =~= head + table_upto(views, 0));
    let mut i: usize = 0;
    while i < n
        invariant
            i <= n,
            n == sprites@.len(),
            offsets@.len() == n,
            views == views_of(sprites@),
            forall|j: int| 0 <= j < n ==> #[trigger] offsets@[j] == offset_of(views, j),
            out@ == head + table_upto(views, i as int),
        decreases n - i,
    {
        push_word(&mut out, offsets[i]);
        i = i + 1;
        assert(out@ =~= head + table_upto(views, i as int));
    }
    let ghost front = out@;
    assert(out@ =~= front + blocks_upto(views, 0));
    let mut i: usize = 0;
    while i < n
        invariant
            i <= n,
            n == sprites@.len(),
            views == views_of(sprites@),
            encodable(views),
            out@ == front + blocks_upto(views, i as int),
        decreases n - i,
    {
        let sprite = &sprites[i];
        assert(views[i as int] == sprite@);
        push_block(&mut out, sprite);
        i = i + 1;
        assert(out@ =~= front + blocks_upto(views, i as int));
    }
    Some(out)
}

} // verus!

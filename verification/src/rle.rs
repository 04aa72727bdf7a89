//! The container format: identifier, offset table, sprite headers, and the
//! decoder that reads them.
use crate::bytes::{has_bytes, le_u32_at};
use crate::canvas::{blank_canvas, is_sentinel, new_canvas, zeros, SIZE_LIMIT};
use crate::error::Error;
use crate::opcode::{end_of, lemma_canvas_keeps_length, outcome_of, run, Machine};
use crate::reader::Reader;
use crate::sprite::{views_of, Container, ContainerView, Sprite, SpriteView};
use vstd::prelude::*;
use vstd::slice::slice_subrange;
use vstd::utf8::{
    is_leading_byte_width_1, partial_valid_utf8, partial_valid_utf8_extend_ascii_block, valid_utf8,
};

verus! {

/// The length of the identifier that every container starts with.
pub const IDENTIFIER_LEN: usize = 14;

/// The length of a sprite's header: nine 32-bit words.
pub const HEADER_LEN: usize = 36;

/// The identifier: the ASCII text `Resource File` and a zero byte.
pub open spec fn identifier() -> Seq<u8> {
    seq![
        0x52u8, 0x65, 0x73, 0x6f, 0x75, 0x72, 0x63, 0x65, 0x20, 0x46, 0x69, 0x6c, 0x65, 0x00,
    ]
}

/// Whether `data` starts with the identifier, and how it fails where it does
/// not.
pub open spec fn identifier_check(data: Seq<u8>) -> Result<(), Error> {
    if data.len() < IDENTIFIER_LEN {
        Err(Error::MissingIdentifier)
    } else if !valid_utf8(data.subrange(0, IDENTIFIER_LEN as int)) {
        Err(Error::InvalidIdentifierEncoding)
    } else if data.subrange(0, IDENTIFIER_LEN as int) != identifier() {
        Err(Error::MissingIdentifier)
    } else {
        Ok(())
    }
}

/// The reserved word and the offset table that follow the identifier: a
/// count at position 18 and that many offsets from position 22 on.
pub open spec fn directory_of(data: Seq<u8>) -> Result<(u32, Seq<u32>), Error> {
    if !has_bytes(data, 14, 8) {
        Err(Error::Truncated)
    } else {
        let count = le_u32_at(data, 18);
        if !has_bytes(data, 22, 4 * count) {
            Err(Error::Truncated)
        } else {
            Ok((le_u32_at(data, 14), Seq::new(count as nat, |i: int| le_u32_at(data, 22 + 4 * i))))
        }
    }
}

/// The sprite whose header stands at `offset`, with the given pixels.
pub open spec fn sprite_at(
    data: Seq<u8>,
    file_number: u32,
    index: u32,
    offset: u32,
    pixels: Seq<u8>,
) -> SpriteView {
    SpriteView {
        file_number,
        index,
        offset,
        length: le_u32_at(data, offset + 0),
        offset_x: le_u32_at(data, offset + 4),
        offset_y: le_u32_at(data, offset + 8),
        width: le_u32_at(data, offset + 12),
        height: le_u32_at(data, offset + 16),
        reserved_1: le_u32_at(data, offset + 20),
        reserved_2: le_u32_at(data, offset + 24),
        reserved_3: le_u32_at(data, offset + 28),
        reserved_4: le_u32_at(data, offset + 32),
        pixels,
    }
}

/// The sprite that slot `index` of the table leads to at `offset`.
///
/// A sentinel keeps its blank two-byte placeholder and nothing after its
/// header is looked at. Any other sprite has the pixels that the opcode
/// stream after its header paints onto a blank canvas.
pub open spec fn decode_sprite(data: Seq<u8>, file_number: u32, index: u32, offset: u32) -> Result<
    SpriteView,
    Error,
> {
    if !has_bytes(data, offset as int, HEADER_LEN as int) {
        Err(Error::Truncated)
    } else {
        let width = le_u32_at(data, offset + 12);
        let height = le_u32_at(data, offset + 16);
        let blank = blank_canvas(width, height);
        if is_sentinel(width, height) {
            Ok(sprite_at(data, file_number, index, offset, blank))
        } else {
            let first = Machine { pos: offset + HEADER_LEN, x: 0, y: 0, canvas: blank };
            match outcome_of(data, width as int, first) {
                Ok(pixels) => Ok(sprite_at(data, file_number, index, offset, pixels)),
                Err(e) => Err(e),
            }
        }
    }
}

/// Where reading stops behind the sprite at `offset`: behind the header of a
/// sentinel, whose stream is not looked at, and behind the end opcode of any
/// other sprite.
pub open spec fn sprite_end(data: Seq<u8>, offset: u32) -> int {
    let width = le_u32_at(data, offset + 12);
    let height = le_u32_at(data, offset + 16);
    if is_sentinel(width, height) {
        offset + HEADER_LEN
    } else {
        end_of(
            data,
            width as int,
            Machine { pos: offset + HEADER_LEN, x: 0, y: 0, canvas: blank_canvas(width, height) },
        )
    }
}

/// The sprites of the first `upto` slots of `table`, in table order, or the
/// failure of the first slot that fails. A slot that holds 0 gives no sprite.
pub open spec fn decode_slots(data: Seq<u8>, file_number: u32, table: Seq<u32>, upto: int) -> Result<
    Seq<SpriteView>,
    Error,
>
    decreases upto,
{
    if upto <= 0 {
        Ok(Seq::empty())
    } else {
        match decode_slots(data, file_number, table, upto - 1) {
            Err(e) => Err(e),
            Ok(sprites) => if table[upto - 1] == 0 {
                Ok(sprites)
            } else {
                match decode_sprite(data, file_number, (upto - 1) as u32, table[upto - 1]) {
                    Ok(sprite) => Ok(sprites.push(sprite)),
                    Err(e) => Err(e),
                }
            },
        }
    }
}

/// What a buffer decodes to: its container, or the first failure met.
pub open spec fn decode(file_number: u32, data: Seq<u8>) -> Result<ContainerView, Error> {
    match identifier_check(data) {
        Err(e) => Err(e),
        Ok(_) => match directory_of(data) {
            Err(e) => Err(e),
            Ok((reserved, table)) => match decode_slots(
                data,
                file_number,
                table,
                table.len() as int,
            ) {
                Err(e) => Err(e),
                Ok(sprites) => Ok(ContainerView { reserved, sprites }),
            },
        },
    }
}

/// The identifier is valid text: each of its bytes is an ASCII character.
pub proof fn lemma_identifier_is_text()
    ensures
        identifier().len() == IDENTIFIER_LEN,
        valid_utf8(identifier()),
{
    let id = identifier();
    assert(id.subrange(0, 0) =~= Seq::<u8>::empty());
    assert(valid_utf8(id.subrange(0, 0)));
    assert(partial_valid_utf8(id, 0));
    assert forall|i: int| 0 <= i < 14 implies #[trigger] is_leading_byte_width_1(id[i]) by {}
    partial_valid_utf8_extend_ascii_block(id, 0, 14);
    assert(id.subrange(0, 14) =~= id);
}

/// A failure among the first slots of a table is the failure of every longer
/// run of slots.
pub proof fn lemma_failure_is_final(
    data: Seq<u8>,
    file_number: u32,
    table: Seq<u32>,
    failed: int,
    upto: int,
)
    requires
        failed <= upto,
        decode_slots(data, file_number, table, failed) is Err,
    ensures
        decode_slots(data, file_number, table, upto) == decode_slots(
            data,
            file_number,
            table,
            failed,
        ),
    decreases upto - failed,
{
    if failed < upto {
        lemma_failure_is_final(data, file_number, table, failed, upto - 1);
    }
}

/// What holds of the sprites decoded from the first `upto` slots of a table:
/// each sits in a slot that holds its offset, a non-zero one, and carries the
/// file number; the sprites stand in the order of their slots; and every slot
/// with a non-zero offset has its sprite.
pub open spec fn keeps_slots(
    file_number: u32,
    table: Seq<u32>,
    upto: int,
    sprites: Seq<SpriteView>,
) -> bool {
    &&& forall|k: int|
        0 <= k < sprites.len() ==> {
            &&& 0 <= (#[trigger] sprites[k]).index < upto
            &&& table[sprites[k].index as int] != 0
            &&& sprites[k].offset == table[sprites[k].index as int]
            &&& sprites[k].file_number == file_number
        }
    &&& forall|j: int, k: int|
        0 <= j < k < sprites.len() ==> (#[trigger] sprites[j]).index < (#[trigger] sprites[k]).index
    &&& forall|i: int|
        0 <= i < upto && #[trigger] table[i] != 0 ==> exists|k: int|
            0 <= k < sprites.len() && (#[trigger] sprites[k]).index == i
}

/// A decoded sprite has a pixel buffer of two bytes per pixel, or of two
/// bytes in all where it is a sentinel.
pub proof fn lemma_decoded_sprite_well_formed(
    data: Seq<u8>,
    file_number: u32,
    index: u32,
    offset: u32,
)
    ensures
        decode_sprite(data, file_number, index, offset) matches Ok(sprite) ==> {
            &&& sprite.well_formed()
            &&& sprite.file_number == file_number
            &&& sprite.index == index
            &&& sprite.offset == offset
        },
{
    if has_bytes(data, offset as int, HEADER_LEN as int) {
        let width = le_u32_at(data, offset + 12);
        let height = le_u32_at(data, offset + 16);
        assert(0 <= width * height * 2) by (nonlinear_arith)
            requires
                0 <= width,
                0 <= height,
        ;
        let first = Machine {
            pos: offset + HEADER_LEN,
            x: 0,
            y: 0,
            canvas: blank_canvas(width, height),
        };
        lemma_canvas_keeps_length(data, width as int, first);
    }
}

/// Slots that hold 0 give no sprite, and every other slot keeps its place:
/// the sprite decoded from slot `i` has `index == i`, whatever stands in the
/// slots before it.
pub proof fn lemma_slots_keep_their_index(
    data: Seq<u8>,
    file_number: u32,
    table: Seq<u32>,
    upto: int,
)
    requires
        0 <= upto <= table.len() <= 0x1_0000_0000,
        decode_slots(data, file_number, table, upto) is Ok,
    ensures
        keeps_slots(file_number, table, upto, decode_slots(data, file_number, table, upto)->Ok_0),
        forall|k: int|
            0 <= k < decode_slots(data, file_number, table, upto)->Ok_0.len() ==> (
            #[trigger] decode_slots(data, file_number, table, upto)->Ok_0[k]).well_formed(),
    decreases upto,
{
    if upto > 0 {
        lemma_slots_keep_their_index(data, file_number, table, upto - 1);
        let earlier = decode_slots(data, file_number, table, upto - 1)->Ok_0;
        let sprites = decode_slots(data, file_number, table, upto)->Ok_0;
        if table[upto - 1] != 0 {
            lemma_decoded_sprite_well_formed(data, file_number, (upto - 1) as u32, table[upto - 1]);
            let last = decode_sprite(data, file_number, (upto - 1) as u32, table[upto - 1])->Ok_0;
            assert(sprites == earlier.push(last));
            assert forall|i: int| 0 <= i < upto && #[trigger] table[i] != 0 implies exists|k: int|
                0 <= k < sprites.len() && (#[trigger] sprites[k]).index == i by {
                if i == upto - 1 {
                    assert(sprites[earlier.len() as int].index == i);
                } else {
                    let k = choose|k: int| 0 <= k < earlier.len() && (#[trigger] earlier[k]).index == i;
                    assert(sprites[k].index == i);
                }
            }
        } else {
            assert(sprites == earlier);
        }
    }
}

/// Of a buffer that decodes: the sprites of its container are those of the
/// non-zero slots of its offset table, each under the index of its slot, in
/// table order, and each well formed.
pub proof fn lemma_decoded_container(file_number: u32, data: Seq<u8>)
    requires
        decode(file_number, data) is Ok,
    ensures
        directory_of(data) is Ok,
        decode(file_number, data)->Ok_0.reserved == le_u32_at(data, 14),
        keeps_slots(
            file_number,
            directory_of(data)->Ok_0.1,
            directory_of(data)->Ok_0.1.len() as int,
            decode(file_number, data)->Ok_0.sprites,
        ),
        forall|k: int|
            0 <= k < decode(file_number, data)->Ok_0.sprites.len() ==> (#[trigger] decode(
                file_number,
                data,
            )->Ok_0.sprites[k]).well_formed(),
{
    let table = directory_of(data)->Ok_0.1;
    lemma_slots_keep_their_index(data, file_number, table, table.len() as int);
}

/// A sprite whose width or height reaches the size limit decodes to the
/// two-byte placeholder from its header alone: whatever follows the header,
/// in this buffer or in any other with the same header at `offset`, plays no
/// part.
pub proof fn lemma_sentinel_reads_header_only(
    data: Seq<u8>,
    other: Seq<u8>,
    file_number: u32,
    index: u32,
    offset: u32,
)
    requires
        has_bytes(data, offset as int, HEADER_LEN as int),
        is_sentinel(le_u32_at(data, offset + 12), le_u32_at(data, offset + 16)),
        has_bytes(other, offset as int, HEADER_LEN as int),
        other.subrange(offset as int, offset + HEADER_LEN) == data.subrange(
            offset as int,
            offset + HEADER_LEN,
        ),
    ensures
        decode_sprite(data, file_number, index, offset) == Ok::<SpriteView, Error>(
            sprite_at(data, file_number, index, offset, seq![0u8, 0u8]),
        ),
        decode_sprite(other, file_number, index, offset) == decode_sprite(
            data,
            file_number,
            index,
            offset,
        ),
{
    let a = data.subrange(offset as int, offset + HEADER_LEN);
    let b = other.subrange(offset as int, offset + HEADER_LEN);
    assert forall|j: int| offset <= j < offset + HEADER_LEN implies #[trigger] data[j]
        == other[j] by {
        assert(a[j - offset] == data[j]);
        assert(b[j - offset] == other[j]);
    }
    assert(zeros(2) =~= seq![0u8, 0u8]);
}

/// Checks that `data` starts with the identifier.
pub fn check_identifier(data: &[u8]) -> (r: Result<(), Error>)
    ensures
        r == identifier_check(data@),
{
    if data.len() < IDENTIFIER_LEN {
        return Err(Error::MissingIdentifier);
    }
    let head = slice_subrange(data, 0, IDENTIFIER_LEN);
    if core::str::from_utf8(head).is_err() {
        return Err(Error::InvalidIdentifierEncoding);
    }
    let expected: [u8; 14] = [
        0x52, 0x65, 0x73, 0x6f, 0x75, 0x72, 0x63, 0x65, 0x20, 0x46, 0x69, 0x6c, 0x65, 0x00,
    ];
    assert(expected@ =~= identifier());
    let mut i: usize = 0;
    while i < IDENTIFIER_LEN
        invariant
            i <= IDENTIFIER_LEN,
            data@.len() >= IDENTIFIER_LEN,
            head@ == data@.subrange(0, IDENTIFIER_LEN as int),
            valid_utf8(head@),
            expected@ == identifier(),
            forall|j: int| 0 <= j < i ==> head@[j] == expected@[j],
        decreases IDENTIFIER_LEN - i,
    {
        if head[i] != expected[i] {
            return Err(Error::MissingIdentifier);
        }
        i = i + 1;
    }
    assert(head@ =~= identifier());
    Ok(())
}

/// Reads the reserved word and the offset table of a container whose
/// identifier has been checked.
pub fn read_directory(data: &[u8]) -> (r: Result<(u32, Vec<u32>), Error>)
    ensures
        directory_of(data@) == match r {
            Ok(d) => Ok::<(u32, Seq<u32>), Error>((d.0, d.1@)),
            Err(e) => Err(e),
        },
{
    let mut reader = Reader::new(data);
    reader.seek(14);
    let reserved = reader.read_u32()?;
    let count = reader.read_u32()?;
    let mut table: Vec<u32> = Vec::new();
    let mut i: u32 = 0;
    while i < count
        invariant
            reader.data == data,
            i <= count,
            count == le_u32_at(data@, 18),
            reader.pos == 22 + 4 * i,
            has_bytes(data@, 22, 4 * i),
            table@ == Seq::new(i as nat, |j: int| le_u32_at(data@, 22 + 4 * j)),
        decreases count - i,
    {
        let offset = reader.read_u32()?;
        table.push(offset);
        i = i + 1;
        assert(table@ =~= Seq::new(i as nat, |j: int| le_u32_at(data@, 22 + 4 * j)));
    }
    Ok((reserved, table))
}

/// Reads the sprite of slot `index`, whose header stands at `offset`: the
/// header, then the canvas, then the opcode stream that paints it. Of a
/// sentinel only the header is read.
pub fn read_sprite(reader: &mut Reader<'_>, file_number: u32, index: u32, offset: u32) -> (r:
    Result<Sprite, Error>)
    ensures
        final(reader).data == old(reader).data,
        decode_sprite(old(reader).data@, file_number, index, offset) == match r {
            Ok(sprite) => Ok::<SpriteView, Error>(sprite@),
            Err(e) => Err(e),
        },
        r is Ok ==> final(reader).pos == sprite_end(old(reader).data@, offset),
{
    reader.seek(offset);
    let length = reader.read_u32()?;
    let offset_x = reader.read_u32()?;
    let offset_y = reader.read_u32()?;
    let width = reader.read_u32()?;
    let height = reader.read_u32()?;
    let reserved_1 = reader.read_u32()?;
    let reserved_2 = reader.read_u32()?;
    let reserved_3 = reader.read_u32()?;
    let reserved_4 = reader.read_u32()?;
    let blank = new_canvas(width, height);
    let pixels = if width < SIZE_LIMIT && height < SIZE_LIMIT {
        run(reader, width, blank)?
    } else {
        blank
    };
    Ok(
        Sprite {
            file_number,
            index,
            offset,
            length,
            offset_x,
            offset_y,
            width,
            height,
            reserved_1,
            reserved_2,
            reserved_3,
            reserved_4,
            pixels,
        },
    )
}

/// Decodes a container: every sprite that its offset table leads to, in
/// table order, each tagged with `file_number` and its slot.
///
/// The result is all or nothing: the first malformed record fails the whole
/// container.
pub fn parse_rle(file_number: u32, data: &[u8]) -> (r: Result<Container, Error>)
    ensures
        decode(file_number, data@) == match r {
            Ok(container) => Ok::<ContainerView, Error>(container@),
            Err(e) => Err(e),
        },
{
    check_identifier(data)?;
    let (reserved, table) = read_directory(data)?;
    let mut reader = Reader::new(data);
    let mut sprites: Vec<Sprite> = Vec::new();
    let mut i: usize = 0;
    assert(views_of(sprites@) =~= Seq::empty());
    while i < table.len()
        invariant
            reader.data == data,
            i <= table.len(),
            identifier_check(data@) is Ok,
            directory_of(data@) == Ok::<(u32, Seq<u32>), Error>((reserved, table@)),
            decode_slots(data@, file_number, table@, i as int) == Ok::<Seq<SpriteView>, Error>(
                views_of(sprites@),
            ),
        decreases table.len() - i,
    {
        let offset = table[i];
        if offset != 0 {
            let sprite = match read_sprite(&mut reader, file_number, i as u32, offset) {
                Ok(sprite) => sprite,
                Err(e) => {
                    proof {
                        lemma_failure_is_final(
                            data@,
                            file_number,
                            table@,
                            i + 1,
                            table@.len() as int,
                        );
                    }
                    return Err(e);
                },
            };
            let ghost earlier = views_of(sprites@);
            let ghost added = sprite@;
            sprites.push(sprite);
            assert(views_of(sprites@) =~= earlier.push(added));
        }
        i = i + 1;
    }
    Ok(Container { reserved, sprites })
}

/// Turns a packed pixel of five red, six green and five blue bits, red
/// uppermost, into one byte per channel: each channel is scaled from its own
/// range to `0..=255` and rounded down.
pub fn format_r5g6b5_norm(d: u16) -> (rgb: (u8, u8, u8))
    ensures
        rgb.0 == (d / 2048) * 255 / 31,
        rgb.1 == ((d / 32) % 64) * 255 / 63,
        rgb.2 == (d % 32) * 255 / 31,
{
    let blue: u16 = d & 0x1F;
    let green: u16 = (d >> 5) & 0x3F;
    let red: u16 = (d >> 11) & 0x1F;
    assert(blue == d % 32 && green == (d / 32) % 64 && red == d / 2048) by (bit_vector)
        requires
            blue == d & 0x1F,
            green == (d >> 5) & 0x3F,
            red == (d >> 11) & 0x1F,
    ;
    let r: u16 = red * 255 / 31;
    let g: u16 = green * 255 / 63;
    let b: u16 = blue * 255 / 31;
    (r as u8, g as u8, b as u8)
}

} // verus!

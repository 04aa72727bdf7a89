//! The opcode interpreter: a small machine that reads a sprite's opcode stream
//! and paints its canvas.
use crate::bytes::{has_bytes, le_i32_at, le_u32_at};
use crate::canvas::{address_of, in_canvas, overwrite, put_pixel, room_at};
use crate::error::Error;
use crate::reader::Reader;
use vstd::prelude::*;

verus! {

/// Ends the stream of a sprite.
pub const OP_END: u8 = 0x00;

/// Paints a run of pixels; followed by a pixel count and two bytes per pixel.
pub const OP_PAINT: u8 = 0x01;

/// Moves the pen along its row; followed by a signed distance in bytes.
pub const OP_MOVE_X: u8 = 0x02;

/// Moves the pen down one row.
pub const OP_NEXT_LINE: u8 = 0x03;

/// Half of `d`, rounded toward zero.
pub open spec fn half_toward_zero(d: int) -> int {
    if d >= 0 {
        d / 2
    } else {
        -((-d) / 2)
    }
}

/// The interpreter between two opcodes: where it reads next, where the pen
/// stands, and what has been painted so far.
pub struct Machine {
    pub pos: int,
    pub x: int,
    pub y: int,
    pub canvas: Seq<u8>,
}

/// What one opcode does to the machine.
pub enum Step {
    /// The machine goes on from this state.
    Continue(Machine),
    /// The stream has ended; this is the finished canvas.
    Finished(Seq<u8>),
    /// The stream is malformed.
    Failed(Error),
}

/// What a paint opcode at `m.pos` does.
///
/// The count that follows the opcode says how many pixels to copy from the
/// stream to the canvas, starting at the pen's address. Pixels are taken one
/// by one, so the run fails at the first pixel that the stream does not hold
/// or that the canvas has no room for, whichever comes first.
pub open spec fn paint_of(data: Seq<u8>, width: int, m: Machine) -> Step {
    if !has_bytes(data, m.pos + 1, 4) {
        Step::Failed(Error::Truncated)
    } else {
        let count = le_u32_at(data, m.pos + 1) as int;
        let src = m.pos + 5;
        let addr = address_of(m.x, m.y, width);
        let held = (data.len() - src) / 2;
        let room = room_at(m.canvas, addr);
        if count <= held && count <= room {
            Step::Continue(
                Machine {
                    pos: src + 2 * count,
                    x: m.x + count,
                    y: m.y,
                    canvas: overwrite(m.canvas, addr, data.subrange(src, src + 2 * count)),
                },
            )
        } else if held <= room {
            Step::Failed(Error::Truncated)
        } else {
            Step::Failed(Error::PaintOutOfBounds(m.pos as u64))
        }
    }
}

/// What the opcode at `m.pos` does.
pub open spec fn step_of(data: Seq<u8>, width: int, m: Machine) -> Step {
    if !has_bytes(data, m.pos, 1) {
        Step::Failed(Error::Truncated)
    } else if data[m.pos] == OP_END {
        Step::Finished(m.canvas)
    } else if data[m.pos] == OP_PAINT {
        paint_of(data, width, m)
    } else if data[m.pos] == OP_MOVE_X {
        if !has_bytes(data, m.pos + 1, 4) {
            Step::Failed(Error::Truncated)
        } else {
            Step::Continue(
                Machine {
                    pos: m.pos + 5,
                    x: m.x + half_toward_zero(le_i32_at(data, m.pos + 1) as int),
                    y: m.y,
                    canvas: m.canvas,
                },
            )
        }
    } else if data[m.pos] == OP_NEXT_LINE {
        Step::Continue(Machine { pos: m.pos + 1, x: m.x, y: m.y + 1, canvas: m.canvas })
    } else {
        Step::Failed(Error::UnknownOpcode(m.pos as u64))
    }
}

/// The canvas that the stream paints when run from `m` to its end opcode, or
/// the failure that stops it.
pub open spec fn outcome_of(data: Seq<u8>, width: int, m: Machine) -> Result<Seq<u8>, Error>
    decreases data.len() - m.pos,
{
    match step_of(data, width, m) {
        Step::Finished(canvas) => Ok(canvas),
        Step::Failed(e) => Err(e),
        Step::Continue(next) => outcome_of(data, width, next),
    }
}

/// Where the machine stands when the stream has ended: behind its end
/// opcode. Of a stream that fails, this says nothing.
pub open spec fn end_of(data: Seq<u8>, width: int, m: Machine) -> int
    decreases data.len() - m.pos,
{
    match step_of(data, width, m) {
        Step::Finished(_) => m.pos + 1,
        Step::Failed(_) => m.pos,
        Step::Continue(next) => end_of(data, width, next),
    }
}

/// Every opcode but the end opcode moves the machine forward in the buffer,
/// and no opcode changes how long the canvas is.
pub proof fn lemma_step_advances(data: Seq<u8>, width: int, m: Machine)
    ensures
        step_of(data, width, m) matches Step::Continue(next) ==> {
            &&& m.pos < next.pos <= data.len()
            &&& next.canvas.len() == m.canvas.len()
        },
        step_of(data, width, m) matches Step::Finished(canvas) ==> canvas == m.canvas,
{
}

/// The canvas that a stream paints is as long as the canvas it started on.
pub proof fn lemma_canvas_keeps_length(data: Seq<u8>, width: int, m: Machine)
    ensures
        outcome_of(data, width, m) matches Ok(canvas) ==> canvas.len() == m.canvas.len(),
    decreases data.len() - m.pos,
{
    lemma_step_advances(data, width, m);
    match step_of(data, width, m) {
        Step::Continue(next) => {
            lemma_canvas_keeps_length(data, width, next);
        },
        _ => {},
    }
}

/// A byte that is no opcode fails the stream where the machine meets it, and
/// the failure names that byte's position.
pub proof fn lemma_unknown_opcode_fails(data: Seq<u8>, width: int, m: Machine)
    requires
        has_bytes(data, m.pos, 1),
        data[m.pos] > OP_NEXT_LINE,
    ensures
        step_of(data, width, m) == Step::Failed(Error::UnknownOpcode(m.pos as u64)),
        outcome_of(data, width, m) == Err::<Seq<u8>, Error>(Error::UnknownOpcode(m.pos as u64)),
{
}

/// A Move-X opcode moves the pen along its row by half of the distance that
/// follows it, rounded toward zero, and leaves the row and the canvas alone.
pub proof fn lemma_move_x_step(data: Seq<u8>, width: int, m: Machine)
    requires
        has_bytes(data, m.pos, 5),
        data[m.pos] == OP_MOVE_X,
    ensures
        step_of(data, width, m) == Step::Continue(
            Machine {
                pos: m.pos + 5,
                x: m.x + half_toward_zero(le_i32_at(data, m.pos + 1) as int),
                y: m.y,
                canvas: m.canvas,
            },
        ),
{
}

/// A Next-line opcode moves the pen one row down and leaves its column and
/// the canvas alone.
pub proof fn lemma_next_line_step(data: Seq<u8>, width: int, m: Machine)
    requires
        has_bytes(data, m.pos, 1),
        data[m.pos] == OP_NEXT_LINE,
    ensures
        step_of(data, width, m) == Step::Continue(
            Machine { pos: m.pos + 1, x: m.x, y: m.y + 1, canvas: m.canvas },
        ),
{
}

/// The pen of the interpreter: the pixel that the next paint writes.
///
/// `x` may leave the row on either side and `y` only grows. Nothing clips
/// them; a paint fails where the address they give lies outside the canvas.
/// Both are wide enough for whatever the opcodes of a buffer in memory add
/// up to, so the interpreter never wraps them.
#[derive(Debug, Clone, Copy, PartialEq, Eq)]
pub struct Pen {
    pub x: i128,
    pub y: u64,
}

/// Beyond this distance from the origin no pen addresses a canvas that fits
/// in memory.
pub const PEN_REACH: i128 = 0x10_0000_0000_0000_0000_0000_0000;

/// The most that one byte of an opcode stream can move the pen along `x`.
pub const REACH_PER_BYTE: i128 = 0x1000_0000;

/// True when `x` lies no further than `limit` from zero.
pub open spec fn within(x: int, limit: int) -> bool {
    -limit <= x <= limit
}

impl Pen {
    /// The pen at the first pixel of the first row.
    pub fn origin() -> (pen: Pen)
        ensures
            pen.x == 0,
            pen.y == 0,
    {
        Pen { x: 0, y: 0 }
    }

    /// The pen after a Move-X by `byte_delta` bytes: `x` moves by half of
    /// that, rounded toward zero, and `y` stays.
    pub fn move_x(self, byte_delta: i32) -> (pen: Pen)
        requires
            i128::MIN <= self.x + half_toward_zero(byte_delta as int) <= i128::MAX,
        ensures
            pen.x == self.x + half_toward_zero(byte_delta as int),
            pen.y == self.y,
    {
        let pixels: i32 = byte_delta / 2;
        Pen { x: self.x + (pixels as i128), y: self.y }
    }

    /// The pen after a Next-line: one row down, in the same column.
    pub fn next_line(self) -> (pen: Pen)
        requires
            self.y < u64::MAX,
        ensures
            pen.x == self.x,
            pen.y == self.y + 1,
    {
        Pen { x: self.x, y: self.y + 1 }
    }

    /// The pen one pixel further along its row.
    pub fn advance(self) -> (pen: Pen)
        requires
            self.x < i128::MAX,
        ensures
            pen.x == self.x + 1,
            pen.y == self.y,
    {
        Pen { x: self.x + 1, y: self.y }
    }

    /// The byte index at which the pen writes into a canvas of `canvas_len`
    /// bytes with rows `width` pixels wide, or `None` where the two bytes of
    /// the pixel do not both lie within the canvas.
    pub fn target(&self, width: u32, canvas_len: usize) -> (at: Option<usize>)
        ensures
            match at {
                Some(a) => a == address_of(self.x as int, self.y as int, width as int)
                    && in_canvas(canvas_len as int, a as int),
                None => !in_canvas(
                    canvas_len as int,
                    address_of(self.x as int, self.y as int, width as int),
                ),
            },
    {
        assert(0 <= self.y * 2 * width <= 0xffff_ffff_ffff_ffff * 2 * 0xffff_ffff)
            by (nonlinear_arith)
            requires
                0 <= self.y <= 0xffff_ffff_ffff_ffff,
                0 <= width <= 0xffff_ffff,
        ;
        if self.x < 0 - PEN_REACH || self.x > PEN_REACH {
            return None;
        }
        let row: i128 = (self.y as i128) * 2 * (width as i128);
        let addr: i128 = row + self.x * 2;
        if addr < 0 || addr > (canvas_len as i128) - 2 {
            None
        } else {
            Some(addr as usize)
        }
    }
}

/// The machine that the interpreter is in, given its three parts.
pub open spec fn machine(reader: Reader<'_>, pen: Pen, canvas: Seq<u8>) -> Machine {
    Machine { pos: reader.pos as int, x: pen.x as int, y: pen.y as int, canvas }
}

/// Runs a paint opcode whose opcode byte has just been read.
fn paint(reader: &mut Reader<'_>, width: u32, pen: &mut Pen, canvas: &mut Vec<u8>) -> (r: Result<
    (),
    Error,
>)
    requires
        1 <= old(reader).pos <= old(reader).data@.len(),
        within(old(pen).x as int, PEN_REACH as int),
    ensures
        final(reader).data == old(reader).data,
        paint_of(
            old(reader).data@,
            width as int,
            Machine {
                pos: old(reader).pos - 1,
                x: old(pen).x as int,
                y: old(pen).y as int,
                canvas: old(canvas)@,
            },
        ) == match r {
            Ok(_) => Step::Continue(machine(*final(reader), *final(pen), final(canvas)@)),
            Err(e) => Step::Failed(e),
        },
        r is Ok ==> old(reader).pos + 4 <= final(reader).pos <= old(reader).data@.len(),
        r is Ok ==> final(pen).x - old(pen).x <= final(reader).pos - old(reader).pos,
        r is Ok ==> final(pen).x >= old(pen).x,
{
    let ghost data = reader.data@;
    let at: usize = reader.pos - 1;
    let ghost before = canvas@;
    let ghost x0 = pen.x as int;
    let ghost addr = address_of(pen.x as int, pen.y as int, width as int);
    let count = reader.read_u32()?;
    let ghost src = at + 5;
    let mut k: u32 = 0;
    while k < count
        invariant
            reader.data@ == data,
            reader.data == old(reader).data,
            reader.pos == src + 2 * k,
            reader.pos <= data.len(),
            src == old(reader).pos + 4,
            at == old(reader).pos - 1,
            count == le_u32_at(data, at + 1),
            has_bytes(data, at + 1, 4),
            k <= count,
            pen.x == x0 + k,
            x0 == old(pen).x,
            pen.y == old(pen).y,
            within(x0, PEN_REACH as int),
            addr == address_of(x0, pen.y as int, width as int),
            before == old(canvas)@,
            canvas@.len() == before.len(),
            k > 0 ==> 0 <= addr && addr + 2 * k <= before.len(),
            canvas@ == overwrite(before, addr, data.subrange(src, src + 2 * k)),
        decreases count - k,
    {
        let lo = match reader.read_u8() {
            Ok(b) => b,
            Err(e) => {
                return Err(e);
            },
        };
        let hi = match reader.read_u8() {
            Ok(b) => b,
            Err(e) => {
                return Err(e);
            },
        };
        match pen.target(width, canvas.len()) {
            Some(a) => {
                put_pixel(canvas, a, lo, hi);
                assert(canvas@ =~= overwrite(before, addr, data.subrange(src, src + 2 * (k + 1))));
            },
            None => {
                assert(address_of(pen.x as int, pen.y as int, width as int) == addr + 2 * k);
                assert(room_at(before, addr) <= k);
                assert((data.len() - src) / 2 >= k + 1);
                return Err(Error::PaintOutOfBounds(at as u64));
            },
        }
        *pen = pen.advance();
        k = k + 1;
    }
    assert(canvas@ == overwrite(before, addr, data.subrange(src, src + 2 * count)));
    Ok(())
}

/// Runs the opcode at the reader's position. `Ok(true)` says that the stream
/// goes on, `Ok(false)` that it has ended.
fn step(reader: &mut Reader<'_>, width: u32, pen: &mut Pen, canvas: &mut Vec<u8>) -> (r: Result<
    bool,
    Error,
>)
    requires
        within(old(pen).x as int, PEN_REACH as int),
        old(pen).y <= old(reader).pos,
    ensures
        final(reader).data == old(reader).data,
        step_of(
            old(reader).data@,
            width as int,
            machine(*old(reader), *old(pen), old(canvas)@),
        ) == match r {
            Ok(true) => Step::Continue(machine(*final(reader), *final(pen), final(canvas)@)),
            Ok(false) => Step::Finished(final(canvas)@),
            Err(e) => Step::Failed(e),
        },
        r == Ok::<bool, Error>(false) ==> final(reader).pos == old(reader).pos + 1,
        r == Ok::<bool, Error>(true) ==> {
            let read = final(reader).pos - old(reader).pos;
            &&& 0 < read
            &&& final(reader).pos <= old(reader).data@.len()
            &&& within(final(pen).x - old(pen).x, REACH_PER_BYTE * read)
            &&& final(pen).y - old(pen).y <= read
        },
{
    let at: usize = reader.pos;
    let op = reader.read_u8()?;
    if op == OP_END {
        Ok(false)
    } else if op == OP_PAINT {
        paint(reader, width, pen, canvas)?;
        Ok(true)
    } else if op == OP_MOVE_X {
        let byte_delta = reader.read_i32()?;
        *pen = pen.move_x(byte_delta);
        Ok(true)
    } else if op == OP_NEXT_LINE {
        *pen = pen.next_line();
        Ok(true)
    } else {
        Err(Error::UnknownOpcode(at as u64))
    }
}

/// Runs the opcode stream at the reader's position onto `canvas`, with the
/// pen at the origin, and returns the painted canvas. The reader is left
/// behind the end opcode.
///
/// Fails where the stream does: at a missing byte, an unknown opcode, or a
/// paint outside the canvas. A stream without an end opcode fails when the
/// buffer runs out.
pub fn run(reader: &mut Reader<'_>, width: u32, canvas: Vec<u8>) -> (r: Result<Vec<u8>, Error>)
    ensures
        final(reader).data == old(reader).data,
        outcome_of(
            old(reader).data@,
            width as int,
            Machine { pos: old(reader).pos as int, x: 0, y: 0, canvas: canvas@ },
        ) == match r {
            Ok(painted) => Ok::<Seq<u8>, Error>(painted@),
            Err(e) => Err(e),
        },
        r is Ok ==> final(reader).pos == end_of(
            old(reader).data@,
            width as int,
            Machine { pos: old(reader).pos as int, x: 0, y: 0, canvas: canvas@ },
        ),
{
    let ghost data = reader.data@;
    let ghost start = reader.pos as int;
    let ghost first = Machine { pos: start, x: 0, y: 0, canvas: canvas@ };
    let mut painted = canvas;
    let mut pen = Pen::origin();
    loop
        invariant
            reader.data == old(reader).data,
            reader.data@ == data,
            start == old(reader).pos,
            first == (Machine { pos: start, x: 0, y: 0, canvas: canvas@ }),
            start <= reader.pos,
            reader.pos <= data.len() || reader.pos == start,
            within(pen.x as int, REACH_PER_BYTE * (reader.pos - start)),
            pen.y <= reader.pos - start,
            outcome_of(data, width as int, machine(*reader, pen, painted@)) == outcome_of(
                data,
                width as int,
                first,
            ),
            end_of(data, width as int, machine(*reader, pen, painted@)) == end_of(
                data,
                width as int,
                first,
            ),
        decreases data.len() - reader.pos,
    {
        match step(reader, width, &mut pen, &mut painted) {
            Ok(true) => {},
            Ok(false) => {
                return Ok(painted);
            },
            Err(e) => {
                return Err(e);
            },
        }
    }
}

} // verus!

use core_compat::canvas::{new_canvas, put_pixel};
use core_compat::error::Error;
use core_compat::opcode::{run, Pen};
use core_compat::reader::Reader;

/// Runs `stream` on the blank canvas of a `width` x `height` sprite.
fn paint(width: u32, height: u32, stream: &[u8]) -> Result<Vec<u8>, Error> {
    let mut reader = Reader::new(stream);
    run(&mut reader, width, new_canvas(width, height))
}

fn move_x(byte_delta: i32) -> Vec<u8> {
    let mut op = vec![0x02];
    op.extend_from_slice(&byte_delta.to_le_bytes());
    op
}

#[test]
fn move_x_halves_toward_zero() {
    let pen = Pen { x: 10, y: 3 };
    assert_eq!(pen.move_x(4), Pen { x: 12, y: 3 });
    assert_eq!(pen.move_x(3), Pen { x: 11, y: 3 });
    assert_eq!(pen.move_x(-3), Pen { x: 9, y: 3 });
    assert_eq!(pen.move_x(-4), Pen { x: 8, y: 3 });
    assert_eq!(pen.move_x(1), Pen { x: 10, y: 3 });
    assert_eq!(pen.move_x(-1), Pen { x: 10, y: 3 });
    assert_eq!(pen.move_x(0), Pen { x: 10, y: 3 });
    assert_eq!(pen.move_x(i32::MAX), Pen { x: 10 + 1_073_741_823, y: 3 });
    assert_eq!(pen.move_x(i32::MIN), Pen { x: 10 - 1_073_741_824, y: 3 });
}

#[test]
fn next_line_keeps_x() {
    let pen = Pen { x: -7, y: 3 };
    assert_eq!(pen.next_line(), Pen { x: -7, y: 4 });
    assert_eq!(Pen::origin().next_line(), Pen { x: 0, y: 1 });
    assert_eq!(Pen::origin(), Pen { x: 0, y: 0 });
    assert_eq!(Pen { x: 5, y: 0 }.advance(), Pen { x: 6, y: 0 });
}

#[test]
fn pen_target_is_row_major_and_unclipped() {
    assert_eq!(Pen { x: 0, y: 0 }.target(4, 32), Some(0));
    assert_eq!(Pen { x: 3, y: 2 }.target(4, 32), Some(22));
    assert_eq!(Pen { x: 5, y: 0 }.target(4, 32), Some(10));
    assert_eq!(Pen { x: -1, y: 1 }.target(4, 32), Some(6));
    assert_eq!(Pen { x: 15, y: 0 }.target(4, 32), Some(30));
    assert_eq!(Pen { x: 16, y: 0 }.target(4, 32), None);
    assert_eq!(Pen { x: 0, y: 4 }.target(4, 32), None);
    assert_eq!(Pen { x: -1, y: 0 }.target(4, 32), None);
    assert_eq!(Pen { x: 0, y: 0 }.target(4, 1), None);
    assert_eq!(Pen { x: 0, y: 0 }.target(4, 0), None);
    assert_eq!(Pen { x: i128::MAX, y: u64::MAX }.target(u32::MAX, usize::MAX), None);
    assert_eq!(Pen { x: i128::MIN, y: u64::MAX }.target(u32::MAX, usize::MAX), None);
}

#[test]
fn move_x_in_a_stream() {
    // Byte deltas 4, 3 and -3 move the pen by 2, 1 and -1 pixels.
    let mut stream = move_x(4);
    stream.extend_from_slice(&[0x01, 1, 0, 0, 0, 0xA1, 0xA2]);
    stream.extend(move_x(3));
    stream.extend_from_slice(&[0x01, 1, 0, 0, 0, 0xB1, 0xB2]);
    stream.extend(move_x(-3));
    stream.extend_from_slice(&[0x01, 1, 0, 0, 0, 0xC1, 0xC2]);
    stream.push(0x00);
    // x: 0 -> 2, paint at 2 -> 3, -> 4, paint at 4 -> 5, -> 4, paint at 4.
    let pixels = paint(6, 1, &stream).unwrap();
    assert_eq!(pixels, vec![0, 0, 0, 0, 0xA1, 0xA2, 0, 0, 0xC1, 0xC2, 0, 0]);
}

#[test]
fn next_line_in_a_stream_does_not_reset_x() {
    let stream = [
        0x01, 1, 0, 0, 0, 0x11, 0x12, // paint at (0, 0); x is now 1
        0x03, // (1, 1)
        0x01, 1, 0, 0, 0, 0x21, 0x22, // paint at (1, 1); x is now 2
        0x03, // (2, 2)
        0x01, 1, 0, 0, 0, 0x31, 0x32, // paint at (2, 2)
        0x00,
    ];
    let pixels = paint(3, 3, &stream).unwrap();
    assert_eq!(
        pixels,
        vec![0x11, 0x12, 0, 0, 0, 0, 0, 0, 0x21, 0x22, 0, 0, 0, 0, 0, 0, 0x31, 0x32]
    );
}

#[test]
fn paint_run_spills_into_the_next_row() {
    let stream = [0x02, 2, 0, 0, 0, 0x01, 3, 0, 0, 0, 1, 2, 3, 4, 5, 6, 0x00];
    let pixels = paint(2, 2, &stream).unwrap();
    assert_eq!(pixels, vec![0, 0, 1, 2, 3, 4, 5, 6]);
}

#[test]
fn negative_x_addresses_the_row_before() {
    let mut stream = vec![0x03];
    stream.extend(move_x(-2));
    stream.extend_from_slice(&[0x01, 2, 0, 0, 0, 1, 2, 3, 4, 0x00]);
    let pixels = paint(2, 2, &stream).unwrap();
    assert_eq!(pixels, vec![0, 0, 1, 2, 3, 4, 0, 0]);
}

#[test]
fn later_paint_overwrites_earlier() {
    let mut stream = vec![0x01, 2, 0, 0, 0, 1, 1, 2, 2];
    stream.extend(move_x(-2));
    stream.extend_from_slice(&[0x01, 1, 0, 0, 0, 9, 9, 0x00]);
    assert_eq!(paint(2, 1, &stream).unwrap(), vec![1, 1, 9, 9]);
}

#[test]
fn end_stops_the_stream() {
    let stream = [0x00, 0xFF, 0x01, 0x02];
    let mut reader = Reader::new(&stream);
    let pixels = run(&mut reader, 1, new_canvas(1, 1)).unwrap();
    assert_eq!(pixels, vec![0, 0]);
    assert_eq!(reader.position(), 1);
}

#[test]
fn empty_paint_run_is_fine_anywhere() {
    let mut stream = move_x(-100);
    stream.extend_from_slice(&[0x01, 0, 0, 0, 0, 0x00]);
    assert_eq!(paint(1, 1, &stream).unwrap(), vec![0, 0]);
    assert_eq!(paint(0, 0, &[0x01, 0, 0, 0, 0, 0x00]).unwrap(), Vec::<u8>::new());
}

#[test]
fn unknown_opcode_reports_its_position() {
    assert_eq!(paint(1, 1, &[0xFF]).unwrap_err(), Error::UnknownOpcode(0));
    assert_eq!(paint(1, 1, &[0x03, 0x03, 0xFF, 0x00]).unwrap_err(), Error::UnknownOpcode(2));
    assert_eq!(paint(1, 1, &[0x04]).unwrap_err(), Error::UnknownOpcode(0));
    let mut stream = vec![0x01, 1, 0, 0, 0, 0xFF, 0xFF];
    stream.extend(move_x(-2));
    stream.push(0xFF);
    assert_eq!(paint(1, 1, &stream).unwrap_err(), Error::UnknownOpcode(12));
}

#[test]
fn unknown_opcode_position_counts_from_the_buffer_start() {
    let data = [0xEE, 0xEE, 0xEE, 0x03, 0xFF];
    let mut reader = Reader::new(&data);
    reader.seek(3);
    assert_eq!(run(&mut reader, 1, new_canvas(1, 1)).unwrap_err(), Error::UnknownOpcode(4));
}

#[test]
fn stream_without_end_is_truncated() {
    assert_eq!(paint(1, 1, &[]).unwrap_err(), Error::Truncated);
    assert_eq!(paint(1, 1, &[0x03, 0x03, 0x03]).unwrap_err(), Error::Truncated);
    assert_eq!(paint(1, 1, &[0x02, 1, 0, 0]).unwrap_err(), Error::Truncated);
    assert_eq!(paint(1, 1, &[0x01, 1, 0, 0]).unwrap_err(), Error::Truncated);
    assert_eq!(paint(1, 1, &[0x01, 1, 0, 0, 0]).unwrap_err(), Error::Truncated);
    assert_eq!(paint(1, 1, &[0x01, 1, 0, 0, 0, 7]).unwrap_err(), Error::Truncated);
    assert_eq!(paint(1, 1, &[0x01, 1, 0, 0, 0, 7, 7]).unwrap_err(), Error::Truncated);
    assert_eq!(paint(1, 1, &[0x01, 0xFF, 0xFF, 0xFF, 0xFF, 7, 7]).unwrap_err(), Error::Truncated);
}

#[test]
fn paint_outside_the_canvas_fails() {
    // Two pixels into a canvas of one.
    assert_eq!(
        paint(1, 1, &[0x01, 2, 0, 0, 0, 1, 2, 3, 4, 0x00]).unwrap_err(),
        Error::PaintOutOfBounds(0)
    );
    // Past the last row.
    assert_eq!(
        paint(1, 1, &[0x03, 0x01, 1, 0, 0, 0, 1, 2, 0x00]).unwrap_err(),
        Error::PaintOutOfBounds(1)
    );
    // Before the first pixel.
    let mut stream = move_x(-2);
    stream.extend_from_slice(&[0x01, 1, 0, 0, 0, 1, 2, 0x00]);
    assert_eq!(paint(4, 4, &stream).unwrap_err(), Error::PaintOutOfBounds(5));
    // Into a canvas of no pixels.
    assert_eq!(
        paint(0, 5, &[0x01, 1, 0, 0, 0, 1, 2, 0x00]).unwrap_err(),
        Error::PaintOutOfBounds(0)
    );
}

#[test]
fn missing_pixel_comes_before_missing_room() {
    // The run asks for three pixels; the canvas has room for one and the
    // buffer holds one: the second pixel is missed in the buffer first.
    assert_eq!(paint(1, 1, &[0x01, 3, 0, 0, 0, 1, 2]).unwrap_err(), Error::Truncated);
    assert_eq!(paint(1, 1, &[0x01, 3, 0, 0, 0, 1, 2, 3]).unwrap_err(), Error::Truncated);
    // With the second pixel in the buffer, the canvas has no room for it.
    assert_eq!(
        paint(1, 1, &[0x01, 3, 0, 0, 0, 1, 2, 3, 4]).unwrap_err(),
        Error::PaintOutOfBounds(0)
    );
}

#[test]
fn new_canvas_is_zeroed() {
    assert_eq!(new_canvas(2, 3), vec![0u8; 12]);
    assert_eq!(new_canvas(0, 7), Vec::<u8>::new());
    assert_eq!(new_canvas(7999, 0), Vec::<u8>::new());
    assert_eq!(new_canvas(8000, 0), vec![0, 0]);
    assert_eq!(new_canvas(0, 8000), vec![0, 0]);
    assert_eq!(new_canvas(u32::MAX, u32::MAX), vec![0, 0]);
    assert_eq!(new_canvas(7999, 2).len(), 31996);
}

#[test]
fn put_pixel_writes_low_byte_first() {
    let mut canvas = vec![0u8; 6];
    put_pixel(&mut canvas, 2, 0x34, 0x12);
    assert_eq!(canvas, vec![0, 0, 0x34, 0x12, 0, 0]);
    put_pixel(&mut canvas, 4, 1, 2);
    put_pixel(&mut canvas, 0, 3, 4);
    assert_eq!(canvas, vec![3, 4, 0x34, 0x12, 1, 2]);
}

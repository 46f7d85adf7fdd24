use plakat::bucket::Timestamp;
use plakat::cachable::CachablePNG;
use plakat::canvas::{encode, Canvas, RenderError};
use plakat::capture::{capture_is_safe, read_stamp, read_word};
use plakat::datagram::{first_packet, Datagram};
use plakat::histogram::{column_rows, value_range, Columns, Histogram, HistogramData};

fn source(width: usize) -> HistogramData {
    HistogramData {
        filter: None,
        filter_description: None,
        start_time: Timestamp { nanos: 0 },
        end_time: Timestamp { nanos: 10 },
        width,
        do_pps: true,
        data_file: "a".to_string(),
    }
}

fn element(widths: &[usize], do_log: bool) -> Histogram {
    Histogram {
        do_log,
        yscale: "1".to_string(),
        data: widths.iter().map(|w| Box::new(source(*w))).collect(),
        color: (10, 20, 30),
    }
}

fn pixel(canvas: &Canvas, x: usize, y: usize) -> [u8; 4] {
    let at = 4 * (y * canvas.width as usize + x);
    [canvas.pixels[at], canvas.pixels[at + 1], canvas.pixels[at + 2], canvas.pixels[at + 3]]
}

fn decode(file: &[u8]) -> (u32, u32, Vec<u8>) {
    let decoder = png::Decoder::new(std::io::Cursor::new(file));
    let mut reader = decoder.read_info().unwrap();
    let mut pixels = vec![0; reader.output_buffer_size().unwrap()];
    let info = reader.next_frame(&mut pixels).unwrap();
    assert_eq!(info.color_type, png::ColorType::Rgba);
    assert_eq!(info.bit_depth, png::BitDepth::Eight);
    pixels.truncate(info.buffer_size());
    (info.width, info.height, pixels)
}

fn capture(packets: &[&[u8]]) -> Vec<u8> {
    let mut bytes = Vec::new();
    bytes.extend_from_slice(&0x0a0d0d0au32.to_le_bytes());
    bytes.extend_from_slice(&28u32.to_le_bytes());
    bytes.extend_from_slice(&0x1a2b3c4du32.to_le_bytes());
    bytes.extend_from_slice(&1u16.to_le_bytes());
    bytes.extend_from_slice(&0u16.to_le_bytes());
    bytes.extend_from_slice(&u64::MAX.to_le_bytes());
    bytes.extend_from_slice(&28u32.to_le_bytes());
    bytes.extend_from_slice(&1u32.to_le_bytes());
    bytes.extend_from_slice(&20u32.to_le_bytes());
    bytes.extend_from_slice(&1u16.to_le_bytes());
    bytes.extend_from_slice(&0u16.to_le_bytes());
    bytes.extend_from_slice(&0u32.to_le_bytes());
    bytes.extend_from_slice(&20u32.to_le_bytes());
    for data in packets {
        let padded = (data.len() + 3) / 4 * 4;
        let total = (32 + padded) as u32;
        bytes.extend_from_slice(&6u32.to_le_bytes());
        bytes.extend_from_slice(&total.to_le_bytes());
        bytes.extend_from_slice(&0u32.to_le_bytes());
        bytes.extend_from_slice(&0u32.to_le_bytes());
        bytes.extend_from_slice(&0u32.to_le_bytes());
        bytes.extend_from_slice(&(data.len() as u32).to_le_bytes());
        bytes.extend_from_slice(&(data.len() as u32).to_le_bytes());
        bytes.extend_from_slice(data);
        bytes.resize(bytes.len() + padded - data.len(), 0);
        bytes.extend_from_slice(&total.to_le_bytes());
    }
    bytes
}

#[test]
fn blank_raster_is_opaque_white() {
    let canvas = Canvas::blank(3, 2).unwrap();
    assert_eq!(canvas.width, 3);
    assert_eq!(canvas.height, 2);
    assert_eq!(canvas.pixels, vec![255u8; 24]);
    assert!(canvas.is_sound());
}

#[test]
fn raster_without_side_is_refused() {
    assert_eq!(Canvas::blank(0, 5).unwrap_err(), RenderError::Empty);
    assert_eq!(Canvas::blank(5, 0).unwrap_err(), RenderError::Empty);
}

#[test]
fn raster_beyond_the_machine_is_refused() {
    assert_eq!(Canvas::blank(u32::MAX, u32::MAX).unwrap_err(), RenderError::TooLarge);
}

#[test]
fn painting_keeps_alpha_and_all_other_pixels() {
    let mut canvas = Canvas::blank(2, 2).unwrap();
    canvas.paint(2, (1, 2, 3));
    assert_eq!(
        canvas.pixels,
        vec![255, 255, 255, 255, 255, 255, 255, 255, 1, 2, 3, 255, 255, 255, 255, 255]
    );
}

#[test]
fn unsound_raster_is_not_encoded() {
    let canvas = Canvas { width: 2, height: 2, pixels: vec![0; 15] };
    assert!(!canvas.is_sound());
    assert_eq!(encode(&canvas).unwrap_err(), RenderError::Mismatch);
    let canvas = Canvas { width: 0, height: 2, pixels: Vec::new() };
    assert_eq!(encode(&canvas).unwrap_err(), RenderError::Empty);
}

#[test]
fn encoded_raster_decodes_to_its_pixels() {
    let mut canvas = Canvas::blank(3, 2).unwrap();
    canvas.paint(4, (9, 8, 7));
    let file = encode(&canvas).unwrap();
    assert_eq!(&file[..8], &[137, 80, 78, 71, 13, 10, 26, 10]);
    assert_ne!(file, canvas.pixels);
    assert_eq!(decode(&file), (3, 2, canvas.pixels));
}

#[test]
fn largest_and_smallest_filled_bucket_are_found() {
    assert_eq!(value_range(&vec![0, 7, 3, 0, 9, 3]), (9, Some(3)));
    assert_eq!(value_range(&vec![0, 0]), (0, None));
    assert_eq!(value_range(&Vec::new()), (0, None));
    assert_eq!(value_range(&vec![5]), (5, Some(5)));
}

#[test]
fn empty_bucket_and_negative_height_have_no_rows() {
    assert_eq!(column_rows(0, 17), 0);
    assert_eq!(column_rows(5, -3), 0);
    assert_eq!(column_rows(5, 0), 0);
    assert_eq!(column_rows(5, 17), 17);
}

#[test]
fn sources_are_added_bucket_by_bucket() {
    let h = element(&[3, 3], true);
    let combined = h.values_uncached(&vec![vec![1, 2, 3], vec![10, 0, 30]]).unwrap();
    assert_eq!(combined, vec![11, 2, 33]);
}

#[test]
fn histogram_without_source_has_the_default_width() {
    let h = element(&[], true);
    assert_eq!(h.width(), 100);
    assert_eq!(h.values_uncached(&Vec::new()).unwrap(), vec![0; 100]);
    assert_eq!(element(&[7, 9], true).width(), 7);
}

#[test]
fn arrays_must_match_sources_and_width() {
    let h = element(&[3, 3], true);
    assert_eq!(h.values_uncached(&vec![vec![1, 2, 3]]).unwrap_err(), RenderError::Mismatch);
    assert_eq!(
        h.values_uncached(&vec![vec![1, 2, 3], vec![1, 2]]).unwrap_err(),
        RenderError::Mismatch
    );
    assert_eq!(
        h.values_uncached(&vec![vec![1, 2, 3], vec![1, 2, 3, 4]]).unwrap_err(),
        RenderError::Mismatch
    );
}

#[test]
fn sum_beyond_64_bits_is_refused() {
    let h = element(&[2, 2], true);
    assert_eq!(
        h.values_uncached(&vec![vec![1, u64::MAX], vec![1, 1]]).unwrap_err(),
        RenderError::Overflow
    );
    assert_eq!(
        h.values_uncached(&vec![vec![1, u64::MAX - 1], vec![1, 1]]).unwrap(),
        vec![2, u64::MAX]
    );
}

#[test]
fn columns_stand_on_the_bottom_row() {
    let h = element(&[3], false);
    let canvas = h.render(&vec![5, 1, 9], &vec![2, 0, 3]).unwrap();
    assert_eq!(canvas.width, 3);
    assert_eq!(canvas.height, 4);
    let ink = [10, 20, 30, 255];
    let white = [255, 255, 255, 255];
    let expected = [
        [white, white, white],
        [white, white, ink],
        [ink, white, ink],
        [ink, white, ink],
    ];
    for y in 0..4 {
        for x in 0..3 {
            assert_eq!(pixel(&canvas, x, y), expected[y][x]);
        }
    }
}

#[test]
fn empty_buckets_draw_nothing_whatever_their_height() {
    let h = element(&[4], true);
    let canvas = h.render(&vec![0, 0, 0, 0], &vec![5, -3, 0, 600]).unwrap();
    assert_eq!(canvas.width, 4);
    assert_eq!(canvas.height, 1);
    assert_eq!(canvas.pixels, vec![255u8; 16]);
    let h = element(&[4], false);
    let canvas = h.render(&vec![0, 0, 0, 0], &vec![0, 0, 0, 0]).unwrap();
    assert_eq!(canvas.pixels, vec![255u8; 16]);
}

#[test]
fn negative_heights_draw_nothing() {
    let h = element(&[2], true);
    let canvas = h.render(&vec![5, 800], &vec![-230, -9]).unwrap();
    assert_eq!(canvas.height, 1);
    assert_eq!(canvas.pixels, vec![255u8; 8]);
}

#[test]
fn columns_above_the_tallest_raster_are_an_error() {
    let h = element(&[2], true);
    assert_eq!(h.render(&vec![5, 800], &vec![1, 661]).unwrap_err(), RenderError::TooTall);
    assert_eq!(h.render(&vec![5, 800], &vec![1, i64::MAX]).unwrap_err(), RenderError::TooTall);
    let canvas = h.render(&vec![5, 800], &vec![1, 660]).unwrap();
    assert_eq!(canvas.height, 661);
    assert_eq!(pixel(&canvas, 1, 0), [255, 255, 255, 255]);
    assert_eq!(pixel(&canvas, 1, 1), [10, 20, 30, 255]);
    assert_eq!(pixel(&canvas, 0, 659), [255, 255, 255, 255]);
    assert_eq!(pixel(&canvas, 0, 660), [10, 20, 30, 255]);
}

#[test]
fn heights_must_match_buckets() {
    let h = element(&[2], true);
    assert_eq!(h.render(&vec![5, 800], &vec![1]).unwrap_err(), RenderError::Mismatch);
    assert_eq!(h.render(&Vec::new(), &Vec::new()).unwrap_err(), RenderError::Empty);
}

#[test]
fn sum_of_two_sources_is_drawn_like_their_joint_records() {
    let h = element(&[3, 3], false);
    let summed = h.values_uncached(&vec![vec![1, 0, 2], vec![3, 0, 1]]).unwrap();
    let joint = vec![4, 0, 3];
    assert_eq!(summed, joint);
    let scaled = vec![4, 0, 3];
    assert_eq!(
        h.render(&summed, &scaled).unwrap().pixels,
        h.render(&joint, &scaled).unwrap().pixels
    );
}

#[test]
fn histogram_file_decodes_to_the_drawn_raster() {
    let h = element(&[3], false);
    let material = Columns { values: vec![5, 1, 9], scaled: vec![2, 0, 3] };
    let file = h.png_uncached(&material).unwrap();
    let canvas = h.render(&material.values, &material.scaled).unwrap();
    assert_eq!(decode(&file), (3, 4, canvas.pixels));
    let material = Columns { values: vec![5, 1, 9], scaled: vec![2, 0, 700] };
    assert_eq!(h.png_uncached(&material).unwrap_err(), RenderError::TooTall);
}

#[test]
fn bits_are_drawn_highest_first_in_rows_of_256() {
    let grid = Datagram { packet_path: "p".to_string(), gray_value: 0x66 };
    let canvas = grid.bit_grid(&[0b1010_0000, 0x01]).unwrap();
    assert_eq!(canvas.width, 256);
    assert_eq!(canvas.height, 2);
    let ink = [0x66, 0x66, 0x66, 255];
    let white = [255, 255, 255, 255];
    for x in 0..256 {
        let expected = if x == 0 || x == 2 || x == 15 { ink } else { white };
        assert_eq!(pixel(&canvas, x, 0), expected);
        assert_eq!(pixel(&canvas, x, 1), white);
    }
}

#[test]
fn grid_has_one_row_more_than_the_bytes_begin() {
    let grid = Datagram { packet_path: "p".to_string(), gray_value: 0 };
    assert_eq!(grid.bit_grid(&[]).unwrap().height, 1);
    assert_eq!(grid.bit_grid(&[0; 1]).unwrap().height, 2);
    assert_eq!(grid.bit_grid(&[0; 32]).unwrap().height, 2);
    assert_eq!(grid.bit_grid(&[0; 33]).unwrap().height, 3);
    assert_eq!(grid.bit_grid(&[0; 64]).unwrap().height, 3);
    assert_eq!(grid.bit_grid(&[0; 65]).unwrap().height, 4);
}

#[test]
fn bytes_beyond_the_first_row_go_on_in_the_next() {
    let grid = Datagram { packet_path: "p".to_string(), gray_value: 0 };
    let mut data = vec![0u8; 33];
    data[32] = 0x80;
    data[31] = 0x01;
    let canvas = grid.bit_grid(&data).unwrap();
    assert_eq!(pixel(&canvas, 255, 0), [0, 0, 0, 255]);
    assert_eq!(pixel(&canvas, 254, 0), [255, 255, 255, 255]);
    assert_eq!(pixel(&canvas, 0, 1), [0, 0, 0, 255]);
    assert_eq!(pixel(&canvas, 1, 1), [255, 255, 255, 255]);
    assert_eq!(pixel(&canvas, 0, 2), [255, 255, 255, 255]);
}

#[test]
fn first_packet_of_a_capture_is_read() {
    let bytes = capture(&[&[0xde, 0xad, 0xbe, 0xef, 0x01], &[0x11, 0x22]]);
    assert_eq!(first_packet(&bytes).unwrap(), vec![0xde, 0xad, 0xbe, 0xef, 0x01]);
}

#[test]
fn capture_without_packet_and_broken_capture_are_told_apart() {
    assert_eq!(first_packet(&capture(&[])).unwrap_err(), RenderError::NoPacket);
    assert_eq!(first_packet(&[]).unwrap_err(), RenderError::NoPacket);
    let mut bytes = capture(&[&[1, 2, 3, 4]]);
    bytes[8] = 0;
    assert_eq!(first_packet(&bytes).unwrap_err(), RenderError::UnreadableCapture);
    let mut bytes = capture(&[&[1, 2, 3, 4]]);
    let end = bytes.len();
    bytes[end - 4] = 40;
    assert_eq!(first_packet(&bytes).unwrap_err(), RenderError::UnreadableCapture);
}

#[test]
fn only_the_first_packet_is_drawn() {
    let grid = Datagram { packet_path: "p".to_string(), gray_value: 0x10 };
    let bytes = capture(&[&[0x80], &[0xff, 0xff]]);
    let file = grid.png_uncached(&bytes).unwrap();
    let canvas = grid.bit_grid(&[0x80]).unwrap();
    assert_eq!(decode(&file), (256, 2, canvas.pixels));
    assert_eq!(grid.png_uncached(&capture(&[])).unwrap_err(), RenderError::NoPacket);
}

fn block(kind: u32, body: &[u8]) -> Vec<u8> {
    let total = (body.len() + 12) as u32;
    let mut bytes = Vec::new();
    bytes.extend_from_slice(&kind.to_le_bytes());
    bytes.extend_from_slice(&total.to_le_bytes());
    bytes.extend_from_slice(body);
    bytes.extend_from_slice(&total.to_le_bytes());
    bytes
}

fn section() -> Vec<u8> {
    let mut body = vec![0x4d, 0x3c, 0x2b, 0x1a, 1, 0, 0, 0];
    body.extend_from_slice(&[0xff; 8]);
    block(0x0a0d0d0a, &body)
}

fn interface_with_seconds() -> Vec<u8> {
    block(1, &[1, 0, 0, 0, 0, 0, 0, 0, 9, 0, 1, 0, 0, 0, 0, 0, 0, 0, 0, 0])
}

fn packet_at(stamp: u64, data: &[u8; 4]) -> Vec<u8> {
    let mut body = Vec::new();
    body.extend_from_slice(&0u32.to_le_bytes());
    body.extend_from_slice(&((stamp >> 32) as u32).to_le_bytes());
    body.extend_from_slice(&(stamp as u32).to_le_bytes());
    body.extend_from_slice(&4u32.to_le_bytes());
    body.extend_from_slice(&4u32.to_le_bytes());
    body.extend_from_slice(data);
    block(6, &body)
}

#[test]
fn numbers_are_read_in_both_byte_orders() {
    let bytes = [0x01, 0x02, 0x03, 0x04, 0x05, 0x06, 0x07, 0x08, 0x09];
    assert_eq!(read_word(&bytes, 0, true), 0x01020304);
    assert_eq!(read_word(&bytes, 0, false), 0x04030201);
    assert_eq!(read_word(&bytes, 5, true), 0x06070809);
    assert_eq!(read_word(&[0xff; 4], 0, false), u32::MAX);
    assert_eq!(read_stamp(&bytes, 0, true), 0x0102030405060708);
    assert_eq!(read_stamp(&bytes, 1, false), 0x0504030209080706);
    assert_eq!(read_stamp(&[0xff; 8], 0, true), u64::MAX);
}

#[test]
fn sound_captures_are_handed_to_the_reader() {
    assert!(capture_is_safe(&[]));
    assert!(capture_is_safe(&capture(&[])));
    assert!(capture_is_safe(&capture(&[&[1, 2, 3], &[4]])));
    assert!(capture_is_safe(&[1, 2, 3]));
    let mut bytes = capture(&[&[1, 2, 3, 4]]);
    bytes[8] = 0;
    assert!(capture_is_safe(&bytes));
}

#[test]
fn section_header_with_a_short_body_is_not_handed_to_the_reader() {
    let mut bytes = vec![0x0a, 0x0d, 0x0d, 0x0a, 24, 0, 0, 0, 0x4d, 0x3c, 0x2b, 0x1a];
    bytes.extend_from_slice(&[0; 8]);
    bytes.extend_from_slice(&[24, 0, 0, 0]);
    assert_eq!(bytes.len(), 24);
    assert!(!capture_is_safe(&bytes));
    assert_eq!(first_packet(&bytes).unwrap_err(), RenderError::UnreadableCapture);
    let grid = Datagram { packet_path: "p".to_string(), gray_value: 0 };
    assert_eq!(grid.png_uncached(&bytes).unwrap_err(), RenderError::UnreadableCapture);
    let mut later = capture(&[]);
    later.extend_from_slice(&bytes);
    assert!(!capture_is_safe(&later));
    let body = [0x4d, 0x3c, 0x2b, 0x1a, 0, 0, 0, 0];
    let short = block(0x0a0d0d0a, &body);
    assert!(capture_is_safe(&short));
    assert_eq!(first_packet(&short).unwrap_err(), RenderError::UnreadableCapture);
}

#[test]
fn time_stamp_beyond_the_clock_is_not_handed_to_the_reader() {
    let mut bytes = section();
    bytes.extend_from_slice(&interface_with_seconds());
    let mut late = bytes.clone();
    late.extend_from_slice(&packet_at(1 << 63, &[1, 2, 3, 4]));
    assert!(!capture_is_safe(&late));
    assert_eq!(first_packet(&late).unwrap_err(), RenderError::UnreadableCapture);
    let mut last = bytes.clone();
    last.extend_from_slice(&packet_at((1 << 63) - 1, &[1, 2, 3, 4]));
    assert!(capture_is_safe(&last));
    assert_eq!(first_packet(&last).unwrap(), vec![1, 2, 3, 4]);
}

#[test]
fn capture_with_the_highest_byte_first_is_read() {
    let mut bytes = Vec::new();
    bytes.extend_from_slice(&[0x0a, 0x0d, 0x0d, 0x0a, 0, 0, 0, 28, 0x1a, 0x2b, 0x3c, 0x4d]);
    bytes.extend_from_slice(&[0, 1, 0, 0, 0xff, 0xff, 0xff, 0xff, 0xff, 0xff, 0xff, 0xff]);
    bytes.extend_from_slice(&[0, 0, 0, 28]);
    bytes.extend_from_slice(&[0, 0, 0, 1, 0, 0, 0, 20, 0, 1, 0, 0, 0, 0, 0, 0, 0, 0, 0, 20]);
    bytes.extend_from_slice(&[0, 0, 0, 6, 0, 0, 0, 36, 0, 0, 0, 0, 0x80, 0, 0, 0, 0, 0, 0, 0]);
    bytes.extend_from_slice(&[0, 0, 0, 4, 0, 0, 0, 4, 9, 8, 7, 6, 0, 0, 0, 36]);
    assert!(!capture_is_safe(&bytes));
    bytes[60] = 0x7f;
    assert!(capture_is_safe(&bytes));
    assert_eq!(first_packet(&bytes).unwrap(), vec![9, 8, 7, 6]);
}

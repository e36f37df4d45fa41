use walker::compositor::{render_frame, reverse};
use walker::display::{Object, OAM};
use walker::sprites::Sprite;

fn block_at(x: u16, y: u16) -> Object {
    Object { sprite: Sprite::Block, width: 24, height: 24, x, y }
}

fn frame_of(objects: Vec<Object>) -> Vec<u8> {
    render_frame(&OAM { objects })
}

/// The data byte for row `row`, byte column `bc` of a rendered frame.
fn data_byte(frame: &[u8], row: usize, bc: usize) -> u8 {
    frame[row * 20 + 2 + bc]
}

#[test]
fn reverse_matches_the_documented_examples() {
    assert_eq!(reverse(0b1010_0000), 0b0000_0101);
    assert_eq!(reverse(0b1100_1001), 0b1001_0011);
    assert_eq!(reverse(0x00), 0x00);
    assert_eq!(reverse(0xFF), 0xFF);
    assert_eq!(reverse(0x01), 0x80);
}

#[test]
fn reverse_is_self_inverse_on_every_byte() {
    for b in 0..=255u8 {
        assert_eq!(reverse(reverse(b)), b);
    }
}

#[test]
fn an_empty_frame_is_all_blank_rows() {
    let frame = frame_of(Vec::new());
    assert_eq!(frame.len(), 168 * 20);
    for row in 0..168 {
        assert_eq!(frame[row * 20], 0x80, "command byte of row {row}");
        assert_eq!(frame[row * 20 + 1], reverse(row as u8), "address byte of row {row}");
        for bc in 0..18 {
            assert_eq!(data_byte(&frame, row, bc), 0xFF, "blank data, row {row} byte {bc}");
        }
    }
}

#[test]
fn a_byte_aligned_block_reproduces_its_bytes_inverted() {
    let frame = frame_of(vec![block_at(24, 48)]);
    for row in 0..168 {
        for bc in 0..18 {
            let covered = (48..72).contains(&row) && (3..6).contains(&bc);
            let want = if covered { 0x00 } else { 0xFF };
            assert_eq!(data_byte(&frame, row, bc), want, "row {row} byte {bc}");
        }
    }
}

#[test]
fn an_unaligned_block_is_blitted_across_byte_boundaries() {
    // a solid block at pixel column 4 spans bytes 0..=3 of each covered row
    let frame = frame_of(vec![block_at(4, 0)]);
    for row in 0..24 {
        assert_eq!(data_byte(&frame, row, 0), 0xF0, "left fringe, row {row}");
        assert_eq!(data_byte(&frame, row, 1), 0x00, "interior, row {row}");
        assert_eq!(data_byte(&frame, row, 2), 0x00, "interior, row {row}");
        assert_eq!(data_byte(&frame, row, 3), 0x0F, "right fringe, row {row}");
        for bc in 4..18 {
            assert_eq!(data_byte(&frame, row, bc), 0xFF);
        }
    }
    for row in 24..168 {
        for bc in 0..18 {
            assert_eq!(data_byte(&frame, row, bc), 0xFF);
        }
    }
}

#[test]
fn overlapping_blocks_compose_by_or() {
    let one = frame_of(vec![block_at(48, 96)]);
    let two = frame_of(vec![block_at(48, 96), block_at(48, 96)]);
    assert_eq!(one, two, "a second object at the same position must OR in, not replace");
    let shifted = frame_of(vec![block_at(48, 96), block_at(52, 96)]);
    // the union covers pixel columns 48..76 on the shared rows
    for row in 96..120 {
        assert_eq!(data_byte(&shifted, row, 6), 0x00);
        assert_eq!(data_byte(&shifted, row, 7), 0x00);
        assert_eq!(data_byte(&shifted, row, 8), 0x00);
        assert_eq!(data_byte(&shifted, row, 9), 0x0F, "only the second block reaches byte 9");
    }
}

#[test]
fn an_offscreen_block_contributes_nothing() {
    let frame = frame_of(vec![block_at(200, 10), block_at(0, 200), block_at(65535, 65535)]);
    let blank = frame_of(Vec::new());
    assert_eq!(frame, blank);
}

#[test]
fn a_partially_visible_block_shows_its_visible_part() {
    // placed at pixel column 136, only the first 8 of its 24 columns fit
    let frame = frame_of(vec![block_at(136, 0)]);
    for row in 0..24 {
        assert_eq!(data_byte(&frame, row, 17), 0x00, "visible sliver, row {row}");
        for bc in 0..17 {
            assert_eq!(data_byte(&frame, row, bc), 0xFF);
        }
    }
}

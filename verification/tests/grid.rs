//! Blocks, strips and mirror windows against plain arithmetic.

use autofocus::grid::{block_size, upper_rows, Block, Frame};

#[test]
fn blocks_are_an_eighteenth_of_the_short_edge() {
    for w in [1u32, 8, 100, 143, 144, 145, 161, 162, 256, 1000] {
        for h in [1u32, 17, 144, 170, 256, 4000] {
            let expected = 8_usize.max((w.min(h) as usize / 18).max(1));
            assert_eq!(block_size(w, h) as usize, expected);
        }
    }
}

#[test]
fn blocks_tile_the_frame() {
    for (w, h) in [(8u32, 8u32), (9, 17), (100, 60), (256, 171)] {
        let f = Frame::new(w, h);
        let mut seen = vec![0u8; (w * h) as usize];
        let blocks = f.blocks();
        assert_eq!(blocks.len() as u32, f.cols() * f.rows());
        for b in &blocks {
            let px = f.pixels(b);
            assert_eq!(px.len() as u32, b.w * b.h);
            assert_eq!(px[0] as u32, b.y * w + b.x);
            for i in px {
                seen[i] += 1;
            }
        }
        assert!(seen.iter().all(|&n| n == 1));
    }
}

#[test]
fn strips_and_edges_agree_with_shares_of_the_frame() {
    for (w, h) in [(200u32, 300u32), (256, 144), (123, 97), (144, 144)] {
        let f = Frame::new(w, h);
        for b in f.blocks() {
            let cx = b.x as f32 + b.w as f32 / 2.0;
            let cy = b.y as f32 + b.h as f32 / 2.0;
            let strip = ((cy / h as f32 * 8.0) as usize).min(7);
            assert_eq!(f.strip_of(&b), strip);
            let edge = cx / (w as f32) < 0.11 || cx / (w as f32) > 0.89;
            assert_eq!(f.in_edge_column(&b), edge);
            assert_eq!(b.centre_x2() as f32, cx * 2.0);
            assert_eq!(b.centre_y2() as f32, cy * 2.0);
        }
        assert_eq!(f.is_tall(), (w as f32 / h as f32) < 0.8);
        assert_eq!(f.is_wide(), w as f32 / h as f32 > 1.6);
    }
    assert!(!Frame::new(160, 100).is_wide());
    assert!(Frame::new(161, 100).is_wide());
    assert!(!Frame::new(80, 100).is_tall());
    assert!(Frame::new(79, 100).is_tall());
}

#[test]
fn the_upper_part_is_forty_five_percent() {
    for h in 0u32..200 {
        assert_eq!(upper_rows(h), (h as f32 * 0.45) as u32);
    }
}

#[test]
fn a_block_reaches_its_border() {
    let b = Block { x: 8, y: 16, w: 8, h: 4 };
    assert!(b.reaches(8, 16));
    assert!(b.reaches(16, 20));
    assert!(!b.reaches(17, 20));
    assert!(!b.reaches(16, 21));
    assert!(!b.reaches(7, 18));
}

#[test]
fn mirror_windows_step_away_from_the_axis() {
    for (w, h) in [(100u32, 80u32), (64, 20), (40, 200), (256, 171)] {
        let f = Frame::new(w, h);
        let block = f.block as usize;
        for cx in 0..=(w as usize) {
            let mut expected = Vec::new();
            let max_offset = cx.min(w as usize - cx).min(block * 4);
            if max_offset >= block {
                let half_h = (h as usize).min(block * 4);
                let mut offset = block;
                while offset <= max_offset {
                    let lx = cx - offset;
                    let rx = cx + offset - block;
                    let start = h as usize / 2 - (half_h / 2).min(h as usize / 2);
                    let end = (start + half_h).min((h as usize).saturating_sub(block));
                    let mut y = start;
                    while y < end {
                        expected.push((lx as u32, rx as u32, y as u32));
                        y += block;
                    }
                    offset += block;
                }
            }
            let got: Vec<(u32, u32, u32)> = f
                .mirrors(cx as u32)
                .iter()
                .map(|m| (m.left, m.right, m.top))
                .collect();
            assert_eq!(got, expected);
        }
    }
}

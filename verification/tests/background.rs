//! Background and structure against a plain flood fill on floats.

use autofocus::background::{compute_bg_flags, BlockField};
use autofocus::rank::rank;

fn ranks(v: &[f32]) -> Vec<i32> {
    v.iter().map(|x| rank(x.to_bits()).unwrap()).collect()
}

fn plain(cols: usize, rows: usize, skin: &[f32], eye: &[f32], mag: &[f32]) -> (Vec<bool>, Vec<bool>) {
    let n = cols * rows;
    let depth = |i: usize| {
        let (r, c) = (i / cols, i % cols);
        r.min(rows - 1 - r).min(c).min(cols - 1 - c)
    };
    let around = |i: usize| {
        let (r, c) = (i / cols, i % cols);
        let mut v = Vec::new();
        if r > 0 { v.push(i - cols); }
        if r + 1 < rows { v.push(i + cols); }
        if c > 0 { v.push(i - 1); }
        if c + 1 < cols { v.push(i + 1); }
        v
    };
    let mut bg = vec![false; n];
    let mut queue: Vec<usize> = Vec::new();
    for i in 0..n {
        if depth(i) == 0 && skin[i] > 0.35 && eye[i] < 0.05 {
            bg[i] = true;
            queue.push(i);
        }
    }
    for _ in 0..2 {
        let snapshot = queue.clone();
        for &i in &snapshot {
            if depth(i) > 2 { continue; }
            for j in around(i) {
                if !bg[j] && skin[j] > 0.65 && eye[j] < 0.15 && mag[j] < 0.035 {
                    bg[j] = true;
                    queue.push(j);
                }
            }
        }
    }
    let mut head = 0;
    while head < queue.len() {
        let i = queue[head];
        head += 1;
        for j in around(i) {
            if !bg[j] && depth(j) <= 3 && skin[j] > 0.35 && eye[j] < 0.05 && mag[j] < 0.06 {
                bg[j] = true;
                queue.push(j);
            }
        }
    }
    let mut geom = vec![false; n];
    for r in 0..rows {
        let mut start: Option<usize> = None;
        for c in 0..=cols {
            let active = c < cols && mag[r * cols + c] >= 0.07 && eye[r * cols + c] >= 0.05;
            if active {
                if start.is_none() { start = Some(c); }
            } else if let Some(s) = start {
                let len = c - s;
                let quiet = |row: usize| (s..c).filter(|&k| eye[row * cols + k] < 0.05).count();
                if len >= 5 {
                    let above = r == 0 || quiet(r - 1) > len * 2 / 3;
                    let below = r + 1 >= rows || quiet(r + 1) > len * 2 / 3;
                    if above || below {
                        for k in s..c { geom[r * cols + k] = true; }
                    }
                }
                start = None;
            }
        }
    }
    (bg, geom)
}

#[test]
fn flags_agree_with_a_plain_fill() {
    let mut state: u64 = 99;
    let mut next = || {
        state = state.wrapping_mul(6364136223846793005).wrapping_add(1442695040888963407);
        (state >> 40) as f32 / (1u64 << 24) as f32
    };
    let (mut some_bg, mut some_geom) = (0, 0);
    for round in 0..60 {
        let (cols, rows) = (3 + round % 17, 2 + round % 11);
        let n = cols * rows;
        let calm = round % 3 == 0;
        let skin: Vec<f32> = (0..n).map(|_| 0.2 + 0.8 * next()).collect();
        let eye: Vec<f32> = (0..n)
            .map(|i| {
                let lively = !calm && (i / cols) % 2 == 0;
                if lively { 0.045 + 0.2 * next() } else { 0.07 * next() }
            })
            .collect();
        let mag: Vec<f32> = (0..n).map(|_| if calm { 0.04 * next() } else { 0.065 + 0.1 * next() }).collect();
        let (bg, geom) = plain(cols, rows, &skin, &eye, &mag);
        let field = BlockField { cols, rows, skin: ranks(&skin), eye: ranks(&eye), mag: ranks(&mag) };
        let flags = compute_bg_flags(&field);
        some_bg += bg.iter().filter(|&&b| b).count();
        some_geom += geom.iter().filter(|&&b| b).count();
        assert_eq!(flags.bg_block, bg);
        assert_eq!(flags.geom_block, geom);
        assert_eq!((flags.n_cols, flags.n_rows), (cols, rows));
    }
    assert!(some_bg > 100);
    assert!(some_geom > 20);
}

#[test]
fn background_stays_within_three_blocks_of_the_border() {
    let (cols, rows) = (15, 15);
    let n = cols * rows;
    let field = BlockField {
        cols,
        rows,
        skin: ranks(&vec![0.9; n]),
        eye: ranks(&vec![0.0; n]),
        mag: ranks(&vec![0.0; n]),
    };
    let flags = compute_bg_flags(&field);
    for r in 0..rows {
        for c in 0..cols {
            let depth = r.min(rows - 1 - r).min(c).min(cols - 1 - c);
            assert_eq!(flags.bg_block[r * cols + c], depth <= 3);
        }
    }
}

#[test]
fn a_lone_bar_is_structure() {
    let (cols, rows) = (8, 3);
    let mut eye = vec![0.0f32; 24];
    let mut mag = vec![0.0f32; 24];
    for c in 1..6 {
        eye[8 + c] = 0.5;
        mag[8 + c] = 0.07;
    }
    let field = BlockField { cols, rows, skin: ranks(&vec![0.0; 24]), eye: ranks(&eye), mag: ranks(&mag) };
    let flags = compute_bg_flags(&field);
    for i in 0..24 {
        assert_eq!(flags.geom_block[i], (9..14).contains(&i));
    }
    eye[8 + 5] = 0.0;
    let field = BlockField { cols, rows, skin: ranks(&vec![0.0; 24]), eye: ranks(&eye), mag: ranks(&mag) };
    assert!(compute_bg_flags(&field).geom_block.iter().all(|&g| !g));
}

#[test]
fn an_empty_field_has_no_flags() {
    let field = BlockField { cols: 0, rows: 0, skin: vec![], eye: vec![], mag: vec![] };
    let flags = compute_bg_flags(&field);
    assert!(flags.bg_block.is_empty() && flags.geom_block.is_empty());
}

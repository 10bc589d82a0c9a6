//! Hashes and texts.

use autofocus::hash::{average_hash, average_hash_hex, hash_cell, hex_text};
use autofocus::rank::rank;
use autofocus::record::{features_line, RecordError};
use autofocus::text::{
    build_version, collect_paths, features_record, format_result, frame_bytes, looks_again, parse_dims,
    pct_str, place_lines, reads_lines, trim_text, Answer, FeatureTexts, PathText, AF_BUILD_VERSION,
};
use autofocus::weights::Category;

fn r(v: f32) -> i32 {
    rank(v.to_bits()).unwrap()
}

/// A synthetic image: dark left half, bright right half.
fn synthetic(w: usize, h: usize) -> Vec<u8> {
    let mut rgba = vec![0u8; w * h * 4];
    for y in 0..h {
        for x in 0..w {
            let v = if x < w / 2 { 30 } else { 220 };
            let o = (y * w + x) * 4;
            rgba[o] = v;
            rgba[o + 1] = v;
            rgba[o + 2] = v;
            rgba[o + 3] = 255;
        }
    }
    rgba
}

fn light(c: u8) -> f32 {
    let n = c as f32 / 255.0;
    if n <= 0.04045 {
        n / 12.92
    } else {
        ((n + 0.055) / 1.055_f32).powf(2.4)
    }
}

fn hash_of(rgba: &[u8], w: usize, h: usize) -> String {
    let lum: Vec<f32> = (0..w * h)
        .map(|i| {
            0.2126 * light(rgba[i * 4]) + 0.7152 * light(rgba[i * 4 + 1]) + 0.0722 * light(rgba[i * 4 + 2])
        })
        .collect();
    let mut cells = Vec::new();
    for cy in 0..8 {
        for cx in 0..8 {
            let c = hash_cell(cx, cy, w as u32, h as u32);
            let mut sum = 0.0f32;
            for y in c.y0..c.y1 {
                for x in c.x0..c.x1 {
                    sum += lum[y as usize * w + x as usize];
                }
            }
            cells.push(sum / ((c.x1 - c.x0) * (c.y1 - c.y0)) as f32);
        }
    }
    let mean = cells.iter().sum::<f32>() / 64.0;
    average_hash_hex(&cells.iter().map(|&v| r(v)).collect(), r(mean))
}

#[test]
fn ahash_reflects_luminance_structure() {
    // Half dark / half bright: exactly the bright half's 32 bits are set,
    // and mirroring the image mirrors the hash rather than reproducing it.
    let a = hash_of(&synthetic(64, 64), 64, 64);

    let mut mirrored = synthetic(64, 64);
    for y in 0..64 {
        for x in 0..32 {
            for c in 0..4 {
                mirrored.swap((y * 64 + x) * 4 + c, (y * 64 + (63 - x)) * 4 + c);
            }
        }
    }
    let b = hash_of(&mirrored, 64, 64);

    let bits_a = u64::from_str_radix(&a, 16).unwrap();
    let bits_b = u64::from_str_radix(&b, 16).unwrap();

    assert_eq!(bits_a.count_ones(), 32);
    assert_ne!(bits_a, bits_b, "a mirrored image must not share the hash");
    assert_eq!(a, "0f0f0f0f0f0f0f0f");
    assert_eq!(b, "f0f0f0f0f0f0f0f0");
}

#[test]
fn payload_is_valid_json_with_every_stored_field() {
    let ahash = hash_of(&synthetic(64, 64), 64, 64);
    let texts = FeatureTexts {
        x: "0.5000",
        y: "0.4400",
        avg_skin: "0.0000",
        avg_sat: "0.0000",
        avg_sharp: "0.0078",
        symmetry: "0.0312",
        edge_energy: "0.0220",
    };
    let json = features_record(&texts, Category::Mono, &ahash);
    let v: serde_json::Value = serde_json::from_str(&json).expect("payload must parse as JSON");

    for key in ["x", "y", "avg_skin", "avg_sat", "avg_sharp", "symmetry", "edge_energy"] {
        let n = v[key].as_f64().unwrap_or_else(|| panic!("{key} must be numeric"));
        assert!((0.0..=1.0).contains(&n), "{key} = {n} must be within [0, 1]");
    }

    let category = v["category"].as_str().expect("category must be a string");
    assert!(!category.is_empty());

    let ahash = v["ahash"].as_str().expect("ahash must be a string");
    assert_eq!(ahash.len(), 16, "ahash is 64 bits as 16 hex chars");
    assert!(ahash.chars().all(|c| c.is_ascii_hexdigit()));
    assert_eq!(
        json,
        "{\"x\":0.5000,\"y\":0.4400,\"category\":\"mono\",\"avg_skin\":0.0000,\"avg_sat\":0.0000,\
         \"avg_sharp\":0.0078,\"symmetry\":0.0312,\"edge_energy\":0.0220,\"ahash\":\"0f0f0f0f0f0f0f0f\"}"
    );
}

#[test]
fn hash_cells_cover_small_and_large_frames() {
    for (w, h) in [(1u32, 1u32), (3, 5), (8, 8), (9, 20), (64, 64), (257, 100)] {
        for cy in 0..8u32 {
            for cx in 0..8u32 {
                let c = hash_cell(cx, cy, w, h);
                let x0 = cx * w / 8;
                let y0 = cy * h / 8;
                assert_eq!((c.x0, c.x1), (x0, ((cx + 1) * w / 8).max(x0 + 1).min(w)));
                assert_eq!((c.y0, c.y1), (y0, ((cy + 1) * h / 8).max(y0 + 1).min(h)));
            }
        }
    }
}

#[test]
fn hash_bits_start_at_the_top() {
    let mut cells = vec![0i32; 64];
    cells[0] = 5;
    cells[63] = 5;
    cells[10] = 4;
    assert_eq!(average_hash(&cells, 4), 0x8000_0000_0000_0001);
    assert_eq!(average_hash(&cells, 3), 0x8020_0000_0000_0001);
    assert_eq!(hex_text(0x8020_0000_0000_0001), "8020000000000001");
    assert_eq!(hex_text(0x0123_4567_89ab_cdef), format!("{:016x}", 0x0123_4567_89ab_cdefu64));
}

#[test]
fn percentages_keep_one_decimal_at_most() {
    for t in 0..=1000i64 {
        let v = t as f32 / 1000.0;
        let pct = (v * 1000.0).round() / 10.0;
        let expected =
            if pct.fract() < 0.0001 { format!("{}%", pct as i32) } else { format!("{pct}%") };
        assert_eq!(pct_str(t), expected);
    }
    assert_eq!(pct_str(425), "42.5%");
    assert_eq!(pct_str(300), "30%");
    assert_eq!(pct_str(-5), "0%");
    assert_eq!(pct_str(-123), "-12%");
}

#[test]
fn answers_are_printed_in_each_format() {
    let pct = Answer::Pct { x10: 425, y10: 310 };
    assert_eq!(format_result("portrait01.jpg", false, &pct), "portrait01.jpg: 42.5%,31%");
    assert_eq!(format_result("portrait01.jpg", true, &pct), "42.5%,31%");
    let json = Answer::Json { file: "a\"b\\c\n\u{1}\u{7f}é.jpg", x: "0.42", y: "0.31", category: Category::Portrait };
    let line = format_result("p", true, &json);
    assert_eq!(
        line,
        "{\"file\":\"a\\\"b\\\\c\\n\\u0001\u{7f}é.jpg\",\"x\":0.42,\"y\":0.31,\"category\":\"portrait\"}"
    );
    let v: serde_json::Value = serde_json::from_str(&line).unwrap();
    assert_eq!(v["file"].as_str(), Some("a\"b\\c\n\u{1}\u{7f}é.jpg"));
    let xy = Answer::Xy { x: "0.4200", y: "0.3100" };
    assert_eq!(format_result("p", false, &xy), "p: 0.4200 0.3100");
}

#[test]
fn every_control_character_is_escaped() {
    for code in 0u32..0x80 {
        let c = char::from_u32(code).unwrap();
        let text = format!("x{c}y");
        let json = Answer::Json { file: &text, x: "0", y: "0", category: Category::Scene };
        let expected = match c {
            '"' => "\\\"".to_string(),
            '\\' => "\\\\".to_string(),
            '\u{8}' => "\\b".to_string(),
            '\t' => "\\t".to_string(),
            '\n' => "\\n".to_string(),
            '\u{c}' => "\\f".to_string(),
            '\r' => "\\r".to_string(),
            c if code < 32 => format!("\\u{:04x}", c as u32),
            c => c.to_string(),
        };
        assert_eq!(
            format_result("", true, &json),
            format!("{{\"file\":\"x{expected}y\",\"x\":0,\"y\":0,\"category\":\"scene\"}}")
        );
    }
}

#[test]
fn dimensions_are_read_strictly() {
    assert_eq!(parse_dims("640x480"), Some((640, 480)));
    assert_eq!(parse_dims("+3x3"), Some((3, 3)));
    assert_eq!(parse_dims("0003x4294967295"), Some((3, 4294967295)));
    for bad in [
        "", "x", "640", "640x", "x480", "2x480", "640x2", "64 0x480", "-5x9", "4294967296x9", "9x9x9",
        "+x9", "++9x9", "９x9", "640X480",
    ] {
        assert_eq!(parse_dims(bad), None, "{bad}");
        let plain = match bad.split_once('x') {
            Some((w, h)) => (w.parse::<u32>().unwrap_or(0), h.parse::<u32>().unwrap_or(0)),
            None => (0, 0),
        };
        assert!(plain.0 < 3 || plain.1 < 3);
    }
    assert_eq!(frame_bytes(640, 480), 1_228_800);
}

#[test]
fn a_dash_stands_for_the_lines_once() {
    let text = |s: &str| PathText::Text(s.to_string());
    let lines = |v: &[&str]| -> Vec<String> { v.iter().map(|s| s.to_string()).collect() };
    let show = |v: Vec<PathText>| -> Vec<String> {
        v.into_iter()
            .map(|p| match p {
                PathText::Text(s) => s,
                PathText::Raw(k) => format!("#{k}"),
            })
            .collect()
    };
    let args = vec![text("a.jpg"), text("-"), PathText::Raw(2), text("-"), text(" - ")];
    let given = lines(&["  b.jpg\t", "", " \t ", "c d.png\r", "\u{a0}e\u{3000}"]);
    assert_eq!(
        show(collect_paths(&args, &given)),
        lines(&["a.jpg", "b.jpg", "c d.png", "e", "#2", " - "])
    );
    assert!(reads_lines(&args));
    let plain = vec![text("x"), PathText::Raw(1)];
    assert!(!reads_lines(&plain));
    assert_eq!(show(collect_paths(&plain, &given)), lines(&["x", "#1"]));
    assert!(collect_paths(&vec![], &given).is_empty());
    assert_eq!(show(place_lines(&vec![text("-")], &lines(&["", " ", "f"]))), lines(&[" ", "f"]));
}

#[test]
fn the_second_look_is_for_colour() {
    assert!(looks_again(false, Category::Scene));
    assert!(!looks_again(false, Category::Mono));
    assert!(!looks_again(true, Category::Portrait));
}

#[test]
fn the_build_names_itself() {
    assert_eq!(build_version(), "2026-08-31-snap-face-veto");
    assert_eq!(AF_BUILD_VERSION, build_version());
}

#[test]
fn a_features_line_is_the_record_with_point_and_file() {
    let texts = FeatureTexts {
        x: "0.5000",
        y: "0.4400",
        avg_skin: "0.2500",
        avg_sat: "0.1250",
        avg_sharp: "0.0078",
        symmetry: "0.0312",
        edge_energy: "0.0220",
    };
    let record = features_record(&texts, Category::Portrait, "0f0f0f0f0f0f0f0f");
    let point = ((0.47f32 as f64).to_string(), (0.31f32 as f64).to_string());
    let line = features_line(&record, &point.0, &point.1, "a \"b\".jpg").ok().unwrap();
    let mut expected: serde_json::Value = serde_json::from_str(&record).unwrap();
    expected["x"] = serde_json::Value::from(0.47f32);
    expected["y"] = serde_json::Value::from(0.31f32);
    expected["file"] = serde_json::Value::from("a \"b\".jpg");
    assert_eq!(line, expected.to_string());
    assert!(line.contains("\"x\":0.4699999988079071,"));
    let nothing = features_line("{}", "NaN", "1", "f").ok().unwrap();
    assert_eq!(nothing, "{\"file\":\"f\",\"x\":null,\"y\":1.0}");
    assert!(matches!(features_line("[1]", "0", "0", "f"), Err(RecordError::NoObject)));
    match features_line("{\"x\":}", "0", "0", "f") {
        Err(RecordError::NotJson(e)) => assert_eq!(e, "expected value at line 1 column 6"),
        _ => panic!("not JSON"),
    }
}

#[test]
fn a_record_keeps_its_other_members_in_order() {
    let record = "{ \"b\": [1, {\"k\": null}], \"x\": \"old\", \"a\\n\": \"t\\u00e9\", \"z\": -0.5e1 }";
    let line = features_line(record, "0.25", "inf", "p").ok().unwrap();
    assert_eq!(
        line,
        "{\"a\\n\":\"t\u{e9}\",\"b\":[1,{\"k\":null}],\"file\":\"p\",\"x\":0.25,\"y\":null,\"z\":-5.0}"
    );
}

#[test]
fn trimming_agrees_with_the_standard_library() {
    for c in '\0'..=char::MAX {
        let text = format!("{c}a{c}{c}");
        assert_eq!(trim_text(&text), text.trim());
    }
    for text in ["", " ", "\t\n \r", "a", " a b ", "\u{2003}x y\u{85}", "\u{200b}z\u{200b}", "a\u{feff}"] {
        assert_eq!(trim_text(text), text.trim());
        assert_eq!(trim_text(trim_text(text)), text.trim());
    }
}

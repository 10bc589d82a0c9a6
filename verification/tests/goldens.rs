//! Manifests of photos with a hand-set point, and how runs over them end.

use autofocus::golden::{
    albums_of, eval_plan, failure_line, marks_of, ordered, photo_line, review_name, review_plan, tally,
    Album, AlbumPhoto, Golden, Mark, PlanError, Tally, HALF,
};

fn golden(file: &str, x: Option<f64>) -> Golden {
    Golden { file: file.to_string(), x: x.map(f64::to_bits), y: None }
}

fn shown(v: &[Mark]) -> Vec<(String, f64, f64)> {
    v.iter().map(|m| (m.file.clone(), f64::from_bits(m.x), f64::from_bits(m.y))).collect()
}

fn mark(file: &str, x: f64, y: f64) -> (String, f64, f64) {
    (file.to_string(), x, y)
}

#[test]
fn half_is_a_half() {
    assert_eq!(f64::from_bits(HALF), 0.5);
}

#[test]
fn photos_go_in_the_order_of_their_files() {
    let names = ["b.jpg", "a10.jpg", "a.jpg", "\u{e9}.jpg", "a2.jpg", "B.jpg", "", "\u{1f600}", "\u{ffff}"];
    let sorted = ordered(names.iter().map(|n| golden(n, None)).collect());
    let mut expected = names.to_vec();
    expected.sort();
    let got: Vec<&str> = sorted.iter().map(|g| g.file.as_str()).collect();
    assert_eq!(got, expected);
    let marks = marks_of(vec![golden("z", Some(0.25)), golden("c", None)]);
    assert_eq!(shown(&marks), vec![mark("c", 0.5, 0.5), mark("z", 0.25, 0.5)]);
}

#[test]
fn an_evaluation_takes_every_photo_of_its_manifest() {
    let raw = "{\"b.jpg\": {\"x\": 0.47, \"y\": 1}, \"a.jpg\": {\"x\": \"0.1\"}, \"c.jpg\": null, \"a.png\": [0.2]}";
    let plan = eval_plan(raw).ok().unwrap();
    assert_eq!(
        shown(&plan),
        vec![
            mark("a.jpg", 0.5, 0.5),
            mark("a.png", 0.5, 0.5),
            mark("b.jpg", 0.47, 1.0),
            mark("c.jpg", 0.5, 0.5),
        ]
    );
    assert!(eval_plan("{}").ok().unwrap().is_empty());
    for raw in ["[]", "null", "3", "\"x\""] {
        assert!(matches!(eval_plan(raw), Err(PlanError::NoObject)));
    }
    match eval_plan("{\"a\": ") {
        Err(PlanError::NotJson(e)) => {
            assert_eq!(e, "EOF while parsing a value at line 1 column 6")
        }
        _ => panic!("not JSON"),
    }
    assert!(matches!(eval_plan(""), Err(PlanError::NotJson(_))));
}

#[test]
fn a_review_skips_albums_without_photos() {
    let raw = "{\"albums\": {\"w\": {\"photos\": [{\"file\": \"1.jpg\", \"focus\": {\"x\": 0.2, \"y\": 0.3}}, {\"focus\": 7}]}, \"n\": {}, \"e\": {\"photos\": []}, \"t\": {\"photos\": \"none\"}}}";
    let plan = review_plan(raw).ok().unwrap();
    let names: Vec<&str> = plan.iter().map(|a| a.name.as_str()).collect();
    assert_eq!(names, vec!["e", "w"]);
    assert!(plan[0].photos.is_empty());
    assert_eq!(shown(&plan[1].photos), vec![mark("1.jpg", 0.2, 0.3), mark("", 0.5, 0.5)]);
    assert!(review_plan("{}").ok().unwrap().is_empty());
    assert!(review_plan("{\"albums\": []}").ok().unwrap().is_empty());
    assert!(review_plan("[1]").ok().unwrap().is_empty());
    assert!(matches!(review_plan("{"), Err(PlanError::NotJson(_))));

    let photo = AlbumPhoto { file: Some("p".to_string()), x: None, y: Some(HALF) };
    let albums = vec![
        Album { name: "none".to_string(), photos: None },
        Album { name: "some".to_string(), photos: Some(vec![photo]) },
    ];
    let plan = albums_of(&albums);
    assert_eq!(plan.len(), 1);
    assert_eq!(plan[0].name, "some");
    assert_eq!(shown(&plan[0].photos), vec![mark("p", 0.5, 0.5)]);
}

#[test]
fn one_failure_does_not_stop_a_run_but_fails_it() {
    let mixed = tally(&vec![true, false, true]);
    assert_eq!(mixed, Tally { n: 2, failed: true });
    assert_eq!(mixed.status(), 1);
    assert_eq!(mixed.eval_line("0.1234").unwrap(), "evaluated 2 photos, mean distance 0.1234");
    let all = tally(&vec![true; 12]);
    assert_eq!((all, all.status()), (Tally { n: 12, failed: false }, 0));
    assert_eq!(
        all.review_line("0.0500", "out/dir").unwrap(),
        "reviewed 12 photos, mean distance 0.0500 -> out/dir"
    );
    let none = tally(&vec![false]);
    assert_eq!((none.status(), none.eval_line("NaN"), none.review_line("NaN", "o")), (1, None, None));
    assert_eq!(tally(&vec![]), Tally { n: 0, failed: false });
}

#[test]
fn review_copies_sort_by_distance() {
    assert_eq!(review_name("0.123", "a-b.jpg"), "d0.123-a-b.jpg");
    let mut names: Vec<String> = [(1.3f32, "a"), (0.04, "z"), (0.999, "b"), (0.0404, "a"), (1.0, "")]
        .iter()
        .map(|(d, f)| review_name(&format!("{d:.3}"), f))
        .collect();
    names.sort();
    assert_eq!(names, vec!["d0.040-a", "d0.040-z", "d0.999-b", "d1.000-", "d1.300-a"]);
}

#[test]
fn photos_are_named_in_what_is_printed() {
    assert_eq!(photo_line(None, "a.jpg", "0.120"), "a.jpg: d=0.120");
    assert_eq!(photo_line(Some("w"), "a.jpg", "0.120"), "w/a.jpg: d=0.120");
    assert_eq!(failure_line(Some(""), "a.jpg", "ERROR x"), "/a.jpg: ERROR x");
    assert_eq!(failure_line(None, "a.jpg", "ERROR x"), "a.jpg: ERROR x");
}

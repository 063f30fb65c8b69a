use tomatxt::checkbox::{parse_checkboxes, update_checkbox_in_content};

#[test]
fn recognizes_open_dash_checkbox() {
    let r = parse_checkboxes("- [ ] Buy milk");
    assert_eq!(r.len(), 1);
    assert_eq!(r[0].text, "Buy milk");
    assert!(!r[0].completed);
}

#[test]
fn recognizes_completed_star_checkbox() {
    let r = parse_checkboxes("* [x] Done thing");
    assert_eq!(r.len(), 1);
    assert_eq!(r[0].text, "Done thing");
    assert!(r[0].completed);
}

#[test]
fn rejects_multi_character_bracket() {
    let r = parse_checkboxes("- [xx] bad");
    assert_eq!(r.len(), 0);
}

#[test]
fn rejects_empty_text() {
    let r = parse_checkboxes("- [ ] ");
    assert_eq!(r.len(), 0);
}

#[test]
fn uppercase_marker_counts_as_completed() {
    let r = parse_checkboxes("- [X] shout");
    assert_eq!(r.len(), 1);
    assert!(r[0].completed);
}

#[test]
fn keeps_line_order_and_drops_prose() {
    let body = "intro\n- [ ] first\nmiddle prose\n* [x] second\noutro";
    let r = parse_checkboxes(body);
    assert_eq!(r.len(), 2);
    assert_eq!(r[0].text, "first");
    assert!(!r[0].completed);
    assert_eq!(r[1].text, "second");
    assert!(r[1].completed);
}

#[test]
fn double_dash_style_tolerated() {
    let r = parse_checkboxes("- [ ] - text");
    assert_eq!(r.len(), 1);
    assert_eq!(r[0].text, "text");
}

#[test]
fn update_rewrites_only_the_target_line() {
    let body = "- [ ] task1\nbody";
    let out = update_checkbox_in_content(body, "task1", true);
    assert_eq!(out, "- [x] task1\nbody");
}

#[test]
fn update_unchecks_and_normalizes_star_style() {
    let body = "* [x] chore\nprose";
    let out = update_checkbox_in_content(body, "chore", false);
    assert_eq!(out, "- [ ] chore\nprose");
}

#[test]
fn update_without_match_returns_content_unchanged() {
    let body = "- [ ] a\nplain";
    let out = update_checkbox_in_content(body, "missing", true);
    assert_eq!(out, body);
}

#[test]
fn update_twice_equals_update_once() {
    let body = "- [ ] a\n* [ ] b\nprose\n- [x] a";
    let once = update_checkbox_in_content(body, "a", true);
    let twice = update_checkbox_in_content(&once, "a", true);
    assert_eq!(twice, once);
}

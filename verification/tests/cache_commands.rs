use tomatxt::checkbox::parse_checkboxes;
use tomatxt::model::{create_preview, note_to_preview, truncate_content, Note};
use tomatxt::state::NotesState;

#[test]
fn new_note_gets_timestamped_slug_id() {
    let n = Note::new(String::from("My Title Goes On"), String::from("body"), 1234);
    assert_eq!(n.id, "1234-My-Title");
    assert_eq!(n.created_at, 1234);
    assert_eq!(n.updated_at, 1234);
    assert!(n.parent_id.is_none());
    assert!(!n.is_task);
    assert_eq!(n.pomodoro_count, 0);
    assert_eq!(n.children.len(), 0);
}

#[test]
fn short_titles_slug_whole_title() {
    let n = Note::new(String::from("ab c"), String::new(), 7);
    assert_eq!(n.id, "7-ab-c");
}

#[test]
fn preview_truncates_at_one_hundred_characters() {
    let long = "x".repeat(150);
    let p = create_preview(long.clone());
    assert_eq!(p.len(), 103);
    assert_eq!(&p[..100], &long[..100]);
    assert!(p.ends_with("..."));
    let short = "y".repeat(50);
    assert_eq!(create_preview(short.clone()), short);
    let exact = "z".repeat(100);
    assert_eq!(create_preview(exact.clone()), exact);
}

#[test]
fn truncate_content_uses_the_given_limit() {
    assert_eq!(truncate_content("abcdef", 4), "abcd...");
    assert_eq!(truncate_content("abc", 4), "abc");
}

#[test]
fn preview_strips_checkbox_lines_and_counts_children() {
    let mut n = Note::new(String::from("T"), String::from("- [ ] a\nkept\n* [x] b"), 1);
    n.children.push(Note::new(String::from("c"), String::new(), 2));
    let p = note_to_preview(&n, n.children.len() as u32);
    assert_eq!(p.content_without_checkboxes, "kept");
    assert_eq!(p.content_preview, "kept");
    assert_eq!(p.child_count, 1);
    assert_eq!(p.id, n.id);
}

#[test]
fn create_then_get_strips_checkboxes_from_derived_body() {
    let mut state = NotesState::new();
    let created = state.create_note(
        String::from("Title A"),
        String::from("- [ ] task1\nbody"),
        1000,
    );
    let got = state.get_note(&created.id).unwrap();
    assert_eq!(got.content_without_checkboxes.as_deref(), Some("body"));
    let boxes = parse_checkboxes(&got.content);
    assert_eq!(boxes.len(), 1);
    assert_eq!(boxes[0].text, "task1");
    assert!(!boxes[0].completed);
}

#[test]
fn checking_a_box_rewrites_the_line_and_bumps_updated_at() {
    let mut state = NotesState::new();
    let created = state.create_note(
        String::from("Title A"),
        String::from("- [ ] task1\nbody"),
        1000,
    );
    let updated = state
        .update_note_checkbox_status(&created.id, "task1", true, 1001)
        .unwrap();
    assert_eq!(updated.content, "- [x] task1\nbody");
    let got = state.get_note(&created.id).unwrap();
    assert_eq!(got.content, "- [x] task1\nbody");
    assert!(got.updated_at > got.created_at);
    assert_eq!(got.updated_at, 1001);
}

#[test]
fn delete_then_get_reports_not_found() {
    let mut state = NotesState::new();
    let created = state.create_note(String::from("Gone"), String::from("body"), 10);
    assert!(state.get_note(&created.id).is_ok());
    state.delete_note(&created.id);
    let e = state.get_note(&created.id).unwrap_err();
    assert_eq!(e, "Note not found");
    assert_eq!(state.get_notes().len(), 0);
}

#[test]
fn update_note_replaces_title_and_content_in_place() {
    let mut state = NotesState::new();
    let a = state.create_note(String::from("First"), String::from("one"), 10);
    let b = state.create_note(String::from("Second"), String::from("two"), 11);
    let updated = state
        .update_note(&a.id, String::from("First B"), String::from("- [ ] t\nrest"), 20)
        .unwrap();
    assert_eq!(updated.title, "First B");
    assert_eq!(updated.content, "- [ ] t\nrest");
    assert_eq!(updated.updated_at, 20);
    assert_eq!(updated.created_at, 10);
    assert_eq!(updated.content_without_checkboxes.as_deref(), Some("rest"));
    let previews = state.get_notes();
    assert_eq!(previews.len(), 2);
    assert_eq!(previews[0].title, "First B");
    assert_eq!(previews[1].title, "Second");
    assert_eq!(previews[1].updated_at, 11);
    assert!(state.get_note(&b.id).is_ok());
}

#[test]
fn updating_a_missing_note_fails_without_changes() {
    let mut state = NotesState::new();
    state.create_note(String::from("Keep"), String::from("body"), 5);
    let e = state
        .update_note("no-such-id", String::from("X"), String::from("Y"), 6)
        .unwrap_err();
    assert_eq!(e, "Note not found");
    assert_eq!(state.get_notes().len(), 1);
    assert_eq!(state.get_notes()[0].title, "Keep");
}

#[test]
fn load_all_notes_replaces_the_collection() {
    let mut state = NotesState::new();
    state.create_note(String::from("Old"), String::from("stale"), 1);
    let fresh = vec![
        Note::new(String::from("N1"), String::from("a"), 2),
        Note::new(String::from("N2"), String::from("b"), 3),
    ];
    let id1 = fresh[0].id.clone();
    state.load_all_notes(fresh);
    let previews = state.get_notes();
    assert_eq!(previews.len(), 2);
    assert_eq!(previews[0].title, "N1");
    assert!(state.get_note(&id1).is_ok());
    assert!(state.get_note("1-Old").is_err());
}

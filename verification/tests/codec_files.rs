use tomatxt::codec::{build_note_content, note_file_content, note_file_name, parse_note_file};
use tomatxt::model::Note;

fn plain_note(id: &str, title: &str, content: &str, stamp: u64) -> Note {
    Note {
        id: String::from(id),
        parent_id: None,
        title: String::from(title),
        content: String::from(content),
        content_without_checkboxes: None,
        is_task: false,
        is_done: false,
        pomodoro_count: 0,
        created_at: stamp,
        updated_at: stamp,
        children: Vec::new(),
    }
}

fn child_of(parent: &str, id: &str, title: &str, content: &str, stamp: u64) -> Note {
    let mut n = plain_note(id, title, content, stamp);
    n.parent_id = Some(String::from(parent));
    n
}

fn assert_same_note(a: &Note, b: &Note) {
    assert_eq!(a.id, b.id);
    assert_eq!(a.parent_id, b.parent_id);
    assert_eq!(a.title, b.title);
    assert_eq!(a.content.trim(), b.content.trim());
    assert_eq!(a.is_task, b.is_task);
    assert_eq!(a.is_done, b.is_done);
    assert_eq!(a.pomodoro_count, b.pomodoro_count);
    assert_eq!(a.created_at, b.created_at);
    assert_eq!(a.updated_at, b.updated_at);
    assert_eq!(a.children.len(), b.children.len());
    for i in 0..a.children.len() {
        assert_same_note(&a.children[i], &b.children[i]);
    }
}

#[test]
fn serializes_flat_note_in_fixed_field_order() {
    let n = plain_note("10-n", "T", "hello", 10);
    let text = build_note_content(&n);
    assert_eq!(
        text,
        "---\nid: 10-n\nis_task: false\nis_done: false\npomodoro_count: 0\ntitle: T\ncreated_at: 10\nupdated_at: 10\n---\n\nhello"
    );
}

#[test]
fn flat_note_round_trips() {
    let mut n = plain_note("77-x", "A title", "line one\nline two", 77);
    n.is_task = true;
    n.is_done = true;
    n.pomodoro_count = 3;
    n.updated_at = 99;
    let text = build_note_content(&n);
    let back = parse_note_file(&text, None).unwrap();
    assert_same_note(&n, &back);
}

#[test]
fn nested_tree_round_trips() {
    let mut g = child_of("c2", "g1", "Grand", "grand body", 4);
    g.pomodoro_count = 9;
    let c1 = child_of("r1", "c1", "Child one", "b1\nmore of b1", 2);
    let mut c2 = child_of("r1", "c2", "Child two", "b2", 3);
    c2.children.push(g);
    let mut root = plain_note("r1", "Root", "root body", 1);
    root.is_task = true;
    root.children.push(c1);
    root.children.push(c2);
    let text = build_note_content(&root);
    let back = parse_note_file(&text, None).unwrap();
    assert_same_note(&root, &back);
}

#[test]
fn empty_bodies_round_trip() {
    let c1 = child_of("r2", "c1e", "Empty child", "", 2);
    let mut root = plain_note("r2", "Root", "", 1);
    root.children.push(c1);
    let text = build_note_content(&root);
    let back = parse_note_file(&text, None).unwrap();
    assert_same_note(&root, &back);
}

#[test]
fn parses_nested_file_with_correct_parent_chains() {
    let text = "---\nid: root1\ntitle: Root\n---\n\nroot body\n\n---\nid: c1\ntitle: Child one\n---\nchild one body\n---\nid: c2\ntitle: Child two\n---\nchild two body\n  ---\n  id: g1\n  title: Grand\n  ---\n  grand body";
    let root = parse_note_file(text, None).unwrap();
    assert_eq!(root.id, "root1");
    assert_eq!(root.title, "Root");
    assert_eq!(root.content, "root body");
    assert_eq!(root.children.len(), 2);
    let c1 = &root.children[0];
    assert_eq!(c1.id, "c1");
    assert_eq!(c1.parent_id.as_deref(), Some("root1"));
    assert_eq!(c1.content, "child one body");
    assert_eq!(c1.children.len(), 0);
    let c2 = &root.children[1];
    assert_eq!(c2.id, "c2");
    assert_eq!(c2.parent_id.as_deref(), Some("root1"));
    assert_eq!(c2.content, "child two body");
    assert_eq!(c2.children.len(), 1);
    let g = &c2.children[0];
    assert_eq!(g.id, "g1");
    assert_eq!(g.parent_id.as_deref(), Some("c2"));
    assert_eq!(g.content, "grand body");
    assert_eq!(g.children.len(), 0);
}

#[test]
fn missing_delimiters_is_a_format_error() {
    let e = parse_note_file("no frontmatter here", None).unwrap_err();
    assert_eq!(e, "Invalid note format");
    let e = parse_note_file("---\nid: only-one-delimiter", None).unwrap_err();
    assert_eq!(e, "Invalid note format");
}

#[test]
fn missing_id_is_an_error() {
    let e = parse_note_file("---\ntitle: anonymous\n---\n\nbody", None).unwrap_err();
    assert_eq!(e, "Missing ID");
}

#[test]
fn unparsable_scalar_fields_fall_back_to_defaults() {
    let text = "---\nid: d1\nis_task: maybe\nis_done: TRUE\npomodoro_count: many\ncreated_at: -5\nupdated_at: 99999999999999999999999\n---\n\nbody";
    let n = parse_note_file(text, None).unwrap();
    assert!(!n.is_task);
    assert!(!n.is_done);
    assert_eq!(n.pomodoro_count, 0);
    assert_eq!(n.created_at, 0);
    assert_eq!(n.updated_at, 0);
    assert_eq!(n.title, "");
}

#[test]
fn dashes_inside_running_body_text_stay_body() {
    let text = "---\nid: hr\n---\n\nfirst line\n---\nstill body";
    let n = parse_note_file(text, None).unwrap();
    assert_eq!(n.content, "first line\n---\nstill body");
    assert_eq!(n.children.len(), 0);
}

#[test]
fn inherited_parent_id_overrides_the_field() {
    let text = "---\nid: kid\nparent_id: stale\n---\n\nbody";
    let n = parse_note_file(text, Some(String::from("fresh"))).unwrap();
    assert_eq!(n.parent_id.as_deref(), Some("fresh"));
    let n = parse_note_file(text, None).unwrap();
    assert_eq!(n.parent_id.as_deref(), Some("stale"));
}

#[test]
fn file_name_appends_markdown_extension() {
    assert_eq!(note_file_name("123-abc"), "123-abc.md");
}

#[test]
fn only_root_notes_get_a_file_payload() {
    let root = plain_note("r9", "Root", "body", 5);
    let payload = note_file_content(&root).unwrap();
    assert_eq!(payload, build_note_content(&root));
    let child = child_of("r9", "c9", "Child", "body", 5);
    assert!(note_file_content(&child).is_none());
}

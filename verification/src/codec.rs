//! The note document codec.
//!
//! A note file is a frontmatter block (`---`, `key: value` lines, `---`),
//! the body, and zero or more nested child blocks.  A child block repeats
//! the same shape and is indented two further spaces per nesting level.  The
//! grammar is line-oriented: a delimiter is a line that is exactly `---` at
//! the current indentation.
//!
//! A `---` line inside a body is taken as the start of the children section
//! only when the line before it is blank (or it opens the remainder); other
//! `---` body lines pass through as text.

use vstd::prelude::*;
use crate::model::{Note, NoteV};
use crate::model::{lemma_notes_model_snoc, notes_model, opt_str_view};
use crate::text::{
    all_space, chars_of_str, extend_chars, join_lines, join_lines_vec, lines_view, nat_str, no_nl,
    parse_u32_chars, parse_u32_spec, parse_u64_chars, parse_u64_spec, split_lines,
    split_lines_vec, string_of_chars, sub_chars, trim_chars, trim_spec, u32_to_chars,
    u64_to_chars,
};

verus! {

pub open spec fn key_id() -> Seq<char> {
    seq!['i', 'd']
}

pub open spec fn key_parent_id() -> Seq<char> {
    seq!['p', 'a', 'r', 'e', 'n', 't', '_', 'i', 'd']
}

pub open spec fn key_is_task() -> Seq<char> {
    seq!['i', 's', '_', 't', 'a', 's', 'k']
}

pub open spec fn key_is_done() -> Seq<char> {
    seq!['i', 's', '_', 'd', 'o', 'n', 'e']
}

pub open spec fn key_pomodoro_count() -> Seq<char> {
    seq!['p', 'o', 'm', 'o', 'd', 'o', 'r', 'o', '_', 'c', 'o', 'u', 'n', 't']
}

pub open spec fn key_title() -> Seq<char> {
    seq!['t', 'i', 't', 'l', 'e']
}

pub open spec fn key_created_at() -> Seq<char> {
    seq!['c', 'r', 'e', 'a', 't', 'e', 'd', '_', 'a', 't']
}

pub open spec fn key_updated_at() -> Seq<char> {
    seq!['u', 'p', 'd', 'a', 't', 'e', 'd', '_', 'a', 't']
}

/// A metadata delimiter line.
pub open spec fn delim() -> Seq<char> {
    seq!['-', '-', '-']
}

/// A delimiter line of the directly nested level.
pub open spec fn nested_delim() -> Seq<char> {
    seq![' ', ' ', '-', '-', '-']
}

pub open spec fn bool_chars(b: bool) -> Seq<char> {
    if b {
        seq!['t', 'r', 'u', 'e']
    } else {
        seq!['f', 'a', 'l', 's', 'e']
    }
}

/// A `key: value` metadata line.
pub open spec fn field_line(key: Seq<char>, val: Seq<char>) -> Seq<char> {
    key + seq![':', ' '] + val
}

/// The metadata lines of a note, in their fixed order.
pub open spec fn meta_lines(m: NoteV) -> Seq<Seq<char>> {
    seq![field_line(key_id(), m.id)] + (match m.parent_id {
        Some(p) => seq![field_line(key_parent_id(), p)],
        None => Seq::<Seq<char>>::empty(),
    }) + seq![
        field_line(key_is_task(), bool_chars(m.is_task)),
        field_line(key_is_done(), bool_chars(m.is_done)),
        field_line(key_pomodoro_count(), nat_str(m.pomodoro_count as int)),
        field_line(key_title(), m.title),
        field_line(key_created_at(), nat_str(m.created_at as int)),
        field_line(key_updated_at(), nat_str(m.updated_at as int)),
    ]
}

/// Every line indented by one nesting step.
pub open spec fn indent2(ls: Seq<Seq<char>>) -> Seq<Seq<char>> {
    Seq::new(ls.len(), |i: int| seq![' ', ' '] + ls[i])
}

/// One nesting step of indentation removed, where present.
pub open spec fn deindent2(ls: Seq<Seq<char>>) -> Seq<Seq<char>> {
    Seq::new(
        ls.len(),
        |i: int|
            if ls[i].len() >= 2 && ls[i][0] == ' ' && ls[i][1] == ' ' {
                ls[i].subrange(2, ls[i].len() as int)
            } else {
                ls[i]
            },
    )
}

/// The serialized lines of one child block, in the frame of its own
/// nesting level: delimited metadata, body lines, then the grandchild
/// blocks indented one step further.
pub open spec fn child_block_lines(m: NoteV) -> Seq<Seq<char>>
    decreases m, 1int,
{
    seq![delim()] + meta_lines(m) + seq![delim()] + (if m.content.len() == 0 {
        Seq::<Seq<char>>::empty()
    } else {
        split_lines(m.content)
    }) + (if m.children.len() == 0 {
        Seq::<Seq<char>>::empty()
    } else {
        indent2(children_lines(m.children))
    })
}

/// The concatenated blocks of a list of sibling children.
pub open spec fn children_lines(ms: Seq<NoteV>) -> Seq<Seq<char>>
    decreases ms, 0int,
{
    if ms.len() == 0 {
        Seq::<Seq<char>>::empty()
    } else {
        child_block_lines(ms[0]) + children_lines(ms.drop_first())
    }
}

/// The serialized lines of a whole note file.
pub open spec fn root_lines(m: NoteV) -> Seq<Seq<char>> {
    seq![delim()] + meta_lines(m) + seq![delim()] + seq![Seq::<char>::empty()] + split_lines(
        m.content,
    ) + (if m.children.len() == 0 {
        Seq::<Seq<char>>::empty()
    } else {
        seq![Seq::<char>::empty()] + children_lines(m.children)
    })
}

/// The serialized text of a whole note file.
pub open spec fn note_text(m: NoteV) -> Seq<char> {
    join_lines(root_lines(m))
}

/// The first delimiter line at or after `from`.
pub open spec fn find_delim(ls: Seq<Seq<char>>, from: int) -> Option<int>
    decreases ls.len() - from,
{
    if !(0 <= from < ls.len()) {
        None
    } else if ls[from] == delim() {
        Some(from)
    } else {
        find_delim(ls, from + 1)
    }
}

/// The first delimiter line at or after `from` whose preceding line is
/// blank, or which opens the remainder.
pub open spec fn find_boundary(ls: Seq<Seq<char>>, from: int) -> Option<int>
    decreases ls.len() - from,
{
    if !(0 <= from < ls.len()) {
        None
    } else if ls[from] == delim() && (from == 0 || all_space(ls[from - 1])) {
        Some(from)
    } else {
        find_boundary(ls, from + 1)
    }
}

/// The first nested delimiter line at or after `from`.
pub open spec fn find_nested(ls: Seq<Seq<char>>, from: int) -> Option<int>
    decreases ls.len() - from,
{
    if !(0 <= from < ls.len()) {
        None
    } else if ls[from] == nested_delim() {
        Some(from)
    } else {
        find_nested(ls, from + 1)
    }
}

/// The value of the first metadata line carrying the given key, trimmed.
pub open spec fn line_value(l: Seq<char>, key: Seq<char>) -> Option<Seq<char>> {
    let t = trim_spec(l);
    if t.len() >= key.len() + 1 && t.subrange(0, key.len() as int) == key && t[key.len() as int]
        == ':' {
        Some(trim_spec(t.subrange(key.len() as int + 1, t.len() as int)))
    } else {
        None
    }
}

pub open spec fn extract_value(ls: Seq<Seq<char>>, key: Seq<char>) -> Option<Seq<char>>
    decreases ls.len(),
{
    if ls.len() == 0 {
        None
    } else {
        match line_value(ls[0], key) {
            Some(v) => Some(v),
            None => extract_value(ls.drop_first(), key),
        }
    }
}

/// A flag field is set exactly when its value reads `true`.
pub open spec fn flag_of(o: Option<Seq<char>>) -> bool {
    o == Some(bool_chars(true))
}

/// Best-effort counter field: unparsable or absent values fall back to zero.
pub open spec fn num32_of(o: Option<Seq<char>>) -> u32 {
    match o {
        Some(v) => match parse_u32_spec(v) {
            Some(x) => x,
            None => 0u32,
        },
        None => 0u32,
    }
}

pub open spec fn num64_of(o: Option<Seq<char>>) -> u64 {
    match o {
        Some(v) => match parse_u64_spec(v) {
            Some(x) => x,
            None => 0u64,
        },
        None => 0u64,
    }
}

/// A note built from metadata lines alone: empty body, no children.  `None`
/// when the `id` field is missing.  An inherited parent id takes precedence
/// over a `parent_id` field.
pub open spec fn parse_fields(ls: Seq<Seq<char>>, inherited: Option<Seq<char>>) -> Option<NoteV> {
    match extract_value(ls, key_id()) {
        None => None,
        Some(id) => Some(
            NoteV {
                id,
                parent_id: (match inherited {
                    Some(p) => Some(p),
                    None => extract_value(ls, key_parent_id()),
                }),
                title: (match extract_value(ls, key_title()) {
                    Some(t) => t,
                    None => Seq::<char>::empty(),
                }),
                content: Seq::<char>::empty(),
                content_without_checkboxes: None,
                is_task: flag_of(extract_value(ls, key_is_task())),
                is_done: flag_of(extract_value(ls, key_is_done())),
                pomodoro_count: num32_of(extract_value(ls, key_pomodoro_count())),
                created_at: num64_of(extract_value(ls, key_created_at())),
                updated_at: num64_of(extract_value(ls, key_updated_at())),
                children: Seq::<NoteV>::empty(),
            },
        ),
    }
}

/// Parses the children section: one block per delimiter pair; a block whose
/// metadata lacks an id is skipped; scanning continues after each block.
pub open spec fn parse_children_lines(ls: Seq<Seq<char>>, pid: Seq<char>) -> Seq<NoteV>
    decreases ls.len(),
    via parse_children_lines_decreases
{
    match find_delim(ls, 0) {
        None => Seq::<NoteV>::empty(),
        Some(a) => match find_delim(ls, a + 1) {
            None => match parse_fields(ls.subrange(a + 1, ls.len() as int), Some(pid)) {
                Some(c) => seq![c],
                None => Seq::<NoteV>::empty(),
            },
            Some(b) => {
                let cend = match find_delim(ls, b + 1) {
                    Some(e) => e,
                    None => ls.len() as int,
                };
                let tail = parse_children_lines(ls.subrange(cend, ls.len() as int), pid);
                match parse_fields(ls.subrange(a + 1, b), Some(pid)) {
                    None => tail,
                    Some(c0) => {
                        let block_rest = ls.subrange(b + 1, cend);
                        let body_ls = match find_nested(block_rest, 0) {
                            Some(m) => block_rest.subrange(0, m),
                            None => block_rest,
                        };
                        let content = trim_spec(join_lines(body_ls));
                        let nested = match find_nested(block_rest, 0) {
                            Some(m) => parse_children_lines(
                                deindent2(block_rest.subrange(m, block_rest.len() as int)),
                                c0.id,
                            ),
                            None => Seq::<NoteV>::empty(),
                        };
                        seq![NoteV { content, children: nested, ..c0 }] + tail
                    },
                }
            },
        },
    }
}

pub proof fn lemma_find_delim_bounds(ls: Seq<Seq<char>>, from: int)
    ensures
        find_delim(ls, from) matches Some(i) ==> from <= i < ls.len() && ls[i] == delim(),
    decreases ls.len() - from,
{
    if 0 <= from < ls.len() && ls[from] != delim() {
        lemma_find_delim_bounds(ls, from + 1);
    }
}

pub proof fn lemma_find_nested_bounds(ls: Seq<Seq<char>>, from: int)
    ensures
        find_nested(ls, from) matches Some(i) ==> from <= i < ls.len() && ls[i] == nested_delim(),
    decreases ls.len() - from,
{
    if 0 <= from < ls.len() && ls[from] != nested_delim() {
        lemma_find_nested_bounds(ls, from + 1);
    }
}

#[via_fn]
proof fn parse_children_lines_decreases(ls: Seq<Seq<char>>, pid: Seq<char>) {
    lemma_find_delim_bounds(ls, 0);
    if let Some(a) = find_delim(ls, 0) {
        lemma_find_delim_bounds(ls, a + 1);
        if let Some(b) = find_delim(ls, a + 1) {
            lemma_find_delim_bounds(ls, b + 1);
            let cend = match find_delim(ls, b + 1) {
                Some(e) => e,
                None => ls.len() as int,
            };
            let block_rest = ls.subrange(b + 1, cend);
            lemma_find_nested_bounds(block_rest, 0);
        }
    }
}

/// `find_delim` returns the first hit.
pub proof fn lemma_find_delim_at(ls: Seq<Seq<char>>, from: int, k: int)
    requires
        0 <= from <= k < ls.len(),
        ls[k] == delim(),
        forall|j: int| from <= j < k ==> ls[j] != delim(),
    ensures
        find_delim(ls, from) == Some(k),
    decreases k - from,
{
    if from < k {
        lemma_find_delim_at(ls, from + 1, k);
    }
}

pub proof fn lemma_find_delim_none(ls: Seq<Seq<char>>, from: int)
    requires
        forall|j: int| from <= j < ls.len() ==> ls[j] != delim(),
    ensures
        find_delim(ls, from) is None,
    decreases ls.len() - from,
{
    if 0 <= from < ls.len() {
        lemma_find_delim_none(ls, from + 1);
    }
}

pub proof fn lemma_find_boundary_at(ls: Seq<Seq<char>>, from: int, k: int)
    requires
        0 <= from <= k < ls.len(),
        ls[k] == delim() && (k == 0 || all_space(ls[k - 1])),
        forall|j: int| from <= j < k ==> !(#[trigger] ls[j] == delim() && (j == 0 || all_space(ls[j - 1]))),
    ensures
        find_boundary(ls, from) == Some(k),
    decreases k - from,
{
    if from < k {
        lemma_find_boundary_at(ls, from + 1, k);
    }
}

pub proof fn lemma_find_boundary_none(ls: Seq<Seq<char>>, from: int)
    requires
        forall|j: int|
            from <= j < ls.len() ==> !(#[trigger] ls[j] == delim() && (j == 0 || all_space(ls[j - 1]))),
    ensures
        find_boundary(ls, from) is None,
    decreases ls.len() - from,
{
    if 0 <= from < ls.len() {
        lemma_find_boundary_none(ls, from + 1);
    }
}

pub proof fn lemma_find_nested_at(ls: Seq<Seq<char>>, from: int, k: int)
    requires
        0 <= from <= k < ls.len(),
        ls[k] == nested_delim(),
        forall|j: int| from <= j < k ==> ls[j] != nested_delim(),
    ensures
        find_nested(ls, from) == Some(k),
    decreases k - from,
{
    if from < k {
        lemma_find_nested_at(ls, from + 1, k);
    }
}

pub proof fn lemma_find_nested_none(ls: Seq<Seq<char>>, from: int)
    requires
        forall|j: int| from <= j < ls.len() ==> ls[j] != nested_delim(),
    ensures
        find_nested(ls, from) is None,
    decreases ls.len() - from,
{
    if 0 <= from < ls.len() {
        lemma_find_nested_none(ls, from + 1);
    }
}

/// `extract_value` returns the value of the first matching line.
pub proof fn lemma_extract_at(ls: Seq<Seq<char>>, key: Seq<char>, k: int)
    requires
        0 <= k < ls.len(),
        line_value(ls[k], key) is Some,
        forall|j: int| 0 <= j < k ==> line_value(#[trigger] ls[j], key) is None,
    ensures
        extract_value(ls, key) == line_value(ls[k], key),
    decreases k,
{
    if k == 0 {
    } else {
        assert(line_value(ls[0], key) is None);
        assert forall|j: int| 0 <= j < k - 1 implies line_value(
            #[trigger] ls.drop_first()[j],
            key,
        ) is None by {
            assert(ls.drop_first()[j] == ls[j + 1]);
        }
        assert(ls.drop_first()[k - 1] == ls[k]);
        lemma_extract_at(ls.drop_first(), key, k - 1);
    }
}

pub proof fn lemma_extract_none(ls: Seq<Seq<char>>, key: Seq<char>)
    requires
        forall|j: int| 0 <= j < ls.len() ==> line_value(#[trigger] ls[j], key) is None,
    ensures
        extract_value(ls, key) is None,
    decreases ls.len(),
{
    if ls.len() != 0 {
        assert forall|j: int| 0 <= j < ls.drop_first().len() implies line_value(
            #[trigger] ls.drop_first()[j],
            key,
        ) is None by {
            assert(ls.drop_first()[j] == ls[j + 1]);
        }
        lemma_extract_none(ls.drop_first(), key);
    }
}

/// Parses a whole note file.  `None` when the two metadata delimiters or
/// the `id` field are missing.
pub open spec fn parse_note_text(s: Seq<char>, inherited: Option<Seq<char>>) -> Option<NoteV> {
    let ls = split_lines(s);
    match find_delim(ls, 0) {
        None => None,
        Some(a) => match find_delim(ls, a + 1) {
            None => None,
            Some(b) => match parse_fields(ls.subrange(a + 1, b), inherited) {
                None => None,
                Some(n0) => {
                    let rest = ls.subrange(b + 1, ls.len() as int);
                    let body_ls = match find_boundary(rest, 0) {
                        Some(k) => rest.subrange(0, k),
                        None => rest,
                    };
                    let content = trim_spec(join_lines(body_ls));
                    let children = match find_boundary(rest, 0) {
                        Some(k) => parse_children_lines(rest.subrange(k, rest.len() as int), n0.id),
                        None => Seq::<NoteV>::empty(),
                    };
                    Some(NoteV { content, children, ..n0 })
                },
            },
        },
    }
}

/// The file lacks its two metadata delimiters.
pub open spec fn missing_delims(s: Seq<char>) -> bool {
    let ls = split_lines(s);
    match find_delim(ls, 0) {
        None => true,
        Some(a) => find_delim(ls, a + 1) is None,
    }
}

/// A note tree with bodies trimmed and the derived field cleared, as
/// parsing reproduces it.
pub open spec fn normalize_note(m: NoteV) -> NoteV
    decreases m, 1int,
{
    NoteV {
        content: trim_spec(m.content),
        content_without_checkboxes: None,
        children: normalize_notes(m.children),
        ..m
    }
}

pub open spec fn normalize_notes(ms: Seq<NoteV>) -> Seq<NoteV>
    decreases ms, 0int,
{
    if ms.len() == 0 {
        Seq::<NoteV>::empty()
    } else {
        seq![normalize_note(ms[0])] + normalize_notes(ms.drop_first())
    }
}

/// Scalar fields that survive the trip to disk: single-line, trim-stable.
pub open spec fn meta_ok(m: NoteV) -> bool {
    &&& no_nl(m.id)
    &&& trim_spec(m.id) == m.id
    &&& no_nl(m.title)
    &&& trim_spec(m.title) == m.title
    &&& (match m.parent_id {
        Some(p) => no_nl(p) && trim_spec(p) == p,
        None => true,
    })
}

/// A root body must not hold a `---` line in boundary position: such a line
/// would read as the start of the children section.
pub open spec fn root_content_ok(c: Seq<char>) -> bool {
    let ls = split_lines(c);
    forall|i: int|
        0 <= i < ls.len() ==> !(#[trigger] ls[i] == delim() && (i == 0 || all_space(ls[i - 1])))
}

/// A child body must not hold a line that reads as a delimiter of its own
/// level or of the directly nested level.
pub open spec fn child_content_ok(c: Seq<char>) -> bool {
    let ls = split_lines(c);
    forall|i: int| 0 <= i < ls.len() ==> #[trigger] ls[i] != delim() && ls[i] != nested_delim()
}

/// Serializability of a child list: ids consistent with the parent,
/// metadata single-line, bodies free of delimiter lines, recursively.
pub open spec fn wf_children(ms: Seq<NoteV>, pid: Seq<char>) -> bool
    decreases ms, 0int,
{
    if ms.len() == 0 {
        true
    } else {
        &&& ms[0].parent_id == Some(pid)
        &&& meta_ok(ms[0])
        &&& child_content_ok(ms[0].content)
        &&& wf_children(ms[0].children, ms[0].id)
        &&& wf_children(ms.drop_first(), pid)
    }
}

/// Serializability of a whole note tree: what the round trip requires.
pub open spec fn wf_note(m: NoteV) -> bool {
    meta_ok(m) && root_content_ok(m.content) && wf_children(m.children, m.id)
}

proof fn lemma_children_lines_snoc(ms: Seq<NoteV>, m: NoteV)
    ensures
        children_lines(ms.push(m)) == children_lines(ms) + child_block_lines(m),
    decreases ms.len(),
{
    let w = ms.push(m);
    if ms.len() == 0 {
        reveal_with_fuel(children_lines, 3);
        assert(w[0] == m);
        assert(w.drop_first() =~= Seq::<NoteV>::empty());
        assert(children_lines(w) =~= children_lines(ms) + child_block_lines(m));
    } else {
        assert(w[0] == ms[0]);
        assert(w.drop_first() =~= ms.drop_first().push(m));
        lemma_children_lines_snoc(ms.drop_first(), m);
        assert(children_lines(w) =~= children_lines(ms) + child_block_lines(m));
    }
}

fn delim_chars() -> (v: Vec<char>)
    ensures
        v@ == delim(),
{
    let mut v: Vec<char> = Vec::new();
    v.push('-');
    v.push('-');
    v.push('-');
    proof {
        assert(v@ =~= delim());
    }
    v
}

fn bool_chars_vec(b: bool) -> (v: Vec<char>)
    ensures
        v@ == bool_chars(b),
{
    let mut v: Vec<char> = Vec::new();
    if b {
        v.push('t');
        v.push('r');
        v.push('u');
        v.push('e');
    } else {
        v.push('f');
        v.push('a');
        v.push('l');
        v.push('s');
        v.push('e');
    }
    proof {
        assert(v@ =~= bool_chars(b));
    }
    v
}

fn field_line_vec(key: &Vec<char>, val: &Vec<char>) -> (r: Vec<char>)
    ensures
        r@ == field_line(key@, val@),
{
    let mut r = sub_chars(key, 0, key.len());
    r.push(':');
    r.push(' ');
    extend_chars(&mut r, val);
    proof {
        assert(r@ =~= field_line(key@, val@));
    }
    r
}

fn meta_lines_vec(n: &Note) -> (r: Vec<Vec<char>>)
    ensures
        lines_view(r@) == meta_lines(n.model()),
{
    let kid = chars_of_str("id");
    let kpar = chars_of_str("parent_id");
    let kta = chars_of_str("is_task");
    let kdo = chars_of_str("is_done");
    let kpc = chars_of_str("pomodoro_count");
    let kti = chars_of_str("title");
    let kca = chars_of_str("created_at");
    let kua = chars_of_str("updated_at");
    proof {
        reveal_strlit("id");
        reveal_strlit("parent_id");
        reveal_strlit("is_task");
        reveal_strlit("is_done");
        reveal_strlit("pomodoro_count");
        reveal_strlit("title");
        reveal_strlit("created_at");
        reveal_strlit("updated_at");
        assert(kid@ =~= key_id());
        assert(kpar@ =~= key_parent_id());
        assert(kta@ =~= key_is_task());
        assert(kdo@ =~= key_is_done());
        assert(kpc@ =~= key_pomodoro_count());
        assert(kti@ =~= key_title());
        assert(kca@ =~= key_created_at());
        assert(kua@ =~= key_updated_at());
    }
    let mut out: Vec<Vec<char>> = Vec::new();
    out.push(field_line_vec(&kid, &chars_of_str(n.id.as_str())));
    match &n.parent_id {
        Some(p) => {
            out.push(field_line_vec(&kpar, &chars_of_str(p.as_str())));
        },
        None => {},
    }
    out.push(field_line_vec(&kta, &bool_chars_vec(n.is_task)));
    out.push(field_line_vec(&kdo, &bool_chars_vec(n.is_done)));
    out.push(field_line_vec(&kpc, &u32_to_chars(n.pomodoro_count)));
    out.push(field_line_vec(&kti, &chars_of_str(n.title.as_str())));
    out.push(field_line_vec(&kca, &u64_to_chars(n.created_at)));
    out.push(field_line_vec(&kua, &u64_to_chars(n.updated_at)));
    proof {
        assert(lines_view(out@) =~= meta_lines(n.model()));
    }
    out
}

/// Each line with one nesting step of indentation added.
fn indent_lines(ls: &Vec<Vec<char>>) -> (r: Vec<Vec<char>>)
    ensures
        lines_view(r@) == indent2(lines_view(ls@)),
{
    let mut r: Vec<Vec<char>> = Vec::new();
    let mut i: usize = 0;
    while i < ls.len()
        invariant
            0 <= i <= ls@.len(),
            lines_view(r@) == indent2(lines_view(ls@)).subrange(0, i as int),
        decreases ls.len() - i,
    {
        let mut line: Vec<char> = Vec::new();
        line.push(' ');
        line.push(' ');
        extend_chars(&mut line, &ls[i]);
        proof {
            assert(line@ =~= indent2(lines_view(ls@))[i as int]);
        }
        let ghost prev = r@;
        r.push(line);
        proof {
            assert(lines_view(prev).len() == prev.len());
            assert(lines_view(r@) =~= indent2(lines_view(ls@)).subrange(0, i + 1 as int));
        }
        i += 1;
    }
    proof {
        assert(indent2(lines_view(ls@)).subrange(0, ls@.len() as int) =~= indent2(
            lines_view(ls@),
        ));
    }
    r
}

/// The serialized lines of one child block.
fn child_block_lines_vec(n: &Note) -> (r: Vec<Vec<char>>)
    ensures
        lines_view(r@) == child_block_lines(n.model()),
    decreases *n,
{
    let mut out: Vec<Vec<char>> = Vec::new();
    out.push(delim_chars());
    let mut fl = meta_lines_vec(n);
    let ghost flv = fl@;
    out.append(&mut fl);
    out.push(delim_chars());
    let ghost head = out@;
    if !n.content.as_str().is_empty() {
        let cs = chars_of_str(n.content.as_str());
        let mut body = split_lines_vec(&cs);
        let ghost bodyv = body@;
        out.append(&mut body);
        proof {
            assert(lines_view(out@) =~= lines_view(head) + lines_view(bodyv));
        }
    }
    let ghost mid = out@;
    if n.children.len() > 0 {
        proof {
            assert(decreases_to!(*n => n.children));
        }
        let cls = children_lines_vec(&n.children);
        let mut ind = indent_lines(&cls);
        let ghost indv = ind@;
        out.append(&mut ind);
        proof {
            assert(lines_view(out@) =~= lines_view(mid) + lines_view(indv));
        }
    }
    proof {
        assert(lines_view(out@) =~= child_block_lines(n.model()));
    }
    out
}

/// The concatenated serialized blocks of the children, in order.
fn children_lines_vec(cs: &Vec<Note>) -> (r: Vec<Vec<char>>)
    ensures
        lines_view(r@) == children_lines(notes_model(cs@)),
    decreases cs@,
{
    let mut out: Vec<Vec<char>> = Vec::new();
    let mut i: usize = 0;
    proof {
        reveal_with_fuel(children_lines, 2);
        assert(notes_model(cs@.subrange(0, 0)) =~= Seq::<NoteV>::empty()) by {
            assert(cs@.subrange(0, 0) =~= Seq::<Note>::empty());
        }
    }
    while i < cs.len()
        invariant
            0 <= i <= cs@.len(),
            lines_view(out@) == children_lines(notes_model(cs@.subrange(0, i as int))),
        decreases cs@.len() - i,
    {
        proof {
            assert(decreases_to!(cs@ => cs@[i as int]));
        }
        let mut block = child_block_lines_vec(&cs[i]);
        let ghost blockv = block@;
        let ghost outv = out@;
        out.append(&mut block);
        proof {
            lemma_notes_model_snoc(cs@.subrange(0, i as int), cs@[i as int]);
            assert(cs@.subrange(0, i + 1 as int) =~= cs@.subrange(0, i as int).push(
                cs@[i as int],
            ));
            lemma_children_lines_snoc(
                notes_model(cs@.subrange(0, i as int)),
                cs@[i as int].model(),
            );
            assert(lines_view(out@) =~= lines_view(outv) + lines_view(blockv));
            assert(lines_view(out@) =~= children_lines(notes_model(cs@.subrange(0, i + 1 as int))));
        }
        i += 1;
    }
    proof {
        assert(cs@.subrange(0, cs@.len() as int) =~= cs@);
    }
    out
}

/// The full serialized text of a note file: frontmatter, body, and the
/// recursively serialized children.
pub fn build_note_content(note: &Note) -> (s: String)
    ensures
        s@ == note_text(note.model()),
{
    let mut out: Vec<Vec<char>> = Vec::new();
    out.push(delim_chars());
    let mut fl = meta_lines_vec(note);
    let ghost flv = fl@;
    out.append(&mut fl);
    out.push(delim_chars());
    out.push(Vec::new());
    let ghost head = out@;
    let cs = chars_of_str(note.content.as_str());
    let mut body = split_lines_vec(&cs);
    let ghost bodyv = body@;
    out.append(&mut body);
    proof {
        assert(lines_view(out@) =~= lines_view(head) + lines_view(bodyv));
    }
    let ghost mid = out@;
    if note.children.len() > 0 {
        out.push(Vec::new());
        let mut cls = children_lines_vec(&note.children);
        let ghost clsv = cls@;
        out.append(&mut cls);
        proof {
            assert(lines_view(out@) =~= lines_view(mid) + seq![Seq::<char>::empty()]
                + lines_view(clsv));
        }
    }
    proof {
        assert(lines_view(out@) =~= root_lines(note.model()));
    }
    let joined = join_lines_vec(&out);
    string_of_chars(&joined)
}

/// The serialized file payload of a root note; a non-root note is never
/// written to a file of its own.
pub fn note_file_content(note: &Note) -> (r: Option<String>)
    ensures
        note.parent_id is Some ==> r is None,
        note.parent_id is None ==> (r matches Some(s) && s@ == note_text(note.model())),
{
    match &note.parent_id {
        Some(_) => None,
        None => Some(build_note_content(note)),
    }
}

/// The file name a root note is stored under: its id with the `.md`
/// extension.
pub fn note_file_name(id: &str) -> (r: String)
    ensures
        r@ == id@ + seq!['.', 'm', 'd'],
{
    let mut v = chars_of_str(id);
    v.push('.');
    v.push('m');
    v.push('d');
    proof {
        assert(v@ =~= id@ + seq!['.', 'm', 'd']);
    }
    string_of_chars(&v)
}

pub open spec fn opt_chars_view(o: Option<Vec<char>>) -> Option<Seq<char>> {
    match o {
        Some(v) => Some(v@),
        None => None,
    }
}

fn is_delim_line(l: &Vec<char>) -> (r: bool)
    ensures
        r == (l@ == delim()),
{
    if l.len() == 3 && l[0] == '-' && l[1] == '-' && l[2] == '-' {
        proof {
            assert(l@ =~= delim());
        }
        true
    } else {
        proof {
            if l@ == delim() {
                assert(l@.len() == 3 && l@[0] == '-' && l@[1] == '-' && l@[2] == '-');
            }
        }
        false
    }
}

fn is_nested_delim_line(l: &Vec<char>) -> (r: bool)
    ensures
        r == (l@ == nested_delim()),
{
    if l.len() == 5 && l[0] == ' ' && l[1] == ' ' && l[2] == '-' && l[3] == '-' && l[4] == '-' {
        proof {
            assert(l@ =~= nested_delim());
        }
        true
    } else {
        proof {
            if l@ == nested_delim() {
                assert(l@.len() == 5 && l@[0] == ' ' && l@[1] == ' ' && l@[2] == '-' && l@[3]
                    == '-' && l@[4] == '-');
            }
        }
        false
    }
}

fn all_space_line(l: &Vec<char>) -> (r: bool)
    ensures
        r == all_space(l@),
{
    let mut i: usize = 0;
    while i < l.len()
        invariant
            0 <= i <= l@.len(),
            forall|j: int| 0 <= j < i ==> crate::text::is_space_char(#[trigger] l@[j]),
        decreases l.len() - i,
    {
        if !crate::text::is_space(l[i]) {
            return false;
        }
        i += 1;
    }
    true
}

fn find_delim_vec(ls: &Vec<Vec<char>>, from: usize) -> (r: Option<usize>)
    ensures
        match r {
            Some(i) => from <= i < ls@.len() && find_delim(lines_view(ls@), from as int) == Some(
                i as int,
            ),
            None => find_delim(lines_view(ls@), from as int) is None,
        },
{
    let mut i: usize = from;
    while i < ls.len()
        invariant
            from <= i,
            forall|j: int| from <= j < i ==> #[trigger] lines_view(ls@)[j] != delim(),
        decreases ls.len() - i,
    {
        if is_delim_line(&ls[i]) {
            proof {
                assert(lines_view(ls@)[i as int] == delim());
                lemma_find_delim_at(lines_view(ls@), from as int, i as int);
            }
            return Some(i);
        }
        proof {
            assert(lines_view(ls@)[i as int] != delim());
        }
        i += 1;
    }
    proof {
        lemma_find_delim_none(lines_view(ls@), from as int);
    }
    None
}

fn find_boundary_vec(ls: &Vec<Vec<char>>, from: usize) -> (r: Option<usize>)
    ensures
        match r {
            Some(i) => from <= i < ls@.len() && find_boundary(lines_view(ls@), from as int)
                == Some(i as int),
            None => find_boundary(lines_view(ls@), from as int) is None,
        },
{
    let mut i: usize = from;
    while i < ls.len()
        invariant
            from <= i,
            forall|j: int|
                from <= j < i ==> !(#[trigger] lines_view(ls@)[j] == delim() && (j == 0
                    || all_space(lines_view(ls@)[j - 1]))),
        decreases ls.len() - i,
    {
        if is_delim_line(&ls[i]) && (i == 0 || all_space_line(&ls[i - 1])) {
            proof {
                lemma_find_boundary_at(lines_view(ls@), from as int, i as int);
            }
            return Some(i);
        }
        i += 1;
    }
    proof {
        lemma_find_boundary_none(lines_view(ls@), from as int);
    }
    None
}

fn find_nested_vec(ls: &Vec<Vec<char>>, from: usize) -> (r: Option<usize>)
    ensures
        match r {
            Some(i) => from <= i < ls@.len() && find_nested(lines_view(ls@), from as int) == Some(
                i as int,
            ),
            None => find_nested(lines_view(ls@), from as int) is None,
        },
{
    let mut i: usize = from;
    while i < ls.len()
        invariant
            from <= i,
            forall|j: int| from <= j < i ==> #[trigger] lines_view(ls@)[j] != nested_delim(),
        decreases ls.len() - i,
    {
        if is_nested_delim_line(&ls[i]) {
            proof {
                lemma_find_nested_at(lines_view(ls@), from as int, i as int);
            }
            return Some(i);
        }
        i += 1;
    }
    proof {
        lemma_find_nested_none(lines_view(ls@), from as int);
    }
    None
}

fn line_value_vec(l: &Vec<char>, key: &Vec<char>) -> (r: Option<Vec<char>>)
    ensures
        opt_chars_view(r) == line_value(l@, key@),
{
    let t = trim_chars(l);
    if t.len() <= key.len() {
        return None;
    }
    let mut i: usize = 0;
    while i < key.len()
        invariant
            0 <= i <= key@.len(),
            key@.len() < t@.len(),
            t@ == trim_spec(l@),
            forall|j: int| 0 <= j < i ==> t@[j] == key@[j],
        decreases key.len() - i,
    {
        if t[i] != key[i] {
            proof {
                if trim_spec(l@).subrange(0, key@.len() as int) == key@ {
                    assert(trim_spec(l@).subrange(0, key@.len() as int)[i as int] == t@[i as int]);
                }
            }
            return None;
        }
        i += 1;
    }
    proof {
        assert(t@.subrange(0, key@.len() as int) =~= key@);
    }
    if t[key.len()] != ':' {
        return None;
    }
    let raw = sub_chars(&t, key.len() + 1, t.len());
    let val = trim_chars(&raw);
    Some(val)
}

fn extract_value_vec(ls: &Vec<Vec<char>>, key: &Vec<char>) -> (r: Option<Vec<char>>)
    ensures
        opt_chars_view(r) == extract_value(lines_view(ls@), key@),
{
    let mut i: usize = 0;
    while i < ls.len()
        invariant
            0 <= i <= ls@.len(),
            forall|j: int| 0 <= j < i ==> line_value(#[trigger] lines_view(ls@)[j], key@) is None,
        decreases ls.len() - i,
    {
        match line_value_vec(&ls[i], key) {
            Some(v) => {
                proof {
                    lemma_extract_at(lines_view(ls@), key@, i as int);
                }
                return Some(v);
            },
            None => {},
        }
        i += 1;
    }
    proof {
        lemma_extract_none(lines_view(ls@), key@);
    }
    None
}

fn flag_from(o: Option<Vec<char>>) -> (r: bool)
    ensures
        r == flag_of(opt_chars_view(o)),
{
    match o {
        Some(v) => {
            let t = bool_chars_vec(true);
            crate::text::chars_eq(&v, &t)
        },
        None => false,
    }
}

fn num32_from(o: Option<Vec<char>>) -> (r: u32)
    ensures
        r == num32_of(opt_chars_view(o)),
{
    match o {
        Some(v) => match parse_u32_chars(&v) {
            Some(x) => x,
            None => 0,
        },
        None => 0,
    }
}

fn num64_from(o: Option<Vec<char>>) -> (r: u64)
    ensures
        r == num64_of(opt_chars_view(o)),
{
    match o {
        Some(v) => match parse_u64_chars(&v) {
            Some(x) => x,
            None => 0,
        },
        None => 0,
    }
}

fn key_chars(name: &str) -> (v: Vec<char>)
    ensures
        v@ == name@,
{
    chars_of_str(name)
}

/// The note a metadata region denotes: empty body, no children yet.
fn parse_fields_vec(meta: &Vec<Vec<char>>, inherited: Option<Vec<char>>) -> (r: Option<Note>)
    ensures
        match r {
            Some(n) => parse_fields(lines_view(meta@), opt_chars_view(inherited)) == Some(
                n.model(),
            ),
            None => parse_fields(lines_view(meta@), opt_chars_view(inherited)) is None,
        },
{
    let kid = key_chars("id");
    proof {
        reveal_strlit("id");
        assert(kid@ =~= key_id());
    }
    match extract_value_vec(meta, &kid) {
        None => None,
        Some(idv) => {
            let kpar = key_chars("parent_id");
            let kta = key_chars("is_task");
            let kdo = key_chars("is_done");
            let kpc = key_chars("pomodoro_count");
            let kti = key_chars("title");
            let kca = key_chars("created_at");
            let kua = key_chars("updated_at");
            proof {
                reveal_strlit("parent_id");
                reveal_strlit("is_task");
                reveal_strlit("is_done");
                reveal_strlit("pomodoro_count");
                reveal_strlit("title");
                reveal_strlit("created_at");
                reveal_strlit("updated_at");
                assert(kpar@ =~= key_parent_id());
                assert(kta@ =~= key_is_task());
                assert(kdo@ =~= key_is_done());
                assert(kpc@ =~= key_pomodoro_count());
                assert(kti@ =~= key_title());
                assert(kca@ =~= key_created_at());
                assert(kua@ =~= key_updated_at());
            }
            let parent: Option<Vec<char>> = match inherited {
                Some(p) => Some(p),
                None => extract_value_vec(meta, &kpar),
            };
            let titlev = match extract_value_vec(meta, &kti) {
                Some(t) => t,
                None => Vec::new(),
            };
            let n = Note {
                id: string_of_chars(&idv),
                parent_id: (match &parent {
                    Some(p) => Some(string_of_chars(p)),
                    None => None,
                }),
                title: string_of_chars(&titlev),
                content: String::new(),
                content_without_checkboxes: None,
                is_task: flag_from(extract_value_vec(meta, &kta)),
                is_done: flag_from(extract_value_vec(meta, &kdo)),
                pomodoro_count: num32_from(extract_value_vec(meta, &kpc)),
                created_at: num64_from(extract_value_vec(meta, &kca)),
                updated_at: num64_from(extract_value_vec(meta, &kua)),
                children: Vec::new(),
            };
            proof {
                assert(notes_model(n.children@) =~= Seq::<NoteV>::empty()) by {
                    assert(n.children@ =~= Seq::<Note>::empty());
                }
                assert(n.model() =~= parse_fields(
                    lines_view(meta@),
                    opt_chars_view(inherited),
                )->0);
            }
            Some(n)
        },
    }
}

/// A copy of the line range `[a, b)`.
fn sub_lines(ls: &Vec<Vec<char>>, a: usize, b: usize) -> (r: Vec<Vec<char>>)
    requires
        a <= b <= ls@.len(),
    ensures
        lines_view(r@) == lines_view(ls@).subrange(a as int, b as int),
{
    let mut r: Vec<Vec<char>> = Vec::new();
    let mut i: usize = a;
    while i < b
        invariant
            a <= i <= b <= ls@.len(),
            lines_view(r@) == lines_view(ls@).subrange(a as int, i as int),
        decreases b - i,
    {
        let line = sub_chars(&ls[i], 0, ls[i].len());
        proof {
            assert(line@ =~= lines_view(ls@)[i as int]);
        }
        let ghost prev = r@;
        r.push(line);
        proof {
            assert(lines_view(prev).len() == prev.len());
            assert(lines_view(r@) =~= lines_view(ls@).subrange(a as int, i + 1 as int));
        }
        i += 1;
    }
    r
}

/// Each line with one nesting step of indentation removed, where present.
fn deindent_lines(ls: &Vec<Vec<char>>) -> (r: Vec<Vec<char>>)
    ensures
        lines_view(r@) == deindent2(lines_view(ls@)),
{
    let mut r: Vec<Vec<char>> = Vec::new();
    let mut i: usize = 0;
    while i < ls.len()
        invariant
            0 <= i <= ls@.len(),
            lines_view(r@) == deindent2(lines_view(ls@)).subrange(0, i as int),
        decreases ls.len() - i,
    {
        let line = &ls[i];
        let out_line: Vec<char>;
        if line.len() >= 2 && line[0] == ' ' && line[1] == ' ' {
            out_line = sub_chars(line, 2, line.len());
        } else {
            out_line = sub_chars(line, 0, line.len());
            proof {
                assert(out_line@ =~= line@);
            }
        }
        proof {
            assert(out_line@ == deindent2(lines_view(ls@))[i as int]);
        }
        let ghost prev = r@;
        r.push(out_line);
        proof {
            assert(lines_view(prev).len() == prev.len());
            assert(lines_view(r@) =~= deindent2(lines_view(ls@)).subrange(0, i + 1 as int));
        }
        i += 1;
    }
    proof {
        assert(deindent2(lines_view(ls@)).subrange(0, ls@.len() as int) =~= deindent2(
            lines_view(ls@),
        ));
    }
    r
}

/// Parses the children section of a block into the list of child notes.
fn parse_children_vec(ls: &Vec<Vec<char>>, pid: &Vec<char>) -> (r: Vec<Note>)
    ensures
        notes_model(r@) == parse_children_lines(lines_view(ls@), pid@),
    decreases ls@.len(),
{
    proof {
        lemma_find_delim_bounds(lines_view(ls@), 0);
    }
    let oa = find_delim_vec(ls, 0);
    match oa {
        None => {
            let r: Vec<Note> = Vec::new();
            proof {
                assert(notes_model(r@) =~= parse_children_lines(lines_view(ls@), pid@)) by {
                    assert(r@ =~= Seq::<Note>::empty());
                }
            }
            r
        },
        Some(a) => {
            let n = ls.len();
            proof {
                assert(a < n);
            }
            match find_delim_vec(ls, a + 1) {
                None => {
                    let meta = sub_lines(ls, a + 1, ls.len());
                    let pid_copy = sub_chars(pid, 0, pid.len());
                    proof {
                        assert(pid_copy@ =~= pid@);
                    }
                    match parse_fields_vec(&meta, Some(pid_copy)) {
                        Some(c) => {
                            let mut r: Vec<Note> = Vec::new();
                            r.push(c);
                            proof {
                                assert(r@ =~= Seq::<Note>::empty().push(c));
                                lemma_notes_model_snoc(Seq::<Note>::empty(), c);
                                assert(notes_model(Seq::<Note>::empty()) =~= Seq::<
                                    NoteV,
                                >::empty());
                                assert(notes_model(r@) =~= parse_children_lines(
                                    lines_view(ls@),
                                    pid@,
                                ));
                            }
                            r
                        },
                        None => {
                            let r: Vec<Note> = Vec::new();
                            proof {
                                assert(notes_model(r@) =~= parse_children_lines(
                                    lines_view(ls@),
                                    pid@,
                                )) by {
                                    assert(r@ =~= Seq::<Note>::empty());
                                }
                            }
                            r
                        },
                    }
                },
                Some(b) => {
                    let cend = match find_delim_vec(ls, b + 1) {
                        Some(e) => e,
                        None => ls.len(),
                    };
                    let tail_lines = sub_lines(ls, cend, ls.len());
                    proof {
                        assert(lines_view(tail_lines@).len() == tail_lines@.len());
                        assert(lines_view(ls@).len() == ls@.len());
                        assert(tail_lines@.len() < ls@.len());
                    }
                    let mut tail = parse_children_vec(&tail_lines, pid);
                    let meta = sub_lines(ls, a + 1, b);
                    let pid_copy = sub_chars(pid, 0, pid.len());
                    proof {
                        assert(pid_copy@ =~= pid@);
                    }
                    match parse_fields_vec(&meta, Some(pid_copy)) {
                        None => tail,
                        Some(c0) => {
                            let block_rest = sub_lines(ls, b + 1, cend);
                            let body_lines: Vec<Vec<char>>;
                            let nested_notes: Vec<Note>;
                            match find_nested_vec(&block_rest, 0) {
                                Some(mm) => {
                                    body_lines = sub_lines(&block_rest, 0, mm);
                                    let nest_raw = sub_lines(&block_rest, mm, block_rest.len());
                                    let nest = deindent_lines(&nest_raw);
                                    proof {
                                        assert(lines_view(nest@).len() == nest@.len());
                                        assert(lines_view(nest_raw@).len() == nest_raw@.len());
                                        assert(lines_view(block_rest@).len()
                                            == block_rest@.len());
                                        assert(lines_view(ls@).len() == ls@.len());
                                        assert(nest@.len() <= block_rest@.len());
                                        assert(block_rest@.len() <= ls@.len() - 2);
                                    }
                                    let c0_id = chars_of_str(c0.id.as_str());
                                    nested_notes = parse_children_vec(&nest, &c0_id);
                                },
                                None => {
                                    body_lines = block_rest;
                                    nested_notes = Vec::new();
                                    proof {
                                        assert(notes_model(nested_notes@) =~= Seq::<
                                            NoteV,
                                        >::empty()) by {
                                            assert(nested_notes@ =~= Seq::<Note>::empty());
                                        }
                                    }
                                },
                            }
                            let joined = join_lines_vec(&body_lines);
                            let content_chars = trim_chars(&joined);
                            let child = Note {
                                content: string_of_chars(&content_chars),
                                children: nested_notes,
                                ..c0
                            };
                            let mut r: Vec<Note> = Vec::new();
                            r.push(child);
                            let ghost tailv = tail@;
                            r.append(&mut tail);
                            proof {
                                assert(r@[0] == child);
                                assert(r@.drop_first() =~= tailv);
                                assert(notes_model(r@) == seq![child.model()] + notes_model(
                                    r@.drop_first(),
                                ));
                                assert(child.model() =~= parse_children_lines(
                                    lines_view(ls@),
                                    pid@,
                                )[0]);
                                assert(notes_model(r@) =~= parse_children_lines(
                                    lines_view(ls@),
                                    pid@,
                                ));
                            }
                            r
                        },
                    }
                },
            }
        },
    }
}

/// Parses a whole note file into a note tree.  A file without the two
/// metadata delimiters is a format error; a metadata block without an `id`
/// is a missing-id error.  The inherited parent id, when given, overrides
/// any `parent_id` field.
pub fn parse_note_file(content: &str, parent_id: Option<String>) -> (r: Result<Note, String>)
    ensures
        match r {
            Ok(n) => parse_note_text(content@, opt_str_view(parent_id)) == Some(n.model()),
            Err(e) => parse_note_text(content@, opt_str_view(parent_id)) is None && e@ == (
            if missing_delims(content@) {
                "Invalid note format"@
            } else {
                "Missing ID"@
            }),
        },
{
    let chars = chars_of_str(content);
    let lines = split_lines_vec(&chars);
    match find_delim_vec(&lines, 0) {
        None => Err(crate::text::str_to_string("Invalid note format")),
        Some(a) => {
            let n = lines.len();
            proof {
                assert(a < n);
            }
            match find_delim_vec(&lines, a + 1) {
                None => Err(crate::text::str_to_string("Invalid note format")),
                Some(b) => {
                    proof {
                        assert(b < n);
                    }
                    let meta = sub_lines(&lines, a + 1, b);
                    let inherited: Option<Vec<char>> = match &parent_id {
                        Some(p) => Some(chars_of_str(p.as_str())),
                        None => None,
                    };
                    match parse_fields_vec(&meta, inherited) {
                        None => Err(crate::text::str_to_string("Missing ID")),
                        Some(n0) => {
                            let rest = sub_lines(&lines, b + 1, lines.len());
                            let body_lines: Vec<Vec<char>>;
                            let children: Vec<Note>;
                            match find_boundary_vec(&rest, 0) {
                                Some(k) => {
                                    body_lines = sub_lines(&rest, 0, k);
                                    let section = sub_lines(&rest, k, rest.len());
                                    let n0_id = chars_of_str(n0.id.as_str());
                                    children = parse_children_vec(&section, &n0_id);
                                },
                                None => {
                                    body_lines = rest;
                                    children = Vec::new();
                                    proof {
                                        assert(notes_model(children@) =~= Seq::<
                                            NoteV,
                                        >::empty()) by {
                                            assert(children@ =~= Seq::<Note>::empty());
                                        }
                                    }
                                },
                            }
                            let joined = join_lines_vec(&body_lines);
                            let content_chars = trim_chars(&joined);
                            let n = Note {
                                content: string_of_chars(&content_chars),
                                children,
                                ..n0
                            };
                            proof {
                                assert(n.model() =~= parse_note_text(
                                    content@,
                                    opt_str_view(parent_id),
                                )->0);
                            }
                            Ok(n)
                        },
                    }
                },
            }
        },
    }
}

} // verus!

//! The codec's round-trip law: parsing the serialization of a
//! serializable note tree reproduces the tree, with bodies trimmed and the
//! derived field cleared.

use vstd::prelude::*;
use crate::model::NoteV;
use crate::codec::{
    bool_chars, child_block_lines, children_lines, deindent2, delim,
    field_line, flag_of, indent2, key_id,
    lemma_extract_at, lemma_extract_none, lemma_find_boundary_at, lemma_find_boundary_none,
    lemma_find_delim_at, lemma_find_delim_none, lemma_find_nested_at, lemma_find_nested_none,
    key_created_at, key_is_done, key_is_task, key_parent_id, key_pomodoro_count, key_title,
    key_updated_at, line_value, meta_lines, meta_ok, nested_delim, normalize_note,
    normalize_notes, note_text, num32_of, num64_of, parse_children_lines, parse_fields,
    parse_note_text, root_lines, wf_children, wf_note,
};
use crate::text::{
    all_space, is_space_char, join_lines, lemma_join_lines_snoc, lemma_join_split,
    lemma_nat_str, lemma_split_join, lemma_split_lines_flat, lemma_split_lines_len,
    lemma_trim_pad_end, lemma_trim_pad_start, lemma_trim_stable_ends, lemma_trim_stable_if_ends,
    nat_str, no_nl, split_lines, trim_end_spec, trim_spec, trim_start_spec,
};

verus! {

/// A metadata line yields its own trim-stable value under its own key.
proof fn lemma_line_value_hit(key: Seq<char>, v: Seq<char>)
    requires
        key.len() >= 1,
        !is_space_char(key[0]),
        trim_spec(v) == v,
    ensures
        line_value(field_line(key, v), key) == Some(v),
{
    let l = field_line(key, v);
    assert(l[0] == key[0]);
    assert(trim_start_spec(l) == l);
    if v.len() == 0 {
        assert(l.last() == ' ');
        assert(l.drop_last() =~= key + seq![':']);
        assert((key + seq![':']).last() == ':');
        let t = key + seq![':'];
        assert(trim_end_spec(l) == trim_end_spec(l.drop_last()));
        assert(!is_space_char(t.last()));
        assert(trim_end_spec(t) == t);
        assert(trim_spec(l) == t);
        assert(t.subrange(0, key.len() as int) =~= key);
        assert(t[key.len() as int] == ':');
        assert(t.subrange(key.len() as int + 1, t.len() as int) =~= Seq::<char>::empty());
        assert(trim_spec(Seq::<char>::empty()) == Seq::<char>::empty());
    } else {
        lemma_trim_stable_ends(v);
        assert(l.last() == v.last());
        assert(trim_spec(l) == l);
        assert(l.subrange(0, key.len() as int) =~= key);
        assert(l[key.len() as int] == ':');
        assert(l.subrange(key.len() as int + 1, l.len() as int) =~= seq![' '] + v);
        lemma_trim_pad_start(v, ' ');
    }
}

/// A metadata line never matches a key that differs from its own at some
/// position.
proof fn lemma_line_value_miss(key2: Seq<char>, v: Seq<char>, key: Seq<char>, w: int)
    requires
        key2.len() >= 1,
        !is_space_char(key2[0]),
        trim_spec(v) == v,
        0 <= w < key.len(),
        w < key2.len(),
        key2[w] != key[w],
    ensures
        line_value(field_line(key2, v), key) is None,
{
    let l = field_line(key2, v);
    assert(l[0] == key2[0]);
    assert(trim_start_spec(l) == l);
    let t = trim_spec(l);
    if v.len() == 0 {
        assert(l.last() == ' ');
        assert(l.drop_last() =~= key2 + seq![':']);
        assert((key2 + seq![':']).last() == ':');
        assert(trim_end_spec(l) == trim_end_spec(l.drop_last()));
        assert(!is_space_char((key2 + seq![':']).last()));
        assert(trim_end_spec(key2 + seq![':']) == key2 + seq![':']);
        assert(t == key2 + seq![':']);
        assert(t[w] == key2[w]);
    } else {
        lemma_trim_stable_ends(v);
        assert(l.last() == v.last());
        assert(t == l);
        assert(t[w] == key2[w]);
    }
    if t.len() >= key.len() + 1 && t.subrange(0, key.len() as int) == key {
        assert(t.subrange(0, key.len() as int)[w] == t[w]);
        assert(false);
    }
}

proof fn lemma_bool_chars_ts(b: bool)
    ensures
        trim_spec(bool_chars(b)) == bool_chars(b),
        no_nl(bool_chars(b)),
{
    lemma_trim_stable_if_ends(bool_chars(b));
}

proof fn lemma_nat_str_ts(n: int)
    requires
        n >= 0,
    ensures
        trim_spec(nat_str(n)) == nat_str(n),
        no_nl(nat_str(n)),
{
    lemma_nat_str(n);
    crate::text::lemma_digits_not_space(nat_str(n));
    assert forall|i: int| 0 <= i < nat_str(n).len() implies #[trigger] nat_str(n)[i] != '\n' by {
        assert(crate::text::is_digit_char(nat_str(n)[i]));
    }
}

/// A metadata line is no delimiter and holds no newline.
proof fn lemma_field_line_shape(key: Seq<char>, v: Seq<char>)
    requires
        key.len() >= 1,
        !is_space_char(key[0]),
        key[0] != '-',
        no_nl(key),
        no_nl(v),
    ensures
        field_line(key, v) != delim(),
        field_line(key, v) != nested_delim(),
        no_nl(field_line(key, v)),
{
    let l = field_line(key, v);
    assert(l[0] == key[0]);
    if l == delim() {
        assert(l[0] == '-');
    }
    if l == nested_delim() {
        assert(l[0] == ' ');
    }
    assert forall|i: int| 0 <= i < l.len() implies #[trigger] l[i] != '\n' by {
        if i < key.len() {
            assert(l[i] == key[i]);
        } else if i >= key.len() + 2 {
            assert(l[i] == v[i - key.len() - 2]);
        }
    }
}

/// Every metadata line of a well-formed note is single-line and is no
/// delimiter.
proof fn lemma_meta_lines_shape(m: NoteV)
    requires
        meta_ok(m),
    ensures
        forall|i: int|
            0 <= i < meta_lines(m).len() ==> #[trigger] meta_lines(m)[i] != delim()
                && meta_lines(m)[i] != nested_delim() && no_nl(meta_lines(m)[i]),
        meta_lines(m).len() >= 7,
{
    let fl = meta_lines(m);
    lemma_bool_chars_ts(m.is_task);
    lemma_bool_chars_ts(m.is_done);
    lemma_nat_str_ts(m.pomodoro_count as int);
    lemma_nat_str_ts(m.created_at as int);
    lemma_nat_str_ts(m.updated_at as int);
    lemma_field_line_shape(key_id(), m.id);
    lemma_field_line_shape(key_is_task(), bool_chars(m.is_task));
    lemma_field_line_shape(key_is_done(), bool_chars(m.is_done));
    lemma_field_line_shape(key_pomodoro_count(), nat_str(m.pomodoro_count as int));
    lemma_field_line_shape(key_title(), m.title);
    lemma_field_line_shape(key_created_at(), nat_str(m.created_at as int));
    lemma_field_line_shape(key_updated_at(), nat_str(m.updated_at as int));
    match m.parent_id {
        Some(p) => {
            lemma_field_line_shape(key_parent_id(), p);
            assert(fl.len() == 8);
            assert forall|i: int|
                0 <= i < fl.len() implies #[trigger] fl[i] != delim() && fl[i] != nested_delim()
                && no_nl(fl[i]) by {
                assert(fl[0] == field_line(key_id(), m.id));
                assert(fl[1] == field_line(key_parent_id(), p));
                assert(fl[2] == field_line(key_is_task(), bool_chars(m.is_task)));
                assert(fl[3] == field_line(key_is_done(), bool_chars(m.is_done)));
                assert(fl[4] == field_line(key_pomodoro_count(), nat_str(m.pomodoro_count as int)));
                assert(fl[5] == field_line(key_title(), m.title));
                assert(fl[6] == field_line(key_created_at(), nat_str(m.created_at as int)));
                assert(fl[7] == field_line(key_updated_at(), nat_str(m.updated_at as int)));
            }
        },
        None => {
            assert(fl.len() == 7);
            assert forall|i: int|
                0 <= i < fl.len() implies #[trigger] fl[i] != delim() && fl[i] != nested_delim()
                && no_nl(fl[i]) by {
                assert(fl[0] == field_line(key_id(), m.id));
                assert(fl[1] == field_line(key_is_task(), bool_chars(m.is_task)));
                assert(fl[2] == field_line(key_is_done(), bool_chars(m.is_done)));
                assert(fl[3] == field_line(key_pomodoro_count(), nat_str(m.pomodoro_count as int)));
                assert(fl[4] == field_line(key_title(), m.title));
                assert(fl[5] == field_line(key_created_at(), nat_str(m.created_at as int)));
                assert(fl[6] == field_line(key_updated_at(), nat_str(m.updated_at as int)));
            }
        },
    }
}

/// Reading the metadata lines back yields the note's own fields.
proof fn lemma_parse_fields_meta(m: NoteV, inherited: Option<Seq<char>>)
    requires
        meta_ok(m),
        inherited is Some ==> inherited == m.parent_id,
        inherited is None ==> true,
    ensures
        parse_fields(meta_lines(m), inherited) matches Some(c) && c == (NoteV {
            content: Seq::<char>::empty(),
            content_without_checkboxes: None,
            children: Seq::<NoteV>::empty(),
            ..m
        }),
{
    let fl = meta_lines(m);
    lemma_bool_chars_ts(m.is_task);
    lemma_bool_chars_ts(m.is_done);
    lemma_nat_str_ts(m.pomodoro_count as int);
    lemma_nat_str_ts(m.created_at as int);
    lemma_nat_str_ts(m.updated_at as int);
    let vid = m.id;
    let vta = bool_chars(m.is_task);
    let vdo = bool_chars(m.is_done);
    let vpc = nat_str(m.pomodoro_count as int);
    let vti = m.title;
    let vca = nat_str(m.created_at as int);
    let vua = nat_str(m.updated_at as int);
    lemma_line_value_hit(key_id(), vid);
    lemma_line_value_hit(key_is_task(), vta);
    lemma_line_value_hit(key_is_done(), vdo);
    lemma_line_value_hit(key_pomodoro_count(), vpc);
    lemma_line_value_hit(key_title(), vti);
    lemma_line_value_hit(key_created_at(), vca);
    lemma_line_value_hit(key_updated_at(), vua);
    match m.parent_id {
        Some(p) => {
            lemma_line_value_hit(key_parent_id(), p);
            assert(fl.len() == 8);
            assert(fl[0] == field_line(key_id(), vid));
            assert(fl[1] == field_line(key_parent_id(), p));
            assert(fl[2] == field_line(key_is_task(), vta));
            assert(fl[3] == field_line(key_is_done(), vdo));
            assert(fl[4] == field_line(key_pomodoro_count(), vpc));
            assert(fl[5] == field_line(key_title(), vti));
            assert(fl[6] == field_line(key_created_at(), vca));
            assert(fl[7] == field_line(key_updated_at(), vua));
            // id: first line matches.
            lemma_extract_at(fl, key_id(), 0);
            // parent_id: the id line does not match.
            lemma_line_value_miss(key_id(), vid, key_parent_id(), 0);
            lemma_extract_at(fl, key_parent_id(), 1);
            // is_task.
            lemma_line_value_miss(key_id(), vid, key_is_task(), 1);
            lemma_line_value_miss(key_parent_id(), p, key_is_task(), 0);
            lemma_extract_at(fl, key_is_task(), 2);
            // is_done.
            lemma_line_value_miss(key_id(), vid, key_is_done(), 1);
            lemma_line_value_miss(key_parent_id(), p, key_is_done(), 0);
            lemma_line_value_miss(key_is_task(), vta, key_is_done(), 3);
            lemma_extract_at(fl, key_is_done(), 3);
            // pomodoro_count.
            lemma_line_value_miss(key_id(), vid, key_pomodoro_count(), 0);
            lemma_line_value_miss(key_parent_id(), p, key_pomodoro_count(), 1);
            lemma_line_value_miss(key_is_task(), vta, key_pomodoro_count(), 0);
            lemma_line_value_miss(key_is_done(), vdo, key_pomodoro_count(), 0);
            lemma_extract_at(fl, key_pomodoro_count(), 4);
            // title.
            lemma_line_value_miss(key_id(), vid, key_title(), 0);
            lemma_line_value_miss(key_parent_id(), p, key_title(), 0);
            lemma_line_value_miss(key_is_task(), vta, key_title(), 0);
            lemma_line_value_miss(key_is_done(), vdo, key_title(), 0);
            lemma_line_value_miss(key_pomodoro_count(), vpc, key_title(), 0);
            lemma_extract_at(fl, key_title(), 5);
            // created_at.
            lemma_line_value_miss(key_id(), vid, key_created_at(), 0);
            lemma_line_value_miss(key_parent_id(), p, key_created_at(), 0);
            lemma_line_value_miss(key_is_task(), vta, key_created_at(), 0);
            lemma_line_value_miss(key_is_done(), vdo, key_created_at(), 0);
            lemma_line_value_miss(key_pomodoro_count(), vpc, key_created_at(), 0);
            lemma_line_value_miss(key_title(), vti, key_created_at(), 0);
            lemma_extract_at(fl, key_created_at(), 6);
            // updated_at.
            lemma_line_value_miss(key_id(), vid, key_updated_at(), 0);
            lemma_line_value_miss(key_parent_id(), p, key_updated_at(), 0);
            lemma_line_value_miss(key_is_task(), vta, key_updated_at(), 0);
            lemma_line_value_miss(key_is_done(), vdo, key_updated_at(), 0);
            lemma_line_value_miss(key_pomodoro_count(), vpc, key_updated_at(), 0);
            lemma_line_value_miss(key_title(), vti, key_updated_at(), 0);
            lemma_line_value_miss(key_created_at(), vca, key_updated_at(), 0);
            lemma_extract_at(fl, key_updated_at(), 7);
        },
        None => {
            assert(fl.len() == 7);
            assert(fl[0] == field_line(key_id(), vid));
            assert(fl[1] == field_line(key_is_task(), vta));
            assert(fl[2] == field_line(key_is_done(), vdo));
            assert(fl[3] == field_line(key_pomodoro_count(), vpc));
            assert(fl[4] == field_line(key_title(), vti));
            assert(fl[5] == field_line(key_created_at(), vca));
            assert(fl[6] == field_line(key_updated_at(), vua));
            // id.
            lemma_extract_at(fl, key_id(), 0);
            // parent_id: nothing matches.
            lemma_line_value_miss(key_id(), vid, key_parent_id(), 0);
            lemma_line_value_miss(key_is_task(), vta, key_parent_id(), 0);
            lemma_line_value_miss(key_is_done(), vdo, key_parent_id(), 0);
            lemma_line_value_miss(key_pomodoro_count(), vpc, key_parent_id(), 1);
            lemma_line_value_miss(key_title(), vti, key_parent_id(), 0);
            lemma_line_value_miss(key_created_at(), vca, key_parent_id(), 0);
            lemma_line_value_miss(key_updated_at(), vua, key_parent_id(), 0);
            lemma_extract_none(fl, key_parent_id());
            // is_task.
            lemma_line_value_miss(key_id(), vid, key_is_task(), 1);
            lemma_extract_at(fl, key_is_task(), 1);
            // is_done.
            lemma_line_value_miss(key_id(), vid, key_is_done(), 1);
            lemma_line_value_miss(key_is_task(), vta, key_is_done(), 3);
            lemma_extract_at(fl, key_is_done(), 2);
            // pomodoro_count.
            lemma_line_value_miss(key_id(), vid, key_pomodoro_count(), 0);
            lemma_line_value_miss(key_is_task(), vta, key_pomodoro_count(), 0);
            lemma_line_value_miss(key_is_done(), vdo, key_pomodoro_count(), 0);
            lemma_extract_at(fl, key_pomodoro_count(), 3);
            // title.
            lemma_line_value_miss(key_id(), vid, key_title(), 0);
            lemma_line_value_miss(key_is_task(), vta, key_title(), 0);
            lemma_line_value_miss(key_is_done(), vdo, key_title(), 0);
            lemma_line_value_miss(key_pomodoro_count(), vpc, key_title(), 0);
            lemma_extract_at(fl, key_title(), 4);
            // created_at.
            lemma_line_value_miss(key_id(), vid, key_created_at(), 0);
            lemma_line_value_miss(key_is_task(), vta, key_created_at(), 0);
            lemma_line_value_miss(key_is_done(), vdo, key_created_at(), 0);
            lemma_line_value_miss(key_pomodoro_count(), vpc, key_created_at(), 0);
            lemma_line_value_miss(key_title(), vti, key_created_at(), 0);
            lemma_extract_at(fl, key_created_at(), 5);
            // updated_at.
            lemma_line_value_miss(key_id(), vid, key_updated_at(), 0);
            lemma_line_value_miss(key_is_task(), vta, key_updated_at(), 0);
            lemma_line_value_miss(key_is_done(), vdo, key_updated_at(), 0);
            lemma_line_value_miss(key_pomodoro_count(), vpc, key_updated_at(), 0);
            lemma_line_value_miss(key_title(), vti, key_updated_at(), 0);
            lemma_line_value_miss(key_created_at(), vca, key_updated_at(), 0);
            lemma_extract_at(fl, key_updated_at(), 6);
        },
    }
    // The flag and counter values read back as themselves.
    if m.is_task {
        assert(flag_of(Some(vta)) == true);
    } else {
        assert(vta[0] == 'f' && bool_chars(true)[0] == 't');
        assert(flag_of(Some(vta)) == false);
    }
    if m.is_done {
        assert(flag_of(Some(vdo)) == true);
    } else {
        assert(vdo[0] == 'f' && bool_chars(true)[0] == 't');
        assert(flag_of(Some(vdo)) == false);
    }
    lemma_nat_str(m.pomodoro_count as int);
    lemma_nat_str(m.created_at as int);
    lemma_nat_str(m.updated_at as int);
    assert(num32_of(Some(vpc)) == m.pomodoro_count);
    assert(num64_of(Some(vca)) == m.created_at);
    assert(num64_of(Some(vua)) == m.updated_at);
}

/// An indented line is never a same-level delimiter.
proof fn lemma_indent2_shape(ls: Seq<Seq<char>>)
    ensures
        forall|j: int| 0 <= j < indent2(ls).len() ==> #[trigger] indent2(ls)[j] != delim(),
        indent2(ls).len() == ls.len(),
{
    assert forall|j: int| 0 <= j < indent2(ls).len() implies #[trigger] indent2(ls)[j]
        != delim() by {
        assert(indent2(ls)[j][0] == ' ');
        if indent2(ls)[j] == delim() {
            assert(delim()[0] == '-');
        }
    }
}

/// Removing the indentation it added restores the lines.
proof fn lemma_deindent_indent(ls: Seq<Seq<char>>)
    ensures
        deindent2(indent2(ls)) == ls,
{
    assert forall|j: int| 0 <= j < ls.len() implies deindent2(indent2(ls))[j] == ls[j] by {
        let w = indent2(ls)[j];
        assert(w == seq![' ', ' '] + ls[j]);
        assert(w.len() >= 2 && w[0] == ' ' && w[1] == ' ');
        assert(w.subrange(2, w.len() as int) =~= ls[j]);
    }
    assert(deindent2(indent2(ls)) =~= ls);
}

/// The serialized lines of a well-formed child list hold no newline.
proof fn lemma_children_lines_no_nl(ms: Seq<NoteV>, pid: Seq<char>)
    requires
        wf_children(ms, pid),
    ensures
        forall|i: int|
            0 <= i < children_lines(ms).len() ==> no_nl(#[trigger] children_lines(ms)[i]),
    decreases ms,
{
    if ms.len() != 0 {
        let m = ms[0];
        let b = child_block_lines(m);
        lemma_meta_lines_shape(m);
        lemma_split_lines_flat(m.content);
        lemma_children_lines_no_nl(m.children, m.id);
        lemma_children_lines_no_nl(ms.drop_first(), pid);
        assert forall|i: int| 0 <= i < b.len() implies no_nl(#[trigger] b[i]) by {
            let flen = meta_lines(m).len() as int;
            if i == 0 || i == 1 + flen {
                assert(b[i] == delim());
            } else if i < 1 + flen {
                assert(b[i] == meta_lines(m)[i - 1]);
            } else {
                let body = if m.content.len() == 0 {
                    Seq::<Seq<char>>::empty()
                } else {
                    split_lines(m.content)
                };
                if i < 2 + flen + body.len() {
                    assert(b[i] == body[i - 2 - flen]);
                    assert(no_nl(split_lines(m.content)[i - 2 - flen])) by {
                        assert(forall|q: int|
                            0 <= q < split_lines(m.content)[i - 2 - flen].len()
                                ==> #[trigger] split_lines(m.content)[i - 2 - flen][q] != '\n');
                    }
                } else {
                    let nested = indent2(children_lines(m.children));
                    let j = i - 2 - flen - body.len();
                    assert(b[i] == nested[j]);
                    assert(nested[j] == seq![' ', ' '] + children_lines(m.children)[j]);
                    assert(no_nl(children_lines(m.children)[j]));
                    assert forall|q: int| 0 <= q < nested[j].len() implies #[trigger] nested[j][q]
                        != '\n' by {
                        if q >= 2 {
                            assert(nested[j][q] == children_lines(m.children)[j][q - 2]);
                        }
                    }
                }
            }
        }
        assert forall|i: int| 0 <= i < children_lines(ms).len() implies no_nl(
            #[trigger] children_lines(ms)[i],
        ) by {
            if i < b.len() {
                assert(children_lines(ms)[i] == b[i]);
            } else {
                assert(children_lines(ms)[i] == children_lines(ms.drop_first())[i - b.len()]);
            }
        }
    }
}

/// Parsing the serialized blocks of a well-formed child list restores the
/// children, bodies trimmed.
#[verifier::rlimit(100)]
proof fn lemma_parse_children(ms: Seq<NoteV>, pid: Seq<char>)
    requires
        wf_children(ms, pid),
    ensures
        parse_children_lines(children_lines(ms), pid) == normalize_notes(ms),
    decreases ms,
{
    let ls = children_lines(ms);
    if ms.len() == 0 {
        lemma_find_delim_none(ls, 0);
        assert(normalize_notes(ms) =~= Seq::<NoteV>::empty());
    } else {
        let m = ms[0];
        let rest = ms.drop_first();
        let fl = meta_lines(m);
        let flen = fl.len() as int;
        let body = if m.content.len() == 0 {
            Seq::<Seq<char>>::empty()
        } else {
            split_lines(m.content)
        };
        let blen = body.len() as int;
        let nested = if m.children.len() == 0 {
            Seq::<Seq<char>>::empty()
        } else {
            indent2(children_lines(m.children))
        };
        let nlen = nested.len() as int;
        let bk = child_block_lines(m);
        let bklen = bk.len() as int;
        assert(bklen == 2 + flen + blen + nlen);
        lemma_meta_lines_shape(m);
        lemma_indent2_shape(children_lines(m.children));
        // The lines of the first block.
        assert(bk[0] == delim());
        assert(bk[1 + flen] == delim());
        assert(forall|i: int| 1 <= i < 1 + flen ==> #[trigger] bk[i] == fl[i - 1]);
        assert(forall|i: int|
            2 + flen <= i < 2 + flen + blen ==> #[trigger] bk[i] == body[i - 2 - flen]);
        assert(forall|i: int|
            2 + flen + blen <= i < bklen ==> #[trigger] bk[i] == nested[i - 2 - flen - blen]);
        // Block lines between the delimiters are not delimiters.
        assert forall|i: int| 1 <= i < 1 + flen implies #[trigger] ls[i] != delim() by {
            assert(ls[i] == bk[i] && bk[i] == fl[i - 1]);
        }
        assert forall|i: int| 2 + flen <= i < bklen implies #[trigger] ls[i] != delim() by {
            assert(ls[i] == bk[i]);
            if i < 2 + flen + blen {
                assert(bk[i] == body[i - 2 - flen]);
                assert(split_lines(m.content)[i - 2 - flen] != delim());
            } else {
                assert(bk[i] == nested[i - 2 - flen - blen]);
            }
        }
        // The three delimiter positions the parser finds.
        assert(ls[0] == bk[0]);
        lemma_find_delim_at(ls, 0, 0);
        assert(ls[1 + flen] == delim());
        lemma_find_delim_at(ls, 1, 1 + flen);
        if rest.len() > 0 {
            assert(children_lines(rest)[0] == child_block_lines(rest[0])[0]);
            assert(ls[bklen] == children_lines(rest)[0]);
            assert(ls[bklen] == delim());
            lemma_find_delim_at(ls, 2 + flen, bklen);
        } else {
            assert(children_lines(rest) =~= Seq::<Seq<char>>::empty());
            assert(ls.len() == bklen);
            lemma_find_delim_none(ls, 2 + flen);
        }
        let a = 0int;
        let b = 1 + flen;
        let cend = bklen;
        // The metadata region parses back to the child's fields.
        assert(ls.subrange(a + 1, b) =~= fl);
        lemma_parse_fields_meta(m, Some(pid));
        let c0 = parse_fields(fl, Some(pid))->0;
        // The block rest splits into body and nested section.
        let block_rest = ls.subrange(b + 1, cend);
        assert(block_rest =~= body + nested);
        assert forall|j: int| 0 <= j < blen implies #[trigger] block_rest[j]
            != nested_delim() by {
            assert(block_rest[j] == body[j]);
            assert(split_lines(m.content)[j] != nested_delim());
        }
        if m.children.len() > 0 {
            lemma_split_lines_len(m.content);
            assert(children_lines(m.children).len() > 0) by {
                assert(children_lines(m.children)[0] == child_block_lines(m.children[0])[0]);
            }
            assert(block_rest[blen] == nested[0]);
            assert(nested[0] == seq![' ', ' '] + children_lines(m.children)[0]);
            assert(children_lines(m.children)[0] == child_block_lines(m.children[0])[0]);
            assert(children_lines(m.children)[0] == delim());
            assert(nested[0] =~= nested_delim());
            lemma_find_nested_at(block_rest, 0, blen);
            assert(block_rest.subrange(0, blen) =~= body);
            assert(block_rest.subrange(blen, block_rest.len() as int) =~= indent2(
                children_lines(m.children),
            ));
            lemma_deindent_indent(children_lines(m.children));
            lemma_parse_children(m.children, m.id);
            assert(deindent2(block_rest.subrange(blen, block_rest.len() as int))
                == children_lines(m.children));
            assert(parse_children_lines(
                deindent2(block_rest.subrange(blen, block_rest.len() as int)),
                c0.id,
            ) == normalize_notes(m.children));
        } else {
            assert(nested =~= Seq::<Seq<char>>::empty());
            lemma_find_nested_none(block_rest, 0);
        }
        // The body joins back to the trimmed content.
        if m.content.len() == 0 {
            assert(body =~= Seq::<Seq<char>>::empty());
            assert(join_lines(body) == Seq::<char>::empty());
            assert(m.content =~= Seq::<char>::empty());
        } else {
            lemma_join_split(m.content);
        }
        assert(join_lines(body) == m.content);
        let body_ls = if m.children.len() > 0 {
            block_rest.subrange(0, blen)
        } else {
            block_rest
        };
        if m.children.len() > 0 {
            assert(body_ls =~= body);
        } else {
            assert(block_rest =~= body);
        }
        assert(trim_spec(join_lines(body_ls)) == trim_spec(m.content));
        // The tail blocks parse as the remaining siblings.
        assert(ls.subrange(cend, ls.len() as int) =~= children_lines(rest));
        assert(decreases_to!(ms => rest));
        lemma_parse_children(rest, pid);
        // Assemble.
        let parsed = parse_children_lines(ls, pid);
        assert(parsed == seq![
            NoteV {
                content: trim_spec(join_lines(if m.children.len() > 0 {
                    block_rest.subrange(0, blen)
                } else {
                    block_rest
                })),
                children: if m.children.len() > 0 {
                    parse_children_lines(
                        deindent2(block_rest.subrange(blen, block_rest.len() as int)),
                        c0.id,
                    )
                } else {
                    Seq::<NoteV>::empty()
                },
                ..c0
            },
        ] + parse_children_lines(ls.subrange(cend, ls.len() as int), pid));
        assert(normalize_notes(ms) == seq![normalize_note(m)] + normalize_notes(rest));
        assert(normalize_note(m) == (NoteV {
            content: trim_spec(m.content),
            content_without_checkboxes: None,
            children: normalize_notes(m.children),
            ..m
        }));
        if m.children.len() == 0 {
            assert(normalize_notes(m.children) =~= Seq::<NoteV>::empty());
        }
        assert(parsed =~= normalize_notes(ms));
    }
}

/// Round trip: parsing the serialization of a serializable note tree
/// reproduces the tree, with every body trimmed and the derived
/// body-without-checkboxes field cleared.  A body holding a `---` line
/// right after a blank line is not serializable: such a line would read
/// back as the start of the children section.
#[verifier::rlimit(100)]
pub proof fn lemma_round_trip(m: NoteV)
    requires
        wf_note(m),
    ensures
        parse_note_text(note_text(m), None) == Some(normalize_note(m)),
{
    let rl = root_lines(m);
    let fl = meta_lines(m);
    let flen = fl.len() as int;
    let body = split_lines(m.content);
    let blen = body.len() as int;
    let ch = if m.children.len() == 0 {
        Seq::<Seq<char>>::empty()
    } else {
        seq![Seq::<char>::empty()] + children_lines(m.children)
    };
    lemma_meta_lines_shape(m);
    lemma_split_lines_flat(m.content);
    lemma_split_lines_len(m.content);
    lemma_children_lines_no_nl(m.children, m.id);
    // The serialized text splits back into the serialized lines.
    assert(rl.len() >= 3 + flen);
    assert forall|i: int| 0 <= i < rl.len() implies !rl[i].contains('\n') by {
        assert(rl[i].contains('\n') == exists|q: int| 0 <= q < rl[i].len() && rl[i][q] == '\n');
        if i == 0 || i == 1 + flen {
            assert(rl[i] == delim());
            assert(no_nl(rl[i]));
        } else if i < 1 + flen {
            assert(rl[i] == fl[i - 1]);
            assert(no_nl(rl[i]));
        } else if i == 2 + flen {
            assert(rl[i] == Seq::<char>::empty());
            assert(no_nl(rl[i]));
        } else if i < 3 + flen + blen {
            assert(rl[i] == body[i - 3 - flen]);
            assert(no_nl(split_lines(m.content)[i - 3 - flen]));
        } else {
            assert(rl[i] == ch[i - 3 - flen - blen]);
            if i - 3 - flen - blen == 0 {
                assert(rl[i] == Seq::<char>::empty());
                assert(no_nl(rl[i]));
            } else {
                assert(rl[i] == children_lines(m.children)[i - 4 - flen - blen]);
                assert(no_nl(children_lines(m.children)[i - 4 - flen - blen]));
            }
        }
        assert(no_nl(rl[i]));
    }
    assert(crate::text::lines_flat(rl)) by {
        assert forall|i: int, j: int|
            0 <= i < rl.len() && 0 <= j < rl[i].len() implies #[trigger] rl[i][j] != '\n' by {
            assert(!rl[i].contains('\n'));
            if rl[i][j] == '\n' {
                assert(rl[i].contains('\n'));
            }
        }
    }
    lemma_split_join(rl);
    assert(split_lines(note_text(m)) == rl);
    // The two metadata delimiters.
    assert(rl[0] == delim());
    lemma_find_delim_at(rl, 0, 0);
    assert forall|i: int| 1 <= i < 1 + flen implies #[trigger] rl[i] != delim() by {
        assert(rl[i] == fl[i - 1]);
    }
    assert(rl[1 + flen] == delim());
    lemma_find_delim_at(rl, 1, 1 + flen);
    // The metadata fields.
    assert(rl.subrange(1, 1 + flen) =~= fl);
    lemma_parse_fields_meta(m, None);
    let n0 = parse_fields(fl, None)->0;
    // The body/children boundary.
    let rest = rl.subrange(2 + flen, rl.len() as int);
    assert(rest =~= seq![Seq::<char>::empty()] + body + ch);
    assert(rest[0] == Seq::<char>::empty());
    assert(forall|j: int| 1 <= j < 1 + blen ==> #[trigger] rest[j] == body[j - 1]);
    assert forall|j: int|
        0 <= j < 1 + blen implies !(#[trigger] rest[j] == delim() && (j == 0 || all_space(
        rest[j - 1],
    ))) by {
        if j == 0 {
            assert(rest[0] != delim());
        } else {
            assert(rest[j] == split_lines(m.content)[j - 1]);
            if rest[j] == delim() && (j == 0 || all_space(rest[j - 1])) {
                if j == 1 {
                    assert(all_space(rest[0]));
                    assert(!(split_lines(m.content)[0] == delim() && (0 == 0 || all_space(
                        split_lines(m.content)[-1],
                    ))));
                    assert(false);
                } else {
                    assert(rest[j - 1] == split_lines(m.content)[j - 2]);
                    assert(!(split_lines(m.content)[j - 1] == delim() && (j - 1 == 0 || all_space(
                        split_lines(m.content)[j - 2],
                    ))));
                    assert(false);
                }
            }
        }
    }
    if m.children.len() == 0 {
        assert(rest.len() == 1 + blen);
        lemma_find_boundary_none(rest, 0);
        // Whole remainder is the body.
        assert(join_lines(rest) == join_lines(seq![Seq::<char>::empty()] + body)) by {
            assert(rest =~= seq![Seq::<char>::empty()] + body);
        }
        assert((seq![Seq::<char>::empty()] + body).drop_first() =~= body);
        assert(join_lines(seq![Seq::<char>::empty()] + body) == Seq::<char>::empty() + seq!['\n']
            + join_lines(body));
        lemma_join_split(m.content);
        assert(Seq::<char>::empty() + seq!['\n'] + m.content =~= seq!['\n'] + m.content);
        lemma_trim_pad_start(m.content, '\n');
        assert(trim_spec(join_lines(rest)) == trim_spec(m.content));
        assert(parse_note_text(note_text(m), None) == Some(
            NoteV { content: trim_spec(m.content), children: Seq::<NoteV>::empty(), ..n0 },
        ));
        assert(normalize_notes(m.children) =~= Seq::<NoteV>::empty());
        assert(Some(NoteV { content: trim_spec(m.content), children: Seq::<NoteV>::empty(), ..n0 })
            =~= Some(normalize_note(m)));
    } else {
        let k = 2 + blen;
        assert(rest.len() == 2 + blen + children_lines(m.children).len());
        assert(rest[k - 1] == ch[0]);
        assert(rest[k - 1] == Seq::<char>::empty());
        assert(all_space(rest[k - 1]));
        assert(children_lines(m.children)[0] == child_block_lines(m.children[0])[0]);
        assert(rest[k] == ch[1]);
        assert(rest[k] == children_lines(m.children)[0]);
        assert(rest[k] == delim());
        assert(rest[k - 1] != delim());
        lemma_find_boundary_at(rest, 0, k);
        let body_ls = rest.subrange(0, k);
        assert(body_ls =~= seq![Seq::<char>::empty()] + body + seq![Seq::<char>::empty()]);
        // Joining gives the content wrapped in two newlines.
        assert((seq![Seq::<char>::empty()] + body + seq![Seq::<char>::empty()]).drop_first() =~= body
            + seq![Seq::<char>::empty()]);
        lemma_join_lines_snoc(body, Seq::<char>::empty());
        assert(body.push(Seq::<char>::empty()) =~= body + seq![Seq::<char>::empty()]);
        lemma_join_split(m.content);
        assert(join_lines(body + seq![Seq::<char>::empty()]) =~= m.content + seq!['\n']);
        assert(join_lines(body_ls) =~= seq!['\n'] + (m.content + seq!['\n']));
        assert(seq!['\n'] + (m.content + seq!['\n']) =~= (seq!['\n'] + m.content).push('\n'));
        lemma_trim_pad_end(seq!['\n'] + m.content, '\n');
        lemma_trim_pad_start(m.content, '\n');
        assert(trim_spec(join_lines(body_ls)) == trim_spec(m.content));
        // The children section parses as the children.
        assert(rest.subrange(k, rest.len() as int) =~= children_lines(m.children));
        lemma_parse_children(m.children, m.id);
        assert(n0.id == m.id);
        assert(parse_note_text(note_text(m), None) == Some(
            NoteV {
                content: trim_spec(m.content),
                children: normalize_notes(m.children),
                ..n0
            },
        ));
        assert(Some(
            NoteV { content: trim_spec(m.content), children: normalize_notes(m.children), ..n0 },
        ) =~= Some(normalize_note(m)));
    }
}

} // verus!

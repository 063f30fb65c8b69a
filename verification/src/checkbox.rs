//! The line-oriented checkbox sub-language embedded in note bodies.
//!
//! A line is a checkbox when, after trimming, it starts with `-` or `*`,
//! followed (after optional whitespace) by a bracket pair holding exactly one
//! character, followed by non-empty text.  The bracket character `x` or `X`
//! marks completion.

use vstd::prelude::*;
use crate::text::{
    chars_eq, chars_of_str, extend_chars, join_lines, join_lines_vec, lemma_no_nl_trim,
    lemma_no_nl_trim_start, lemma_split_join, lemma_split_lines_flat, lemma_split_lines_len,
    lines_view, no_nl, split_lines, split_lines_vec, string_of_chars, sub_chars, trim_chars,
    trim_spec, trim_start_chars, trim_start_spec,
};

verus! {

/// One checkbox read from a body line.
pub struct Checkbox {
    pub text: String,
    pub completed: bool,
}

/// Mathematical image of a [`Checkbox`].
pub ghost struct CheckboxV {
    pub text: Seq<char>,
    pub completed: bool,
}

impl Checkbox {
    pub open spec fn model(&self) -> CheckboxV {
        CheckboxV { text: self.text@, completed: self.completed }
    }
}

pub open spec fn opt_checkbox_model(r: Option<Checkbox>) -> Option<CheckboxV> {
    match r {
        Some(cb) => Some(cb.model()),
        None => None,
    }
}

/// The checkbox a single line denotes, if any.
pub open spec fn line_checkbox(line: Seq<char>) -> Option<CheckboxV> {
    let t = trim_spec(line);
    if t.len() == 0 || (t[0] != '-' && t[0] != '*') {
        None
    } else {
        let after_bullet = trim_start_spec(t.drop_first());
        if after_bullet.len() == 0 || after_bullet[0] != '[' {
            None
        } else {
            let inner = after_bullet.drop_first();
            if inner.len() < 2 || inner[0] == ']' || inner[1] != ']' {
                None
            } else {
                let completed = inner[0] == 'x' || inner[0] == 'X';
                let t0 = trim_start_spec(inner.subrange(2, inner.len() as int));
                let text = if t0.len() > 0 && t0[0] == '-' {
                    trim_start_spec(t0.drop_first())
                } else {
                    t0
                };
                if text.len() == 0 {
                    None
                } else {
                    Some(CheckboxV { text, completed })
                }
            }
        }
    }
}

/// The checkboxes of the given lines, in line order.
pub open spec fn checkboxes_in_lines(ls: Seq<Seq<char>>) -> Seq<CheckboxV>
    decreases ls.len(),
{
    if ls.len() == 0 {
        Seq::<CheckboxV>::empty()
    } else {
        (match line_checkbox(ls[0]) {
            Some(cb) => seq![cb],
            None => Seq::<CheckboxV>::empty(),
        }) + checkboxes_in_lines(ls.drop_first())
    }
}

/// The checkboxes of a whole body.
pub open spec fn checkboxes_of(content: Seq<char>) -> Seq<CheckboxV> {
    checkboxes_in_lines(split_lines(content))
}

/// The serialized form of a checkbox: `- [x] text` or `- [ ] text`.
pub open spec fn render_checkbox_line(text: Seq<char>, status: bool) -> Seq<char> {
    seq!['-', ' ', '[', if status { 'x' } else { ' ' }, ']', ' '] + text
}

/// One line of `update_checkbox_in_content`: a checkbox line whose text
/// equals the target is re-rendered with the new status; all else passes
/// through unchanged.
pub open spec fn update_line(l: Seq<char>, target: Seq<char>, status: bool) -> Seq<char> {
    match line_checkbox(l) {
        Some(cb) => if cb.text == target {
            render_checkbox_line(target, status)
        } else {
            l
        },
        None => l,
    }
}

pub open spec fn update_lines(ls: Seq<Seq<char>>, target: Seq<char>, status: bool) -> Seq<
    Seq<char>,
> {
    Seq::new(ls.len(), |i: int| update_line(ls[i], target, status))
}

/// The whole-body rewrite: lines are split, rewritten, and re-joined.
pub open spec fn update_content_spec(c: Seq<char>, target: Seq<char>, status: bool) -> Seq<char> {
    join_lines(update_lines(split_lines(c), target, status))
}

pub open spec fn checkbox_models(v: Seq<Checkbox>) -> Seq<CheckboxV> {
    Seq::new(v.len(), |i: int| v[i].model())
}

proof fn lemma_checkboxes_in_lines_snoc(ls: Seq<Seq<char>>, l: Seq<char>)
    ensures
        checkboxes_in_lines(ls.push(l)) == checkboxes_in_lines(ls) + (match line_checkbox(l) {
            Some(cb) => seq![cb],
            None => Seq::<CheckboxV>::empty(),
        }),
    decreases ls.len(),
{
    let w = ls.push(l);
    if ls.len() == 0 {
        reveal_with_fuel(checkboxes_in_lines, 3);
        assert(w[0] == l);
        assert(w.drop_first() =~= Seq::<Seq<char>>::empty());
        assert(checkboxes_in_lines(w) =~= checkboxes_in_lines(ls) + (match line_checkbox(l) {
            Some(cb) => seq![cb],
            None => Seq::<CheckboxV>::empty(),
        }));
    } else {
        assert(w[0] == ls[0]);
        assert(w.drop_first() =~= ls.drop_first().push(l));
        lemma_checkboxes_in_lines_snoc(ls.drop_first(), l);
        assert(checkboxes_in_lines(w) =~= checkboxes_in_lines(ls) + (match line_checkbox(l) {
            Some(cb) => seq![cb],
            None => Seq::<CheckboxV>::empty(),
        }));
    }
}

/// Reads one line; `None` when the line is not a checkbox.
pub fn parse_checkbox_line(line: &Vec<char>) -> (r: Option<Checkbox>)
    ensures
        opt_checkbox_model(r) == line_checkbox(line@),
{
    let t = trim_chars(line);
    if t.len() == 0 {
        return None;
    }
    let b0 = t[0];
    if b0 != '-' && b0 != '*' {
        return None;
    }
    let t_rest = sub_chars(&t, 1, t.len());
    proof {
        assert(t_rest@ =~= t@.drop_first());
    }
    let after_bullet = trim_start_chars(&t_rest);
    if after_bullet.len() == 0 {
        return None;
    }
    if after_bullet[0] != '[' {
        return None;
    }
    let inner = sub_chars(&after_bullet, 1, after_bullet.len());
    proof {
        assert(inner@ =~= after_bullet@.drop_first());
    }
    if inner.len() < 2 || inner[0] == ']' || inner[1] != ']' {
        return None;
    }
    let ch = inner[0];
    let completed = ch == 'x' || ch == 'X';
    let rest = sub_chars(&inner, 2, inner.len());
    let t0 = trim_start_chars(&rest);
    let text = if t0.len() > 0 && t0[0] == '-' {
        let t0_rest = sub_chars(&t0, 1, t0.len());
        proof {
            assert(t0_rest@ =~= t0@.drop_first());
        }
        trim_start_chars(&t0_rest)
    } else {
        t0
    };
    if text.len() == 0 {
        return None;
    }
    Some(Checkbox { text: string_of_chars(&text), completed })
}

/// The checkboxes of a multi-line body, in line order; non-matching lines
/// are dropped.
pub fn parse_checkboxes(content: &str) -> (r: Vec<Checkbox>)
    ensures
        checkbox_models(r@) == checkboxes_of(content@),
{
    let chars = chars_of_str(content);
    let lines = split_lines_vec(&chars);
    let mut out: Vec<Checkbox> = Vec::new();
    let mut i: usize = 0;
    while i < lines.len()
        invariant
            0 <= i <= lines@.len(),
            checkbox_models(out@) == checkboxes_in_lines(lines_view(lines@).subrange(0, i as int)),
        decreases lines.len() - i,
    {
        proof {
            let w = lines_view(lines@);
            assert(w.subrange(0, i + 1 as int) =~= w.subrange(0, i as int).push(w[i as int]));
            lemma_checkboxes_in_lines_snoc(w.subrange(0, i as int), w[i as int]);
        }
        match parse_checkbox_line(&lines[i]) {
            Some(cb) => {
                out.push(cb);
                proof {
                    assert(checkbox_models(out@) =~= checkboxes_in_lines(
                        lines_view(lines@).subrange(0, i + 1 as int),
                    ));
                }
            },
            None => {
                proof {
                    assert(checkbox_models(out@) =~= checkboxes_in_lines(
                        lines_view(lines@).subrange(0, i + 1 as int),
                    ));
                }
            },
        }
        i += 1;
    }
    proof {
        assert(lines_view(lines@).subrange(0, lines@.len() as int) =~= lines_view(lines@));
    }
    out
}

fn render_checkbox_chars(text: &Vec<char>, status: bool) -> (r: Vec<char>)
    ensures
        r@ == render_checkbox_line(text@, status),
{
    let mut r: Vec<char> = Vec::new();
    r.push('-');
    r.push(' ');
    r.push('[');
    if status {
        r.push('x');
    } else {
        r.push(' ');
    }
    r.push(']');
    r.push(' ');
    extend_chars(&mut r, text);
    proof {
        assert(r@ =~= render_checkbox_line(text@, status));
    }
    r
}

/// Rewrites every checkbox line whose text equals `checkbox_text` to carry
/// the new status; all other lines pass through unchanged.
pub fn update_checkbox_in_content(content: &str, checkbox_text: &str, new_status: bool) -> (r:
    String)
    ensures
        r@ == update_content_spec(content@, checkbox_text@, new_status),
{
    let chars = chars_of_str(content);
    let target = chars_of_str(checkbox_text);
    let lines = split_lines_vec(&chars);
    let mut out: Vec<Vec<char>> = Vec::new();
    let mut i: usize = 0;
    while i < lines.len()
        invariant
            0 <= i <= lines@.len(),
            target@ == checkbox_text@,
            lines_view(out@) == update_lines(lines_view(lines@), checkbox_text@, new_status)
                .subrange(0, i as int),
        decreases lines.len() - i,
    {
        let line = &lines[i];
        proof {
            assert(lines_view(lines@)[i as int] == line@);
        }
        let rewritten: Vec<char>;
        match parse_checkbox_line(line) {
            Some(cb) => {
                let cb_text = chars_of_str(cb.text.as_str());
                if chars_eq(&cb_text, &target) {
                    proof {
                        assert(line_checkbox(line@) == Some(cb.model()));
                        assert(cb.model().text == checkbox_text@);
                    }
                    rewritten = render_checkbox_chars(&target, new_status);
                    proof {
                        assert(rewritten@ == update_line(line@, checkbox_text@, new_status));
                    }
                } else {
                    proof {
                        assert(line@.subrange(0, line@.len() as int) =~= line@);
                    }
                    rewritten = sub_chars(line, 0, line.len());
                    proof {
                        assert(rewritten@ == update_line(line@, checkbox_text@, new_status));
                    }
                }
            },
            None => {
                proof {
                    assert(line@.subrange(0, line@.len() as int) =~= line@);
                }
                rewritten = sub_chars(line, 0, line.len());
                proof {
                    assert(rewritten@ == update_line(line@, checkbox_text@, new_status));
                }
            },
        };
        let ghost out_prev = out@;
        out.push(rewritten);
        proof {
            let u = update_lines(lines_view(lines@), checkbox_text@, new_status);
            assert(lines_view(out_prev).len() == i as int);
            assert(out_prev.len() == i as int);
            assert(out@ == out_prev.push(rewritten));
            assert forall|j: int| 0 <= j < i + 1 implies lines_view(out@)[j] == u.subrange(
                0,
                i + 1 as int,
            )[j] by {
                if j < i {
                    assert(out@[j] == out_prev[j]);
                    assert(lines_view(out_prev)[j] == u.subrange(0, i as int)[j]);
                } else {
                    assert(out@[j] == rewritten);
                }
            }
            assert(lines_view(out@) =~= u.subrange(0, i + 1 as int));
        }
        i += 1;
    }
    proof {
        let u = update_lines(lines_view(lines@), checkbox_text@, new_status);
        assert(u.subrange(0, lines@.len() as int) =~= u);
    }
    let joined = join_lines_vec(&out);
    string_of_chars(&joined)
}

/// A checkbox's text contains no newline, because it is carved out of a
/// single line.
proof fn lemma_checkbox_text_no_nl(l: Seq<char>)
    requires
        no_nl(l),
        line_checkbox(l) is Some,
    ensures
        no_nl(line_checkbox(l)->0.text),
{
    lemma_no_nl_trim(l);
    let t = trim_spec(l);
    lemma_no_nl_trim_start(t.drop_first());
    let after_bullet = trim_start_spec(t.drop_first());
    let inner = after_bullet.drop_first();
    lemma_no_nl_trim_start(inner.subrange(2, inner.len() as int));
    let t0 = trim_start_spec(inner.subrange(2, inner.len() as int));
    if t0.len() > 0 && t0[0] == '-' {
        lemma_no_nl_trim_start(t0.drop_first());
    }
}

/// Rewriting a body twice with the same target and status gives the same
/// text as rewriting it once.
pub proof fn lemma_update_idempotent(c: Seq<char>, target: Seq<char>, status: bool)
    ensures
        update_content_spec(update_content_spec(c, target, status), target, status)
            == update_content_spec(c, target, status),
{
    let ls = split_lines(c);
    let ls1 = update_lines(ls, target, status);
    lemma_split_lines_len(c);
    lemma_split_lines_flat(c);
    assert forall|i: int, j: int|
        0 <= i < ls1.len() && 0 <= j < ls1[i].len() implies #[trigger] ls1[i][j] != '\n' by {
        assert(no_nl(ls[i])) by {
            assert(forall|k: int| 0 <= k < ls[i].len() ==> #[trigger] ls[i][k] != '\n');
        }
        if line_checkbox(ls[i]) is Some && line_checkbox(ls[i])->0.text == target {
            lemma_checkbox_text_no_nl(ls[i]);
            assert(no_nl(render_checkbox_line(target, status)));
            assert(ls1[i] == render_checkbox_line(target, status));
        } else {
            assert(ls1[i] == ls[i]);
        }
    }
    lemma_split_join(ls1);
    let ls2 = update_lines(ls1, target, status);
    assert forall|i: int| 0 <= i < ls2.len() implies ls2[i] == ls1[i] by {
        let l = ls[i];
        match line_checkbox(l) {
            Some(cb) => {
                if cb.text == target {
                    let rl = render_checkbox_line(target, status);
                    assert(ls1[i] == rl);
                    match line_checkbox(rl) {
                        Some(cb2) => {
                            if cb2.text == target {
                                assert(ls2[i] == rl);
                            } else {
                                assert(ls2[i] == rl);
                            }
                        },
                        None => {
                            assert(ls2[i] == rl);
                        },
                    }
                } else {
                    assert(ls1[i] == l);
                }
            },
            None => {
                assert(ls1[i] == l);
            },
        }
    }
    assert(ls2 =~= ls1);
}

} // verus!

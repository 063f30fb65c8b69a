//! The note data model.
//!
//! A [`Note`] is a tree: children are owned recursively and are serialized
//! inside their ancestor's file.  [`NoteV`] is the mathematical image of a
//! note that all contracts speak of.

use vstd::prelude::*;
use crate::text::{
    chars_of_str, join_lines, lines_view, nat_str, split_lines,
    split_lines_vec, string_of_chars, sub_chars, trim_chars, trim_spec, u64_to_chars,
};

verus! {

/// One note: metadata, body text, and nested children.
#[derive(Debug)]
pub struct Note {
    pub id: String,
    pub parent_id: Option<String>,
    pub title: String,
    pub content: String,
    pub content_without_checkboxes: Option<String>,
    pub is_task: bool,
    pub is_done: bool,
    pub pomodoro_count: u32,
    pub created_at: u64,
    pub updated_at: u64,
    pub children: Vec<Note>,
}

/// Mathematical image of a [`Note`].
#[verifier::ext_equal]
pub ghost struct NoteV {
    pub id: Seq<char>,
    pub parent_id: Option<Seq<char>>,
    pub title: Seq<char>,
    pub content: Seq<char>,
    pub content_without_checkboxes: Option<Seq<char>>,
    pub is_task: bool,
    pub is_done: bool,
    pub pomodoro_count: u32,
    pub created_at: u64,
    pub updated_at: u64,
    pub children: Seq<NoteV>,
}

pub open spec fn opt_str_view(o: Option<String>) -> Option<Seq<char>> {
    match o {
        Some(s) => Some(s@),
        None => None,
    }
}

impl Note {
    /// The image of this note, children included.
    pub open spec fn model(self) -> NoteV
        decreases self, 1int,
    {
        NoteV {
            id: self.id@,
            parent_id: opt_str_view(self.parent_id),
            title: self.title@,
            content: self.content@,
            content_without_checkboxes: opt_str_view(self.content_without_checkboxes),
            is_task: self.is_task,
            is_done: self.is_done,
            pomodoro_count: self.pomodoro_count,
            created_at: self.created_at,
            updated_at: self.updated_at,
            children: notes_model(self.children@),
        }
    }
}

/// The images of a sequence of notes.
pub open spec fn notes_model(ns: Seq<Note>) -> Seq<NoteV>
    decreases ns, 0int,
{
    if ns.len() == 0 {
        Seq::<NoteV>::empty()
    } else {
        seq![ns[0].model()] + notes_model(ns.drop_first())
    }
}

pub proof fn lemma_notes_model_len(ns: Seq<Note>)
    ensures
        notes_model(ns).len() == ns.len(),
    decreases ns.len(),
{
    if ns.len() != 0 {
        lemma_notes_model_len(ns.drop_first());
    }
}

pub proof fn lemma_notes_model_index(ns: Seq<Note>, i: int)
    requires
        0 <= i < ns.len(),
    ensures
        notes_model(ns).len() == ns.len(),
        notes_model(ns)[i] == ns[i].model(),
    decreases ns.len(),
{
    lemma_notes_model_len(ns);
    if i > 0 {
        lemma_notes_model_index(ns.drop_first(), i - 1);
    }
}

pub proof fn lemma_notes_model_snoc(ns: Seq<Note>, n: Note)
    ensures
        notes_model(ns.push(n)) == notes_model(ns).push(n.model()),
    decreases ns.len(),
{
    let w = ns.push(n);
    if ns.len() == 0 {
        reveal_with_fuel(notes_model, 3);
        assert(w[0] == n);
        assert(w.drop_first() =~= Seq::<Note>::empty());
        assert(notes_model(w) =~= notes_model(ns).push(n.model()));
    } else {
        assert(w[0] == ns[0]);
        assert(w.drop_first() =~= ns.drop_first().push(n));
        lemma_notes_model_snoc(ns.drop_first(), n);
        assert(notes_model(w) =~= notes_model(ns).push(n.model()));
    }
}

/// A length clamped into a 32-bit count.
pub open spec fn count32(n: int) -> u32 {
    if n > u32::MAX {
        u32::MAX
    } else if n < 0 {
        0u32
    } else {
        n as u32
    }
}

/// Read-only projection of a note for list views.
pub struct NotePreview {
    pub id: String,
    pub parent_id: Option<String>,
    pub title: String,
    pub content_preview: String,
    pub content_without_checkboxes: String,
    pub child_count: u32,
    pub is_task: bool,
    pub is_done: bool,
    pub pomodoro_count: u32,
    pub created_at: u64,
    pub updated_at: u64,
}

/// Whether a trimmed line starts like a checkbox line (`- [` or `* [`).
pub open spec fn is_checkbox_line_spec(l: Seq<char>) -> bool {
    let t = trim_spec(l);
    t.len() >= 3 && (t[0] == '-' || t[0] == '*') && t[1] == ' ' && t[2] == '['
}

pub fn is_checkbox_line(line: &Vec<char>) -> (r: bool)
    ensures
        r == is_checkbox_line_spec(line@),
{
    let t = trim_chars(line);
    t.len() >= 3 && (t[0] == '-' || t[0] == '*') && t[1] == ' ' && t[2] == '['
}

/// The lines that are not checkbox lines, in order.
pub open spec fn strip_checkbox_lines(ls: Seq<Seq<char>>) -> Seq<Seq<char>>
    decreases ls.len(),
{
    if ls.len() == 0 {
        Seq::<Seq<char>>::empty()
    } else if is_checkbox_line_spec(ls[0]) {
        strip_checkbox_lines(ls.drop_first())
    } else {
        seq![ls[0]] + strip_checkbox_lines(ls.drop_first())
    }
}

proof fn lemma_strip_checkbox_lines_snoc(ls: Seq<Seq<char>>, l: Seq<char>)
    ensures
        strip_checkbox_lines(ls.push(l)) == if is_checkbox_line_spec(l) {
            strip_checkbox_lines(ls)
        } else {
            strip_checkbox_lines(ls).push(l)
        },
    decreases ls.len(),
{
    let w = ls.push(l);
    if ls.len() == 0 {
        reveal_with_fuel(strip_checkbox_lines, 3);
        assert(w[0] == l);
        assert(w.drop_first() =~= Seq::<Seq<char>>::empty());
        if !is_checkbox_line_spec(l) {
            assert(strip_checkbox_lines(w) =~= strip_checkbox_lines(ls).push(l));
        }
    } else {
        assert(w[0] == ls[0]);
        assert(w.drop_first() =~= ls.drop_first().push(l));
        lemma_strip_checkbox_lines_snoc(ls.drop_first(), l);
        if is_checkbox_line_spec(l) {
        } else if is_checkbox_line_spec(ls[0]) {
        } else {
            assert(strip_checkbox_lines(w) =~= strip_checkbox_lines(ls).push(l));
        }
    }
}

/// The body with all checkbox lines removed and surrounding whitespace
/// trimmed.
pub open spec fn remove_checkboxes_spec(c: Seq<char>) -> Seq<char> {
    trim_spec(join_lines(strip_checkbox_lines(split_lines(c))))
}

pub fn remove_checkboxes(content: &str) -> (r: String)
    ensures
        r@ == remove_checkboxes_spec(content@),
{
    let chars = chars_of_str(content);
    let lines = split_lines_vec(&chars);
    let mut kept: Vec<Vec<char>> = Vec::new();
    let mut i: usize = 0;
    while i < lines.len()
        invariant
            0 <= i <= lines@.len(),
            lines_view(kept@) == strip_checkbox_lines(lines_view(lines@).subrange(0, i as int)),
        decreases lines.len() - i,
    {
        proof {
            let w = lines_view(lines@);
            assert(w.subrange(0, i + 1 as int) =~= w.subrange(0, i as int).push(w[i as int]));
            lemma_strip_checkbox_lines_snoc(w.subrange(0, i as int), w[i as int]);
            assert(w[i as int] == lines@[i as int]@);
        }
        if !is_checkbox_line(&lines[i]) {
            let line = sub_chars(&lines[i], 0, lines[i].len());
            proof {
                assert(line@ =~= lines@[i as int]@);
            }
            let ghost kept_prev = kept@;
            kept.push(line);
            proof {
                let s = strip_checkbox_lines(lines_view(lines@).subrange(0, i + 1 as int));
                assert(kept@ == kept_prev.push(line));
                assert(lines_view(kept_prev).len() == kept_prev.len());
                assert(lines_view(kept@) =~= s);
            }
        }
        i += 1;
    }
    proof {
        assert(lines_view(lines@).subrange(0, lines@.len() as int) =~= lines_view(lines@));
    }
    let joined = crate::text::join_lines_vec(&kept);
    let trimmed = trim_chars(&joined);
    string_of_chars(&trimmed)
}

/// The first `max` characters, with a three-character ellipsis when the
/// text was longer.
pub open spec fn truncate_spec(c: Seq<char>, max: int) -> Seq<char> {
    if c.len() > max {
        c.subrange(0, max) + seq!['.', '.', '.']
    } else {
        c
    }
}

pub fn truncate_content(content: &str, max_length: usize) -> (r: String)
    ensures
        r@ == truncate_spec(content@, max_length as int),
{
    let chars = chars_of_str(content);
    if chars.len() > max_length {
        let mut head = sub_chars(&chars, 0, max_length);
        head.push('.');
        head.push('.');
        head.push('.');
        proof {
            assert(head@ =~= truncate_spec(content@, max_length as int));
        }
        string_of_chars(&head)
    } else {
        string_of_chars(&chars)
    }
}

/// The list-view preview of a body: its first hundred characters.
pub fn create_preview(content_without_checkboxes: String) -> (r: String)
    ensures
        r@ == truncate_spec(content_without_checkboxes@, 100),
{
    truncate_content(content_without_checkboxes.as_str(), 100)
}

/// Projects a note to its preview, with the caller-supplied child count.
pub fn note_to_preview(note: &Note, child_count: u32) -> (p: NotePreview)
    ensures
        p.id@ == note.id@,
        opt_str_view(p.parent_id) == opt_str_view(note.parent_id),
        p.title@ == note.title@,
        p.content_without_checkboxes@ == remove_checkboxes_spec(note.content@),
        p.content_preview@ == truncate_spec(remove_checkboxes_spec(note.content@), 100),
        p.child_count == child_count,
        p.is_task == note.is_task,
        p.is_done == note.is_done,
        p.pomodoro_count == note.pomodoro_count,
        p.created_at == note.created_at,
        p.updated_at == note.updated_at,
{
    let content_without_checkboxes = remove_checkboxes(note.content.as_str());
    let content_preview = create_preview(clone_string(&content_without_checkboxes));
    NotePreview {
        id: clone_string(&note.id),
        parent_id: clone_opt_string(&note.parent_id),
        title: clone_string(&note.title),
        content_preview,
        content_without_checkboxes,
        child_count,
        is_task: note.is_task,
        is_done: note.is_done,
        pomodoro_count: note.pomodoro_count,
        created_at: note.created_at,
        updated_at: note.updated_at,
    }
}

/// A copy of a string with the same characters.
pub fn clone_string(s: &String) -> (r: String)
    ensures
        r@ == s@,
{
    s.clone()
}

pub fn clone_opt_string(o: &Option<String>) -> (r: Option<String>)
    ensures
        opt_str_view(r) == opt_str_view(*o),
{
    match o {
        Some(s) => Some(clone_string(s)),
        None => None,
    }
}

/// The id a fresh note gets: the timestamp, a hyphen, and the first eight
/// title characters with spaces replaced by hyphens.
pub open spec fn slug_spec(title: Seq<char>) -> Seq<char> {
    let n = if title.len() > 8 {
        8int
    } else {
        title.len() as int
    };
    Seq::new(n as nat, |i: int| if title[i] == ' ' {
        '-'
    } else {
        title[i]
    })
}

pub open spec fn gen_id_spec(title: Seq<char>, now: u64) -> Seq<char> {
    nat_str(now as int) + seq!['-'] + slug_spec(title)
}

/// The image of a note fresh from [`Note::new`].
pub open spec fn new_note_spec(title: Seq<char>, content: Seq<char>, now: u64) -> NoteV {
    NoteV {
        id: gen_id_spec(title, now),
        parent_id: None,
        title,
        content,
        content_without_checkboxes: None,
        is_task: false,
        is_done: false,
        pomodoro_count: 0,
        created_at: now,
        updated_at: now,
        children: Seq::<NoteV>::empty(),
    }
}

impl Note {
    /// A fresh root note: id derived from the timestamp and the title,
    /// both timestamps set to `now`, no children.
    pub fn new(title: String, content: String, now: u64) -> (n: Note)
        ensures
            n.model() == new_note_spec(title@, content@, now),
    {
        let mut id_chars = u64_to_chars(now);
        id_chars.push('-');
        let title_chars = chars_of_str(title.as_str());
        let take: usize = if title_chars.len() > 8 {
            8
        } else {
            title_chars.len()
        };
        let mut i: usize = 0;
        while i < take
            invariant
                0 <= i <= take,
                take <= title_chars@.len(),
                take == slug_spec(title@).len(),
                title_chars@ == title@,
                id_chars@ == nat_str(now as int) + seq!['-'] + slug_spec(title@).subrange(
                    0,
                    i as int,
                ),
            decreases take - i,
        {
            let c = title_chars[i];
            if c == ' ' {
                id_chars.push('-');
            } else {
                id_chars.push(c);
            }
            proof {
                assert(slug_spec(title@).subrange(0, i + 1 as int) =~= slug_spec(title@).subrange(
                    0,
                    i as int,
                ).push(slug_spec(title@)[i as int]));
                assert(id_chars@ =~= nat_str(now as int) + seq!['-'] + slug_spec(title@).subrange(
                    0,
                    i + 1 as int,
                ));
            }
            i += 1;
        }
        proof {
            assert(slug_spec(title@).subrange(0, take as int) =~= slug_spec(title@));
            assert(id_chars@.subrange(0, id_chars@.len() as int) =~= id_chars@);
        }
        let n = Note {
            id: string_of_chars(&id_chars),
            parent_id: None,
            title,
            content,
            content_without_checkboxes: None,
            is_task: false,
            is_done: false,
            pomodoro_count: 0,
            created_at: now,
            updated_at: now,
            children: Vec::new(),
        };
        proof {
            assert(notes_model(n.children@) =~= Seq::<NoteV>::empty());
            assert(n.model() =~= new_note_spec(title@, content@, now));
        }
        n
    }

    /// A deep copy with the same image.
    pub fn duplicate(&self) -> (r: Note)
        ensures
            r.model() == self.model(),
        decreases *self,
    {
        let mut children: Vec<Note> = Vec::new();
        let mut i: usize = 0;
        while i < self.children.len()
            invariant
                0 <= i <= self.children@.len(),
                notes_model(children@) == notes_model(self.children@.subrange(0, i as int)),
            decreases self.children@.len() - i,
        {
            proof {
                assert(decreases_to!(*self => self.children));
                assert(decreases_to!(self.children => self.children@));
                assert(decreases_to!(self.children@ => self.children@[i as int]));
            }
            let child = self.children[i].duplicate();
            let ghost children_prev = children@;
            children.push(child);
            proof {
                lemma_notes_model_snoc(children_prev, child);
                lemma_notes_model_snoc(
                    self.children@.subrange(0, i as int),
                    self.children@[i as int],
                );
                assert(self.children@.subrange(0, i + 1 as int) =~= self.children@.subrange(
                    0,
                    i as int,
                ).push(self.children@[i as int]));
                lemma_notes_model_index(self.children@, i as int);
            }
            i += 1;
        }
        proof {
            assert(self.children@.subrange(0, self.children@.len() as int) =~= self.children@);
        }
        let r = Note {
            id: clone_string(&self.id),
            parent_id: clone_opt_string(&self.parent_id),
            title: clone_string(&self.title),
            content: clone_string(&self.content),
            content_without_checkboxes: clone_opt_string(&self.content_without_checkboxes),
            is_task: self.is_task,
            is_done: self.is_done,
            pomodoro_count: self.pomodoro_count,
            created_at: self.created_at,
            updated_at: self.updated_at,
            children,
        };
        proof {
            assert(r.model() =~= self.model());
        }
        r
    }
}

} // verus!

//! The in-memory note collection and its command operations.
//!
//! The collection mirrors the notes directory: one entry per root note.  A
//! shell owns one [`NotesState`] behind its own lock, calls these commands,
//! and persists the returned notes; every operation here is pure state
//! transition.  Mutating commands take the current time as an argument and
//! stamp it into `updated_at`.

use vstd::prelude::*;
use crate::checkbox::{update_checkbox_in_content, update_content_spec};
use crate::model::{
    clone_string, count32, lemma_notes_model_index, lemma_notes_model_len, lemma_notes_model_snoc,
    new_note_spec, note_to_preview, notes_model, remove_checkboxes, remove_checkboxes_spec,
    truncate_spec, Note, NotePreview, NoteV,
};
use crate::text::str_to_string;

verus! {

/// The first position holding a note with the given id.
pub open spec fn find_note_spec(ms: Seq<NoteV>, id: Seq<char>) -> Option<int>
    decreases ms.len(),
{
    if ms.len() == 0 {
        None
    } else if ms[0].id == id {
        Some(0int)
    } else {
        match find_note_spec(ms.drop_first(), id) {
            Some(i) => Some(i + 1),
            None => None,
        }
    }
}

pub proof fn lemma_find_note_at(ms: Seq<NoteV>, id: Seq<char>, k: int)
    requires
        0 <= k < ms.len(),
        ms[k].id == id,
        forall|j: int| 0 <= j < k ==> (#[trigger] ms[j]).id != id,
    ensures
        find_note_spec(ms, id) == Some(k),
    decreases k,
{
    if k > 0 {
        assert forall|j: int| 0 <= j < k - 1 implies (#[trigger] ms.drop_first()[j]).id != id by {
            assert(ms.drop_first()[j] == ms[j + 1]);
        }
        assert(ms.drop_first()[k - 1] == ms[k]);
        lemma_find_note_at(ms.drop_first(), id, k - 1);
    }
}

pub proof fn lemma_find_note_none(ms: Seq<NoteV>, id: Seq<char>)
    requires
        forall|j: int| 0 <= j < ms.len() ==> (#[trigger] ms[j]).id != id,
    ensures
        find_note_spec(ms, id) is None,
    decreases ms.len(),
{
    if ms.len() != 0 {
        assert forall|j: int| 0 <= j < ms.drop_first().len() implies (#[trigger] ms.drop_first(
        )[j]).id != id by {
            assert(ms.drop_first()[j] == ms[j + 1]);
        }
        lemma_find_note_none(ms.drop_first(), id);
    }
}

/// The collection without the notes carrying the given id.
pub open spec fn remove_notes_spec(ms: Seq<NoteV>, id: Seq<char>) -> Seq<NoteV>
    decreases ms.len(),
{
    if ms.len() == 0 {
        Seq::<NoteV>::empty()
    } else if ms[0].id == id {
        remove_notes_spec(ms.drop_first(), id)
    } else {
        seq![ms[0]] + remove_notes_spec(ms.drop_first(), id)
    }
}

proof fn lemma_remove_notes_snoc(ms: Seq<NoteV>, m: NoteV, id: Seq<char>)
    ensures
        remove_notes_spec(ms.push(m), id) == if m.id == id {
            remove_notes_spec(ms, id)
        } else {
            remove_notes_spec(ms, id).push(m)
        },
    decreases ms.len(),
{
    let w = ms.push(m);
    if ms.len() == 0 {
        reveal_with_fuel(remove_notes_spec, 3);
        assert(w[0] == m);
        assert(w.drop_first() =~= Seq::<NoteV>::empty());
        if m.id != id {
            assert(remove_notes_spec(w, id) =~= remove_notes_spec(ms, id).push(m));
        }
    } else {
        assert(w[0] == ms[0]);
        assert(w.drop_first() =~= ms.drop_first().push(m));
        lemma_remove_notes_snoc(ms.drop_first(), m, id);
        if m.id != id && ms[0].id != id {
            assert(remove_notes_spec(w, id) =~= remove_notes_spec(ms, id).push(m));
        }
    }
}

/// The lock-free core of the note cache: the ordered collection of root
/// notes.
pub struct NotesState {
    pub notes: Vec<Note>,
}

impl NotesState {
    /// The images of the cached notes, in collection order.
    pub open spec fn model(self) -> Seq<NoteV> {
        notes_model(self.notes@)
    }

    /// An empty collection; a shell fills it through `load_all_notes`.
    pub fn new() -> (s: NotesState)
        ensures
            s.model() == Seq::<NoteV>::empty(),
    {
        let s = NotesState { notes: Vec::new() };
        proof {
            assert(s.notes@ =~= Seq::<Note>::empty());
            assert(notes_model(s.notes@) =~= Seq::<NoteV>::empty());
        }
        s
    }

    /// The position of the first note with the given id.
    fn find_note(&self, id: &Vec<char>) -> (r: Option<usize>)
        ensures
            match r {
                Some(i) => i < self.notes@.len() && find_note_spec(self.model(), id@) == Some(
                    i as int,
                ),
                None => find_note_spec(self.model(), id@) is None,
            },
    {
        let mut i: usize = 0;
        proof {
            lemma_notes_model_len(self.notes@);
        }
        while i < self.notes.len()
            invariant
                0 <= i <= self.notes@.len(),
                self.model().len() == self.notes@.len(),
                forall|j: int| 0 <= j < i ==> (#[trigger] self.model()[j]).id != id@,
            decreases self.notes@.len() - i,
        {
            let note_id = crate::text::chars_of_str(self.notes[i].id.as_str());
            proof {
                lemma_notes_model_index(self.notes@, i as int);
            }
            if crate::text::chars_eq(&note_id, id) {
                proof {
                    lemma_find_note_at(self.model(), id@, i as int);
                }
                return Some(i);
            }
            i += 1;
        }
        proof {
            lemma_find_note_none(self.model(), id@);
        }
        None
    }

    /// Creates a fresh root note, appends it to the collection, and
    /// returns it; the caller persists its file.
    pub fn create_note(&mut self, title: String, content: String, now: u64) -> (n: Note)
        ensures
            n.model() == new_note_spec(title@, content@, now),
            final(self).model() == old(self).model().push(new_note_spec(title@, content@, now)),
    {
        let note = Note::new(title, content, now);
        let stored = note.duplicate();
        let ghost prev = self.notes@;
        self.notes.push(stored);
        proof {
            lemma_notes_model_snoc(prev, stored);
        }
        note
    }

    /// Projects every cached note to its preview, child count taken from
    /// its own children.
    pub fn get_notes(&self) -> (r: Vec<NotePreview>)
        ensures
            r@.len() == self.model().len(),
            forall|i: int|
                0 <= i < r@.len() ==> {
                    let m = self.model()[i];
                    let p = #[trigger] r@[i];
                    &&& p.id@ == m.id
                    &&& crate::model::opt_str_view(p.parent_id) == m.parent_id
                    &&& p.title@ == m.title
                    &&& p.content_without_checkboxes@ == remove_checkboxes_spec(m.content)
                    &&& p.content_preview@ == truncate_spec(remove_checkboxes_spec(m.content), 100)
                    &&& p.child_count == count32(m.children.len() as int)
                    &&& p.is_task == m.is_task
                    &&& p.is_done == m.is_done
                    &&& p.pomodoro_count == m.pomodoro_count
                    &&& p.created_at == m.created_at
                    &&& p.updated_at == m.updated_at
                },
    {
        let mut r: Vec<NotePreview> = Vec::new();
        let mut i: usize = 0;
        proof {
            lemma_notes_model_len(self.notes@);
        }
        while i < self.notes.len()
            invariant
                0 <= i <= self.notes@.len(),
                self.model().len() == self.notes@.len(),
                r@.len() == i,
                forall|j: int|
                    0 <= j < i ==> {
                        let m = self.model()[j];
                        let p = #[trigger] r@[j];
                        &&& p.id@ == m.id
                        &&& crate::model::opt_str_view(p.parent_id) == m.parent_id
                        &&& p.title@ == m.title
                        &&& p.content_without_checkboxes@ == remove_checkboxes_spec(m.content)
                        &&& p.content_preview@ == truncate_spec(
                            remove_checkboxes_spec(m.content),
                            100,
                        )
                        &&& p.child_count == count32(m.children.len() as int)
                        &&& p.is_task == m.is_task
                        &&& p.is_done == m.is_done
                        &&& p.pomodoro_count == m.pomodoro_count
                        &&& p.created_at == m.created_at
                        &&& p.updated_at == m.updated_at
                    },
            decreases self.notes@.len() - i,
        {
            let note = &self.notes[i];
            let child_count: u32 = if note.children.len() >= 0xffff_ffffusize {
                0xffff_ffffu32
            } else {
                note.children.len() as u32
            };
            proof {
                lemma_notes_model_index(self.notes@, i as int);
                lemma_notes_model_len(note.children@);
            }
            let p = note_to_preview(note, child_count);
            r.push(p);
            i += 1;
        }
        r
    }

    /// The first note with the given id, its derived body-without-
    /// checkboxes field filled in; not-found when no cached note has it.
    pub fn get_note(&self, id: &str) -> (r: Result<Note, String>)
        ensures
            match r {
                Ok(n) => find_note_spec(self.model(), id@) matches Some(i) && n.model() == (NoteV {
                    content_without_checkboxes: Some(
                        remove_checkboxes_spec(self.model()[i].content),
                    ),
                    ..self.model()[i]
                }),
                Err(e) => find_note_spec(self.model(), id@) is None && e@ == "Note not found"@,
            },
    {
        let idv = crate::text::chars_of_str(id);
        match self.find_note(&idv) {
            Some(i) => {
                proof {
                    lemma_notes_model_index(self.notes@, i as int);
                }
                let found = self.notes[i].duplicate();
                let cwc = remove_checkboxes(found.content.as_str());
                let n = Note { content_without_checkboxes: Some(cwc), ..found };
                proof {
                    assert(n.model() =~= (NoteV {
                        content_without_checkboxes: Some(
                            remove_checkboxes_spec(self.model()[i as int].content),
                        ),
                        ..self.model()[i as int]
                    }));
                }
                Ok(n)
            },
            None => Err(str_to_string("Note not found")),
        }
    }

    /// Replaces title and body of the first note with the given id,
    /// stamps `updated_at`, and returns the updated note with its derived
    /// field filled; the collection keeps the note's position.
    pub fn update_note(&mut self, id: &str, title: String, content: String, now: u64) -> (r:
        Result<Note, String>)
        ensures
            match r {
                Ok(n) => {
                    &&& find_note_spec(old(self).model(), id@) matches Some(i)
                    &&& final(self).model() == old(self).model().update(
                        i,
                        (NoteV {
                            title: title@,
                            content: content@,
                            updated_at: now,
                            ..old(self).model()[i]
                        }),
                    )
                    &&& n.model() == (NoteV {
                        title: title@,
                        content: content@,
                        updated_at: now,
                        content_without_checkboxes: Some(remove_checkboxes_spec(content@)),
                        ..old(self).model()[find_note_spec(old(self).model(), id@)->0]
                    })
                },
                Err(e) => {
                    &&& find_note_spec(old(self).model(), id@) is None
                    &&& final(self).model() == old(self).model()
                    &&& e@ == "Note not found"@
                },
            },
    {
        let idv = crate::text::chars_of_str(id);
        match self.find_note(&idv) {
            Some(i) => {
                proof {
                    lemma_notes_model_index(self.notes@, i as int);
                }
                let old_note = self.notes[i].duplicate();
                let cwc = remove_checkboxes(content.as_str());
                let stored = Note {
                    title: clone_string(&title),
                    content: clone_string(&content),
                    updated_at: now,
                    ..old_note
                };
                let returned = Note {
                    content_without_checkboxes: Some(cwc),
                    ..stored.duplicate()
                };
                let ghost prev = self.notes@;
                self.set_note(i, stored);
                proof {
                    assert(returned.model() =~= (NoteV {
                        title: title@,
                        content: content@,
                        updated_at: now,
                        content_without_checkboxes: Some(remove_checkboxes_spec(content@)),
                        ..notes_model(prev)[i as int]
                    }));
                }
                Ok(returned)
            },
            None => Err(str_to_string("Note not found")),
        }
    }

    /// Replaces the note at `i`, keeping all other positions.
    fn set_note(&mut self, i: usize, n: Note)
        requires
            i < old(self).notes@.len(),
        ensures
            final(self).model() == old(self).model().update(i as int, n.model()),
    {
        let removed = self.notes.remove(i);
        self.notes.insert(i, n);
        proof {
            assert(self.notes@ =~= old(self).notes@.update(i as int, n));
            lemma_notes_model_update(old(self).notes@, i as int, n);
        }
    }

    /// Drops every cached note with the given id; the caller removes the
    /// backing file.  Deleting an absent id leaves the collection as it
    /// was.
    pub fn delete_note(&mut self, id: &str)
        ensures
            final(self).model() == remove_notes_spec(old(self).model(), id@),
    {
        let idv = crate::text::chars_of_str(id);
        let mut kept: Vec<Note> = Vec::new();
        let mut i: usize = 0;
        proof {
            lemma_notes_model_len(self.notes@);
            assert(self.model().subrange(0, 0) =~= Seq::<NoteV>::empty());
            assert(notes_model(kept@) =~= Seq::<NoteV>::empty()) by {
                assert(kept@ =~= Seq::<Note>::empty());
            }
            reveal_with_fuel(remove_notes_spec, 2);
        }
        while i < self.notes.len()
            invariant
                0 <= i <= self.notes@.len(),
                self.model().len() == self.notes@.len(),
                idv@ == id@,
                notes_model(kept@) == remove_notes_spec(
                    self.model().subrange(0, i as int),
                    id@,
                ),
            decreases self.notes@.len() - i,
        {
            let note_id = crate::text::chars_of_str(self.notes[i].id.as_str());
            proof {
                lemma_notes_model_index(self.notes@, i as int);
                lemma_remove_notes_snoc(self.model().subrange(0, i as int), self.model()[i as int],
                    id@);
                assert(self.model().subrange(0, i + 1 as int) =~= self.model().subrange(
                    0,
                    i as int,
                ).push(self.model()[i as int]));
            }
            if !crate::text::chars_eq(&note_id, &idv) {
                let keep = self.notes[i].duplicate();
                let ghost prev = kept@;
                kept.push(keep);
                proof {
                    lemma_notes_model_snoc(prev, keep);
                }
            }
            i += 1;
        }
        proof {
            assert(self.model().subrange(0, self.model().len() as int) =~= self.model());
        }
        self.notes = kept;
    }

    /// Replaces the whole collection with freshly loaded notes,
    /// discarding the previous in-memory state.
    pub fn load_all_notes(&mut self, loaded: Vec<Note>)
        ensures
            final(self).model() == notes_model(loaded@),
    {
        self.notes = loaded;
    }

    /// Rewrites the matching checkbox lines in the first note with the
    /// given id, stamps `updated_at`, and returns the updated note.
    pub fn update_note_checkbox_status(
        &mut self,
        note_id: &str,
        checkbox_text: &str,
        new_status: bool,
        now: u64,
    ) -> (r: Result<Note, String>)
        ensures
            match r {
                Ok(n) => {
                    &&& find_note_spec(old(self).model(), note_id@) matches Some(i)
                    &&& final(self).model() == old(self).model().update(
                        i,
                        (NoteV {
                            content: update_content_spec(
                                old(self).model()[i].content,
                                checkbox_text@,
                                new_status,
                            ),
                            updated_at: now,
                            ..old(self).model()[i]
                        }),
                    )
                    &&& n.model() == final(self).model()[find_note_spec(
                        old(self).model(),
                        note_id@,
                    )->0]
                },
                Err(e) => {
                    &&& find_note_spec(old(self).model(), note_id@) is None
                    &&& final(self).model() == old(self).model()
                    &&& e@ == "Note not found"@
                },
            },
    {
        let idv = crate::text::chars_of_str(note_id);
        match self.find_note(&idv) {
            Some(i) => {
                proof {
                    lemma_notes_model_index(self.notes@, i as int);
                }
                let old_note = self.notes[i].duplicate();
                let new_content = update_checkbox_in_content(
                    old_note.content.as_str(),
                    checkbox_text,
                    new_status,
                );
                let stored = Note { content: new_content, updated_at: now, ..old_note };
                let returned = stored.duplicate();
                let ghost prev = self.notes@;
                self.set_note(i, stored);
                proof {
                    lemma_notes_model_len(prev);
                }
                Ok(returned)
            },
            None => Err(str_to_string("Note not found")),
        }
    }
}

pub proof fn lemma_notes_model_update(ns: Seq<Note>, i: int, n: Note)
    requires
        0 <= i < ns.len(),
    ensures
        notes_model(ns.update(i, n)) == notes_model(ns).update(i, n.model()),
    decreases ns.len(),
{
    lemma_notes_model_len(ns);
    let w = ns.update(i, n);
    lemma_notes_model_len(w);
    assert forall|j: int| 0 <= j < ns.len() implies notes_model(w)[j] == notes_model(ns).update(
        i,
        n.model(),
    )[j] by {
        lemma_notes_model_index(w, j);
        lemma_notes_model_index(ns, j);
    }
    assert(notes_model(w) =~= notes_model(ns).update(i, n.model()));
}

} // verus!

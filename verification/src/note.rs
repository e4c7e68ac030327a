//! Notes, and the store that owns them.

use crate::clock::Timestamp;
use crate::error::StoreError;
use crate::ident::Id;
use crate::sequences::{
    lemma_filter_drops_one, lemma_filter_keeps_all, lemma_filter_keeps_back,
    lemma_filter_keeps_front,
};
use crate::tag::{has_tag, TagStore};
use vstd::prelude::*;

verus! {

/// A piece of free text with the tags that label it.
#[derive(Clone, Debug, PartialEq, Eq)]
pub struct Note {
    pub id: Id,
    pub created_dt: Timestamp,
    pub content: String,
    /// The identifiers of the note's tags, in the order in which they were
    /// added; none occurs twice.
    pub tags: Vec<Id>,
}

/// What a [`Note`] stands for in contracts.
pub struct NoteView {
    pub id: Id,
    pub created_dt: Timestamp,
    pub content: Seq<char>,
    pub tags: Seq<Id>,
}

/// Holds of every identifier but `id`.
pub open spec fn other_than(id: Id) -> spec_fn(Id) -> bool {
    |t: Id| t != id
}

/// Holds of the notes that were created at `time` or before it.
pub open spec fn created_by(time: Timestamp) -> spec_fn(NoteView) -> bool {
    |n: NoteView| n.created_dt.not_after(time)
}

/// Holds of the notes that were created after `time`.
pub open spec fn created_after(time: Timestamp) -> spec_fn(NoteView) -> bool {
    |n: NoteView| !n.created_dt.not_after(time)
}

/// Holds of every note but the note `id`.
pub open spec fn not_the_note(id: Id) -> spec_fn(NoteView) -> bool {
    |n: NoteView| n.id != id
}

impl NoteView {
    /// The note with `content` as its text.
    pub open spec fn with_content(self, content: Seq<char>) -> NoteView {
        NoteView { content, ..self }
    }

    /// The note with `tag` among its tags: added behind the others if it
    /// was not there, and unchanged if it was.
    pub open spec fn with_tag(self, tag: Id) -> NoteView {
        if self.tags.contains(tag) {
            self
        } else {
            NoteView { tags: self.tags.push(tag), ..self }
        }
    }

    /// The note without `tag` among its tags, the others in their order.
    pub open spec fn without_tag(self, tag: Id) -> NoteView {
        NoteView { tags: self.tags.filter(other_than(tag)), ..self }
    }
}

impl View for Note {
    type V = NoteView;

    open spec fn view(&self) -> NoteView {
        NoteView {
            id: self.id,
            created_dt: self.created_dt,
            content: self.content@,
            tags: self.tags@,
        }
    }
}

impl Note {
    /// A copy of the note.
    pub fn duplicate(&self) -> (copy: Note)
        ensures
            copy@ == self@,
    {
        let tags = self.tags.clone();
        assert(tags@ =~= self.tags@);
        Note { id: self.id, created_dt: self.created_dt, content: self.content.clone(), tags }
    }
}

/// What each note of `notes` stands for, in the same order.
pub open spec fn note_views(notes: Seq<Note>) -> Seq<NoteView> {
    notes.map_values(|n: Note| n@)
}

/// No two notes of `notes` have the same identifier.
pub open spec fn note_ids_distinct(notes: Seq<NoteView>) -> bool {
    forall|i: int, j: int| 0 <= i < j < notes.len() ==> notes[i].id != notes[j].id
}

/// No note of `notes` stands before one that was created earlier.
pub open spec fn in_time_order(notes: Seq<NoteView>) -> bool {
    forall|i: int, j: int|
        0 <= i < j < notes.len() ==> notes[i].created_dt.not_after(notes[j].created_dt)
}

/// No note of `notes` names a tag twice.
pub open spec fn tags_not_repeated(notes: Seq<NoteView>) -> bool {
    forall|i: int| 0 <= i < notes.len() ==> (#[trigger] notes[i]).tags.no_duplicates()
}

/// What holds of the notes of a store at all times.
pub open spec fn notes_wf(notes: Seq<NoteView>) -> bool {
    &&& note_ids_distinct(notes)
    &&& in_time_order(notes)
    &&& tags_not_repeated(notes)
}

/// Some note of `notes` has the identifier `id`.
pub open spec fn has_note(notes: Seq<NoteView>, id: Id) -> bool {
    exists|i: int| 0 <= i < notes.len() && #[trigger] notes[i].id == id
}

/// `notes` with `note` put in by its time of creation: behind the notes
/// that were not created later, before those that were.
pub open spec fn with_note_added(notes: Seq<NoteView>, note: NoteView) -> Seq<NoteView> {
    notes.filter(created_by(note.created_dt)).push(note) + notes.filter(
        created_after(note.created_dt),
    )
}

/// `notes`, with the text of the note `id` replaced by `content`.
pub open spec fn with_content_edited(notes: Seq<NoteView>, id: Id, content: Seq<char>) -> Seq<
    NoteView,
> {
    notes.map_values(
        |n: NoteView|
            if n.id == id {
                n.with_content(content)
            } else {
                n
            },
    )
}

/// `notes` without the note `id`, the others in their order.
pub open spec fn with_note_deleted(notes: Seq<NoteView>, id: Id) -> Seq<NoteView> {
    notes.filter(not_the_note(id))
}

/// `notes`, with `tag` among the tags of the note `note`.
pub open spec fn with_tag_added(notes: Seq<NoteView>, note: Id, tag: Id) -> Seq<NoteView> {
    notes.map_values(
        |n: NoteView|
            if n.id == note {
                n.with_tag(tag)
            } else {
                n
            },
    )
}

/// `notes`, with `tag` no longer among the tags of the note `note`.
pub open spec fn with_tag_removed(notes: Seq<NoteView>, note: Id, tag: Id) -> Seq<NoteView> {
    notes.map_values(
        |n: NoteView|
            if n.id == note {
                n.without_tag(tag)
            } else {
                n
            },
    )
}

/// `notes`, with `tag` no longer among the tags of any note.
pub open spec fn with_tag_stripped(notes: Seq<NoteView>, tag: Id) -> Seq<NoteView> {
    notes.map_values(|n: NoteView| n.without_tag(tag))
}

/// Taking a tag off a note twice leaves the notes as taking it off once
/// does.
pub proof fn lemma_tag_removed_twice(notes: Seq<NoteView>, note: Id, tag: Id)
    ensures
        with_tag_removed(with_tag_removed(notes, note, tag), note, tag) == with_tag_removed(
            notes,
            note,
            tag,
        ),
{
    let once = with_tag_removed(notes, note, tag);
    assert forall|i: int| 0 <= i < notes.len() && notes[i].id == note implies once[i].without_tag(
        tag,
    ) == once[i] by {
        lemma_tag_taken_off_twice(notes[i], tag);
    }
    assert(with_tag_removed(once, note, tag) =~= once);
}

/// Taking a tag off every note twice leaves the notes as taking it off
/// once does.
pub proof fn lemma_tag_stripped_twice(notes: Seq<NoteView>, tag: Id)
    ensures
        with_tag_stripped(with_tag_stripped(notes, tag), tag) == with_tag_stripped(notes, tag),
{
    let once = with_tag_stripped(notes, tag);
    assert forall|i: int| 0 <= i < notes.len() implies once[i].without_tag(tag) == once[i] by {
        lemma_tag_taken_off_twice(notes[i], tag);
    }
    assert(with_tag_stripped(once, tag) =~= once);
}

/// Putting a tag on a note twice leaves the notes as putting it on once
/// does.
pub proof fn lemma_tag_added_twice(notes: Seq<NoteView>, note: Id, tag: Id)
    ensures
        with_tag_added(with_tag_added(notes, note, tag), note, tag) == with_tag_added(
            notes,
            note,
            tag,
        ),
{
    let once = with_tag_added(notes, note, tag);
    assert forall|i: int| 0 <= i < notes.len() implies notes[i].with_tag(tag).with_tag(tag)
        == #[trigger] notes[i].with_tag(tag) by {
        if !notes[i].tags.contains(tag) {
            assert(notes[i].tags.push(tag)[notes[i].tags.len() as int] == tag);
        }
    }
    assert(with_tag_added(once, note, tag) =~= once);
}

/// A note that a tag was taken off does not have the tag, so that taking it
/// off again changes nothing.
proof fn lemma_tag_taken_off_twice(note: NoteView, tag: Id)
    ensures
        !note.without_tag(tag).tags.contains(tag),
        note.without_tag(tag).without_tag(tag) == note.without_tag(tag),
{
    let left = note.tags.filter(other_than(tag));
    assert forall|k: int| 0 <= k < left.len() implies other_than(tag)(#[trigger] left[k]) by {
        note.tags.lemma_filter_pred(other_than(tag), k);
    }
    lemma_filter_keeps_all(left, other_than(tag));
}

/// Takes `tag` out of `tags`, where none occurs twice.
fn drop_tag(tags: &mut Vec<Id>, tag: Id)
    requires
        old(tags)@.no_duplicates(),
    ensures
        final(tags)@ == old(tags)@.filter(other_than(tag)),
        final(tags)@.no_duplicates(),
{
    let mut i: usize = 0;
    while i < tags.len()
        invariant
            i <= tags.len(),
            tags@ == old(tags)@,
            tags@.no_duplicates(),
            forall|j: int| 0 <= j < i ==> tags@[j] != tag,
        decreases tags.len() - i,
    {
        if tags[i] == tag {
            proof {
                assert forall|j: int| 0 <= j < tags@.len() && j != i implies other_than(tag)(
                    #[trigger] tags@[j],
                ) by {
                    assert(tags@[j] != tags@[i as int]);
                }
                lemma_filter_drops_one(tags@, i as int, other_than(tag));
            }
            tags.remove(i);
            assert forall|j: int, k: int|
                0 <= j < tags@.len() && 0 <= k < tags@.len() && j != k implies tags@[j]
                != tags@[k] by {
                let from_j = if j < i { j } else { j + 1 };
                let from_k = if k < i { k } else { k + 1 };
                assert(tags@[j] == old(tags)@[from_j]);
                assert(tags@[k] == old(tags)@[from_k]);
            }
            return ;
        }
        i += 1;
    }
    proof {
        lemma_filter_keeps_all(tags@, other_than(tag));
    }
}

/// The notes of the application, ordered by their time of creation; notes
/// created at the same time stand in the order in which they were added.
pub struct NoteStore {
    notes: Vec<Note>,
}

impl View for NoteStore {
    type V = Seq<NoteView>;

    closed spec fn view(&self) -> Seq<NoteView> {
        note_views(self.notes@)
    }
}

impl NoteStore {
    /// The notes have different identifiers, stand in the order of their
    /// creation, and none names a tag twice.
    pub open spec fn wf(&self) -> bool {
        notes_wf(self@)
    }

    /// A store without notes.
    pub fn new() -> (store: NoteStore)
        ensures
            store.wf(),
            store@ == Seq::<NoteView>::empty(),
    {
        NoteStore { notes: Vec::new() }
    }

    /// The number of notes.
    pub fn len(&self) -> (n: usize)
        ensures
            n == self@.len(),
    {
        self.notes.len()
    }

    /// The place of the note `id` in the store, if it is there.
    pub fn position(&self, id: Id) -> (place: Option<usize>)
        ensures
            match place {
                Some(i) => i < self@.len() && self@[i as int].id == id,
                None => !has_note(self@, id),
            },
    {
        let mut i: usize = 0;
        while i < self.notes.len()
            invariant
                i <= self.notes.len(),
                forall|j: int| 0 <= j < i ==> self@[j].id != id,
            decreases self.notes.len() - i,
        {
            if self.notes[i].id == id {
                return Some(i);
            }
            i += 1;
        }
        None
    }

    /// Whether the store holds a note `id`.
    pub fn contains(&self, id: Id) -> (b: bool)
        ensures
            b == has_note(self@, id),
    {
        self.position(id).is_some()
    }

    /// A copy of the note `id`, if the store holds it.
    pub fn find_note(&self, id: Id) -> (found: Option<Note>)
        ensures
            match found {
                Some(note) => note@.id == id && self@.contains(note@),
                None => !has_note(self@, id),
            },
    {
        match self.position(id) {
            Some(i) => {
                let copy = self.notes[i].duplicate();
                assert(self@[i as int] == copy@);
                Some(copy)
            },
            None => None,
        }
    }

    /// Puts a new note without tags into the store, at the place that its
    /// time of creation gives it, and returns a copy of it.
    pub fn create_note(&mut self, id: Id, created_dt: Timestamp, content: String) -> (note: Note)
        requires
            old(self).wf(),
            !has_note(old(self)@, id),
        ensures
            final(self).wf(),
            note@ == (NoteView { id, created_dt, content: content@, tags: Seq::<Id>::empty() }),
            final(self)@ == with_note_added(old(self)@, note@),
    {
        let note = Note { id, created_dt, content, tags: Vec::new() };
        let copy = note.duplicate();
        let mut place: usize = self.notes.len();
        while place > 0 && !self.notes[place - 1].created_dt.is_not_after(&created_dt)
            invariant
                place <= self.notes.len(),
                self@ == old(self)@,
                forall|j: int|
                    place <= j < self@.len() ==> !(#[trigger] self@[j]).created_dt.not_after(
                        created_dt,
                    ),
            decreases place,
        {
            place -= 1;
        }
        proof {
            assert forall|j: int| 0 <= j < place implies created_by(created_dt)(
                #[trigger] self@[j],
            ) by {
                assert(self@[j].created_dt.not_after(self@[place - 1].created_dt));
            }
            lemma_filter_keeps_front(self@, place as int, created_by(created_dt));
            lemma_filter_keeps_back(self@, place as int, created_after(created_dt));
        }
        self.notes.insert(place, note);
        assert(self@ =~= old(self)@.take(place as int).push(copy@) + old(self)@.skip(place as int));
        copy
    }

    /// Replaces the text of the note `id` by `new_content`. Fails, and
    /// changes nothing, if the store holds no note `id`.
    pub fn edit_content(&mut self, id: Id, new_content: String) -> (result: Result<(), StoreError>)
        requires
            old(self).wf(),
        ensures
            final(self).wf(),
            has_note(old(self)@, id) ==> result == Ok::<(), StoreError>(()) && final(self)@
                == with_content_edited(old(self)@, id, new_content@),
            !has_note(old(self)@, id) ==> result == Err::<(), StoreError>(StoreError::NotFound)
                && final(self)@ == old(self)@,
    {
        match self.position(id) {
            Some(i) => {
                self.notes[i].content = new_content;
                assert(self@ =~= with_content_edited(old(self)@, id, new_content@));
                Ok(())
            },
            None => Err(StoreError::NotFound),
        }
    }

    /// Removes the note `id` from the store. Fails, and changes nothing, if
    /// the store holds no note `id`.
    pub fn delete_note(&mut self, id: Id) -> (result: Result<(), StoreError>)
        requires
            old(self).wf(),
        ensures
            final(self).wf(),
            has_note(old(self)@, id) ==> result == Ok::<(), StoreError>(()) && final(self)@
                == with_note_deleted(old(self)@, id),
            !has_note(old(self)@, id) ==> result == Err::<(), StoreError>(StoreError::NotFound)
                && final(self)@ == old(self)@,
    {
        match self.position(id) {
            Some(i) => {
                proof {
                    lemma_filter_drops_one(self@, i as int, not_the_note(id));
                }
                self.notes.remove(i);
                assert(self@ =~= old(self)@.remove(i as int));
                Ok(())
            },
            None => Err(StoreError::NotFound),
        }
    }

    /// Puts the tag `tag` on the note `note`, behind the note's other tags;
    /// a note that has the tag already is left as it is. Fails, and changes
    /// nothing, if the store holds no note `note` or `tags` holds no tag
    /// `tag`.
    pub fn add_tag_to_note(&mut self, tags: &TagStore, note: Id, tag: Id) -> (result: Result<
        (),
        StoreError,
    >)
        requires
            old(self).wf(),
        ensures
            final(self).wf(),
            has_note(old(self)@, note) && has_tag(tags@, tag) ==> result == Ok::<(), StoreError>(())
                && final(self)@ == with_tag_added(old(self)@, note, tag),
            !(has_note(old(self)@, note) && has_tag(tags@, tag)) ==> result == Err::<
                (),
                StoreError,
            >(StoreError::NotFound) && final(self)@ == old(self)@,
    {
        if !tags.contains(tag) {
            return Err(StoreError::NotFound);
        }
        match self.position(note) {
            Some(i) => {
                let mut k: usize = 0;
                let mut present = false;
                while k < self.notes[i].tags.len()
                    invariant
                        i < self.notes.len(),
                        k <= self.notes[i as int].tags.len(),
                        present == exists|j: int| 0 <= j < k && self.notes[i as int].tags@[j] == tag,
                    decreases self.notes[i as int].tags.len() - k,
                {
                    if self.notes[i].tags[k] == tag {
                        present = true;
                    }
                    k += 1;
                }
                assert(present == self@[i as int].tags.contains(tag));
                if !present {
                    self.notes[i].tags.push(tag);
                }
                assert(self@ =~= with_tag_added(old(self)@, note, tag));
                Ok(())
            },
            None => Err(StoreError::NotFound),
        }
    }

    /// Takes the tag `tag` off the note `note`; a note that does not have
    /// the tag is left as it is. Fails, and changes nothing, if the store
    /// holds no note `note`.
    pub fn remove_tag_from_note(&mut self, note: Id, tag: Id) -> (result: Result<(), StoreError>)
        requires
            old(self).wf(),
        ensures
            final(self).wf(),
            has_note(old(self)@, note) ==> result == Ok::<(), StoreError>(()) && final(self)@
                == with_tag_removed(old(self)@, note, tag),
            !has_note(old(self)@, note) ==> result == Err::<(), StoreError>(StoreError::NotFound)
                && final(self)@ == old(self)@,
    {
        match self.position(note) {
            Some(i) => {
                drop_tag(&mut self.notes[i].tags, tag);
                assert(self@ =~= with_tag_removed(old(self)@, note, tag));
                Ok(())
            },
            None => Err(StoreError::NotFound),
        }
    }

    /// Takes the tag `tag` off every note.
    pub fn strip_tag_everywhere(&mut self, tag: Id)
        requires
            old(self).wf(),
        ensures
            final(self).wf(),
            final(self)@ == with_tag_stripped(old(self)@, tag),
    {
        let mut i: usize = 0;
        while i < self.notes.len()
            invariant
                i <= self.notes.len(),
                self@.len() == old(self)@.len(),
                forall|j: int| 0 <= j < i ==> self@[j] == old(self)@[j].without_tag(tag),
                forall|j: int| i <= j < self@.len() ==> self@[j] == old(self)@[j],
                notes_wf(self@),
            decreases self.notes.len() - i,
        {
            let ghost before = self@;
            assert(before[i as int].tags.no_duplicates());
            drop_tag(&mut self.notes[i].tags, tag);
            proof {
                let after = self@;
                assert(after[i as int] == before[i as int].without_tag(tag));
                assert forall|j: int| 0 <= j < after.len() && j != i implies after[j]
                    == before[j] by {}
                assert forall|j: int| 0 <= j <= i implies after[j] == old(self)@[j].without_tag(
                    tag,
                ) by {
                    if j < i {
                        assert(after[j] == before[j]);
                    }
                }
                assert forall|j: int| i < j < after.len() implies after[j] == old(self)@[j] by {
                    assert(after[j] == before[j]);
                }
                assert forall|a: int, b: int| 0 <= a < b < after.len() implies after[a].id
                    != after[b].id && after[a].created_dt.not_after(after[b].created_dt) by {
                    assert(after[a].id == before[a].id);
                    assert(after[b].id == before[b].id);
                    assert(before[a].created_dt.not_after(before[b].created_dt));
                }
                assert forall|j: int| 0 <= j < after.len() implies (#[trigger] after[j])
                    .tags.no_duplicates() by {
                    if j != i {
                        assert(after[j] == before[j]);
                    }
                }
            }
            i += 1;
        }
        assert(self@ =~= with_tag_stripped(old(self)@, tag));
    }

    /// The notes as they stand in the store, to read.
    pub fn as_vec(&self) -> (notes: &Vec<Note>)
        ensures
            note_views(notes@) == self@,
    {
        &self.notes
    }

    /// Copies of all notes, in the order of the store.
    pub fn list_notes(&self) -> (notes: Vec<Note>)
        requires
            self.wf(),
        ensures
            note_views(notes@) == self@,
            in_time_order(note_views(notes@)),
    {
        let mut notes: Vec<Note> = Vec::new();
        let mut i: usize = 0;
        while i < self.notes.len()
            invariant
                i <= self.notes.len(),
                notes@.len() == i,
                forall|j: int| 0 <= j < i ==> (#[trigger] notes@[j])@ == self@[j],
            decreases self.notes.len() - i,
        {
            let copy = self.notes[i].duplicate();
            assert(copy@ == self@[i as int]);
            notes.push(copy);
            i += 1;
        }
        assert(note_views(notes@) =~= self@);
        notes
    }
}

} // verus!

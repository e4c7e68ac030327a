//! The application state: the one aggregate that holds the tags, the notes,
//! the search text and the selected tag, with every command and query.

use crate::clock::{system_time, Timestamp};
use crate::error::StoreError;
use crate::filter::{
    keyword_matches, lemma_visible_holds_what_is_shown, lemma_visible_is_subsequence, visible,
    visible_notes,
};
use crate::ident::{
    hands_out, is_first_free, is_run, lemma_handed_out_values_differ, random_bits, Id, IdService,
};
use crate::note::{
    created_after, created_by, has_note, in_time_order, not_the_note, note_views, notes_wf,
    lemma_tag_removed_twice, other_than, with_content_edited, with_note_added,
    with_note_deleted, with_tag_added, with_tag_removed, with_tag_stripped, Note, NoteStore,
    NoteView,
};
use crate::sequences::is_subsequence;
use crate::tag::{
    entry_views, has_tag, not_the_tag, tag_ids_distinct, tag_listing, with_tag_deleted,
    with_tag_renamed, Tag, TagEntry, TagSelector, TagStore, TagView,
};
use vstd::prelude::*;

verus! {

/// Every tag that a note of `notes` names is a tag of `tags`.
pub open spec fn tags_exist(tags: Seq<TagView>, notes: Seq<NoteView>) -> bool {
    forall|i: int, k: int|
        0 <= i < notes.len() && 0 <= k < notes[i].tags.len() ==> has_tag(
            tags,
            #[trigger] notes[i].tags[k],
        )
}

/// `selector` is a pseudo-tag or a tag of `tags`.
pub open spec fn selection_exists(tags: Seq<TagView>, selector: TagSelector) -> bool {
    match selector {
        TagSelector::Tag(id) => has_tag(tags, id),
        _ => true,
    }
}

/// What an [`AppState`] stands for in contracts.
pub struct StateView {
    /// The values of all identifiers handed out so far.
    pub issued: Set<u128>,
    /// The tags, in the order of their creation.
    pub tags: Seq<TagView>,
    /// The notes, in the order of their creation.
    pub notes: Seq<NoteView>,
    /// The text that is searched for.
    pub search_keywords: Seq<char>,
    /// The tag, or pseudo-tag, that is selected.
    pub selected_tag: TagSelector,
}

impl StateView {
    /// What holds of the application state at all times: identifiers are
    /// unique and on record, notes stand in the order of their creation,
    /// every tag that a note names exists, and so does the selected tag.
    pub open spec fn wf(self) -> bool {
        &&& self.issued.finite()
        &&& tag_ids_distinct(self.tags)
        &&& notes_wf(self.notes)
        &&& forall|i: int| 0 <= i < self.tags.len() ==> self.issued.contains(
            (#[trigger] self.tags[i]).id.value,
        )
        &&& forall|i: int| 0 <= i < self.notes.len() ==> self.issued.contains(
            (#[trigger] self.notes[i]).id.value,
        )
        &&& forall|i: int, j: int|
            0 <= i < self.tags.len() && 0 <= j < self.notes.len() ==> (#[trigger] self.tags[i]).id
                != (#[trigger] self.notes[j]).id
        &&& tags_exist(self.tags, self.notes)
        &&& selection_exists(self.tags, self.selected_tag)
    }

    /// The state at the start: nothing issued, no tags, no notes, an empty
    /// search, and "All" selected.
    pub open spec fn initial() -> StateView {
        StateView {
            issued: Set::<u128>::empty(),
            tags: Seq::<TagView>::empty(),
            notes: Seq::<NoteView>::empty(),
            search_keywords: Seq::<char>::empty(),
            selected_tag: TagSelector::All,
        }
    }

    /// The state after the tag `tag` was created.
    pub open spec fn with_tag_created(self, tag: TagView) -> StateView {
        StateView {
            issued: self.issued.insert(tag.id.value),
            tags: self.tags.push(tag),
            ..self
        }
    }

    /// The state after the note `note` was created.
    pub open spec fn with_note_created(self, note: NoteView) -> StateView {
        StateView {
            issued: self.issued.insert(note.id.value),
            notes: with_note_added(self.notes, note),
            ..self
        }
    }

    /// The state after the tag `id` was given the name `name`.
    pub open spec fn with_tag_renamed(self, id: Id, name: Seq<char>) -> StateView {
        StateView { tags: with_tag_renamed(self.tags, id, name), ..self }
    }

    /// The state after the tag `id` was deleted: the tag is gone from the
    /// tags and from every note, and if it was selected, "All" is.
    pub open spec fn with_tag_deleted(self, id: Id) -> StateView {
        StateView {
            tags: with_tag_deleted(self.tags, id),
            notes: with_tag_stripped(self.notes, id),
            selected_tag: if self.selected_tag == TagSelector::Tag(id) {
                TagSelector::All
            } else {
                self.selected_tag
            },
            ..self
        }
    }

    /// The state after the text of the note `id` was replaced by `content`.
    pub open spec fn with_content_edited(self, id: Id, content: Seq<char>) -> StateView {
        StateView { notes: with_content_edited(self.notes, id, content), ..self }
    }

    /// The state after the note `id` was deleted.
    pub open spec fn with_note_deleted(self, id: Id) -> StateView {
        StateView { notes: with_note_deleted(self.notes, id), ..self }
    }

    /// The state after the tag `tag` was put on the note `note`.
    pub open spec fn with_tag_added(self, note: Id, tag: Id) -> StateView {
        StateView { notes: with_tag_added(self.notes, note, tag), ..self }
    }

    /// The state after the tag `tag` was taken off the note `note`.
    pub open spec fn with_tag_removed(self, note: Id, tag: Id) -> StateView {
        StateView { notes: with_tag_removed(self.notes, note, tag), ..self }
    }

    /// The state after `keywords` was set as the text to search for.
    pub open spec fn with_search_keywords(self, keywords: Seq<char>) -> StateView {
        StateView { search_keywords: keywords, ..self }
    }

    /// The state after `selector` was selected.
    pub open spec fn with_selected_tag(self, selector: TagSelector) -> StateView {
        StateView { selected_tag: selector, ..self }
    }

    /// The notes that are shown: those that the selected tag selects and
    /// that answer the search, in the order of the notes.
    pub open spec fn visible_notes(self) -> Seq<NoteView> {
        visible(self.notes, self.selected_tag, self.search_keywords)
    }
}

/// The tags and notes of the application with the search text and the
/// selected tag. Every command of the presentation layer goes through it.
pub struct AppState {
    ids: IdService,
    tags: TagStore,
    notes: NoteStore,
    search_keywords: String,
    selected_tag: TagSelector,
}

impl View for AppState {
    type V = StateView;

    closed spec fn view(&self) -> StateView {
        StateView {
            issued: self.ids.issued(),
            tags: self.tags@,
            notes: self.notes@,
            search_keywords: self.search_keywords@,
            selected_tag: self.selected_tag,
        }
    }
}

impl AppState {
    /// What holds of the application state at all times; see
    /// [`StateView::wf`].
    pub open spec fn wf(&self) -> bool {
        self@.wf()
    }

    /// The state at the start.
    pub fn new() -> (state: AppState)
        ensures
            state.wf(),
            state@ == StateView::initial(),
    {
        AppState {
            ids: IdService::new(),
            tags: TagStore::new(),
            notes: NoteStore::new(),
            search_keywords: String::new(),
            selected_tag: TagSelector::All,
        }
    }

    /// Creates a tag with the name `name` and returns a copy of it. Its
    /// identifier is one that was never handed out before.
    pub fn create_tag(&mut self, name: String) -> (tag: Tag)
        requires
            old(self).wf(),
        ensures
            final(self).wf(),
            tag@.name == name@,
            hands_out(old(self)@.issued, final(self)@.issued, Some(tag@.id.value)),
            final(self)@ == old(self)@.with_tag_created(tag@),
    {
        let candidate = random_bits();
        self.create_tag_with(candidate, name)
    }

    /// Creates a tag with the name `name` and returns a copy of it. Its
    /// identifier is `candidate` if that was never handed out before, and
    /// else the first value after it that never was.
    pub fn create_tag_with(&mut self, candidate: u128, name: String) -> (tag: Tag)
        requires
            old(self).wf(),
        ensures
            final(self).wf(),
            tag@.name == name@,
            is_first_free(old(self)@.issued, candidate, tag@.id.value),
            !old(self)@.issued.contains(candidate) ==> tag@.id.value == candidate,
            hands_out(old(self)@.issued, final(self)@.issued, Some(tag@.id.value)),
            final(self)@ == old(self)@.with_tag_created(tag@),
    {
        let id = self.ids.claim(candidate);
        let tag = self.tags.create_tag(id, name);
        proof {
            let before = old(self)@;
            let after = self@;
            assert forall|i: int, k: int|
                0 <= i < after.notes.len() && 0 <= k < after.notes[i].tags.len() implies has_tag(
                after.tags,
                #[trigger] after.notes[i].tags[k],
            ) by {
                let wanted = before.notes[i].tags[k];
                assert(has_tag(before.tags, wanted));
                let at = choose|at: int| 0 <= at < before.tags.len() && before.tags[at].id == wanted;
                assert(after.tags[at].id == wanted);
            }
            match before.selected_tag {
                TagSelector::Tag(selected) => {
                    let at = choose|at: int|
                        0 <= at < before.tags.len() && before.tags[at].id == selected;
                    assert(after.tags[at].id == selected);
                },
                _ => {},
            }
        }
        tag
    }

    /// Creates a note without tags, with the text `content` and the current
    /// time as its time of creation, and returns a copy of it. Its
    /// identifier is one that was never handed out before.
    pub fn create_note(&mut self, content: String) -> (note: Note)
        requires
            old(self).wf(),
        ensures
            final(self).wf(),
            note@.content == content@,
            note@.tags == Seq::<Id>::empty(),
            hands_out(old(self)@.issued, final(self)@.issued, Some(note@.id.value)),
            final(self)@ == old(self)@.with_note_created(note@),
    {
        let candidate = random_bits();
        let created_dt = system_time();
        self.create_note_with(candidate, created_dt, content)
    }

    /// Creates a note without tags, with the text `content` and
    /// `created_dt` as its time of creation, and returns a copy of it. Its
    /// identifier is `candidate` if that was never handed out before, and
    /// else the first value after it that never was.
    pub fn create_note_with(&mut self, candidate: u128, created_dt: Timestamp, content: String) -> (note:
        Note)
        requires
            old(self).wf(),
        ensures
            final(self).wf(),
            note@.created_dt == created_dt,
            note@.content == content@,
            note@.tags == Seq::<Id>::empty(),
            is_first_free(old(self)@.issued, candidate, note@.id.value),
            !old(self)@.issued.contains(candidate) ==> note@.id.value == candidate,
            hands_out(old(self)@.issued, final(self)@.issued, Some(note@.id.value)),
            final(self)@ == old(self)@.with_note_created(note@),
    {
        let id = self.ids.claim(candidate);
        let note = self.notes.create_note(id, created_dt, content);
        proof {
            lemma_added_note_is_new_or_old(old(self)@.notes, note@);
        }
        note
    }

    /// Gives the tag `id` the name `new_name`. Fails, and changes nothing,
    /// if there is no tag `id`.
    pub fn rename_tag(&mut self, id: Id, new_name: String) -> (result: Result<(), StoreError>)
        requires
            old(self).wf(),
        ensures
            final(self).wf(),
            has_tag(old(self)@.tags, id) ==> result == Ok::<(), StoreError>(()) && final(self)@
                == old(self)@.with_tag_renamed(id, new_name@),
            !has_tag(old(self)@.tags, id) ==> result == Err::<(), StoreError>(StoreError::NotFound)
                && final(self)@ == old(self)@,
    {
        let result = self.tags.rename_tag(id, new_name);
        proof {
            let before = old(self)@;
            let after = self@;
            assert forall|wanted: Id| has_tag(before.tags, wanted) implies has_tag(
                after.tags,
                wanted,
            ) by {
                let at = choose|at: int| 0 <= at < before.tags.len() && before.tags[at].id == wanted;
                assert(after.tags[at].id == wanted);
            }
            assert forall|i: int| 0 <= i < after.tags.len() implies before.tags[i].id
                == after.tags[i].id by {}
        }
        result
    }

    /// Deletes the tag `id`: takes it off every note, and selects "All" if
    /// the tag was selected. Fails, and changes nothing, if there is no tag
    /// `id`.
    pub fn delete_tag(&mut self, id: Id) -> (result: Result<(), StoreError>)
        requires
            old(self).wf(),
        ensures
            final(self).wf(),
            has_tag(old(self)@.tags, id) ==> result == Ok::<(), StoreError>(()) && final(self)@
                == old(self)@.with_tag_deleted(id),
            !has_tag(old(self)@.tags, id) ==> result == Err::<(), StoreError>(StoreError::NotFound)
                && final(self)@ == old(self)@,
            forall|i: int|
                0 <= i < final(self)@.notes.len() ==> !(#[trigger] final(self)@.notes[i]).tags.contains(
                    id,
                ),
    {
        let result = self.tags.delete_tag(&mut self.notes, id);
        if result.is_ok() {
            match self.selected_tag {
                TagSelector::Tag(selected) => {
                    if selected == id {
                        self.selected_tag = TagSelector::All;
                    }
                },
                _ => {},
            }
            proof {
                lemma_delete_tag_keeps_wf(old(self)@, id);
            }
        }
        proof {
            lemma_deleted_tag_is_on_no_note(old(self)@, id);
        }
        result
    }

    /// Replaces the text of the note `id` by `new_content`. Fails, and
    /// changes nothing, if there is no note `id`.
    pub fn edit_content(&mut self, id: Id, new_content: String) -> (result: Result<(), StoreError>)
        requires
            old(self).wf(),
        ensures
            final(self).wf(),
            has_note(old(self)@.notes, id) ==> result == Ok::<(), StoreError>(()) && final(self)@
                == old(self)@.with_content_edited(id, new_content@),
            !has_note(old(self)@.notes, id) ==> result == Err::<(), StoreError>(
                StoreError::NotFound,
            ) && final(self)@ == old(self)@,
    {
        let result = self.notes.edit_content(id, new_content);
        proof {
            let before = old(self)@;
            let after = self@;
            assert forall|i: int| 0 <= i < after.notes.len() implies after.notes[i].id
                == before.notes[i].id && after.notes[i].tags == before.notes[i].tags by {}
        }
        result
    }

    /// Deletes the note `id`. Fails, and changes nothing, if there is no
    /// note `id`.
    pub fn delete_note(&mut self, id: Id) -> (result: Result<(), StoreError>)
        requires
            old(self).wf(),
        ensures
            final(self).wf(),
            has_note(old(self)@.notes, id) ==> result == Ok::<(), StoreError>(()) && final(self)@
                == old(self)@.with_note_deleted(id),
            !has_note(old(self)@.notes, id) ==> result == Err::<(), StoreError>(
                StoreError::NotFound,
            ) && final(self)@ == old(self)@,
    {
        let result = self.notes.delete_note(id);
        proof {
            let before = old(self)@;
            let after = self@;
            assert forall|j: int| 0 <= j < after.notes.len() implies before.notes.contains(
                #[trigger] after.notes[j],
            ) by {
                if result.is_ok() {
                    before.notes.lemma_filter_contains_rev(
                        not_the_note(id),
                        after.notes[j],
                    );
                }
            }
            lemma_notes_from_old_keep_wf(before, after.notes);
        }
        result
    }

    /// Puts the tag `tag` on the note `note`; a note that has the tag
    /// already is left as it is. Fails, and changes nothing, if there is no
    /// note `note` or no tag `tag`.
    pub fn add_tag_to_note(&mut self, note: Id, tag: Id) -> (result: Result<(), StoreError>)
        requires
            old(self).wf(),
        ensures
            final(self).wf(),
            has_note(old(self)@.notes, note) && has_tag(old(self)@.tags, tag) ==> result == Ok::<
                (),
                StoreError,
            >(()) && final(self)@ == old(self)@.with_tag_added(note, tag),
            !(has_note(old(self)@.notes, note) && has_tag(old(self)@.tags, tag)) ==> result
                == Err::<(), StoreError>(StoreError::NotFound) && final(self)@ == old(self)@,
    {
        let result = self.notes.add_tag_to_note(&self.tags, note, tag);
        proof {
            let before = old(self)@;
            let after = self@;
            assert forall|i: int| 0 <= i < after.notes.len() implies after.notes[i].id
                == before.notes[i].id by {}
            assert forall|i: int, k: int|
                0 <= i < after.notes.len() && 0 <= k < after.notes[i].tags.len() implies has_tag(
                after.tags,
                #[trigger] after.notes[i].tags[k],
            ) by {
                if k < before.notes[i].tags.len() {
                    assert(after.notes[i].tags[k] == before.notes[i].tags[k]);
                }
            }
        }
        result
    }

    /// Takes the tag `tag` off the note `note`; a note that does not have
    /// the tag is left as it is. Fails, and changes nothing, if there is no
    /// note `note`.
    pub fn remove_tag_from_note(&mut self, note: Id, tag: Id) -> (result: Result<(), StoreError>)
        requires
            old(self).wf(),
        ensures
            final(self).wf(),
            has_note(old(self)@.notes, note) ==> result == Ok::<(), StoreError>(()) && final(self)@
                == old(self)@.with_tag_removed(note, tag),
            !has_note(old(self)@.notes, note) ==> result == Err::<(), StoreError>(
                StoreError::NotFound,
            ) && final(self)@ == old(self)@,
    {
        let result = self.notes.remove_tag_from_note(note, tag);
        proof {
            let before = old(self)@;
            let after = self@;
            assert forall|i: int| 0 <= i < after.notes.len() implies after.notes[i].id
                == before.notes[i].id by {}
            assert forall|i: int, k: int|
                0 <= i < after.notes.len() && 0 <= k < after.notes[i].tags.len() implies has_tag(
                after.tags,
                #[trigger] after.notes[i].tags[k],
            ) by {
                if after.notes[i] != before.notes[i] {
                    before.notes[i].tags.lemma_filter_contains_rev(
                        other_than(tag),
                        after.notes[i].tags[k],
                    );
                }
                let wanted = after.notes[i].tags[k];
                assert(before.notes[i].tags.contains(wanted));
                let at = choose|at: int|
                    0 <= at < before.notes[i].tags.len() && before.notes[i].tags[at] == wanted;
                assert(has_tag(before.tags, before.notes[i].tags[at]));
            }
        }
        result
    }

    /// Sets `keywords` as the text to search for.
    pub fn set_search_keywords(&mut self, keywords: String)
        requires
            old(self).wf(),
        ensures
            final(self).wf(),
            final(self)@ == old(self)@.with_search_keywords(keywords@),
    {
        self.search_keywords = keywords;
    }

    /// Selects `selector`. Fails, and changes nothing, if `selector` is a
    /// tag that does not exist.
    pub fn set_selected_tag(&mut self, selector: TagSelector) -> (result: Result<(), StoreError>)
        requires
            old(self).wf(),
        ensures
            final(self).wf(),
            selection_exists(old(self)@.tags, selector) ==> result == Ok::<(), StoreError>(())
                && final(self)@ == old(self)@.with_selected_tag(selector),
            !selection_exists(old(self)@.tags, selector) ==> result == Err::<(), StoreError>(
                StoreError::NotFound,
            ) && final(self)@ == old(self)@,
    {
        let known = match selector {
            TagSelector::Tag(id) => self.tags.contains(id),
            _ => true,
        };
        if known {
            self.selected_tag = selector;
            Ok(())
        } else {
            Err(StoreError::NotFound)
        }
    }

    /// The text that is searched for.
    pub fn search_keywords(&self) -> (keywords: &String)
        ensures
            keywords@ == self@.search_keywords,
    {
        &self.search_keywords
    }

    /// The tag, or pseudo-tag, that is selected.
    pub fn selected_tag(&self) -> (selector: TagSelector)
        ensures
            selector == self@.selected_tag,
    {
        self.selected_tag
    }

    /// A copy of the tag `id`, if there is one.
    pub fn find_tag(&self, id: Id) -> (found: Option<Tag>)
        ensures
            match found {
                Some(tag) => tag@.id == id && self@.tags.contains(tag@),
                None => !has_tag(self@.tags, id),
            },
    {
        self.tags.find_tag(id)
    }

    /// A copy of the note `id`, if there is one.
    pub fn find_note(&self, id: Id) -> (found: Option<Note>)
        ensures
            match found {
                Some(note) => note@.id == id && self@.notes.contains(note@),
                None => !has_note(self@.notes, id),
            },
    {
        self.notes.find_note(id)
    }

    /// The list of tags as it is shown: the pseudo-tags "All" and
    /// "Untagged", then the tags in the order of their creation.
    pub fn list_tags(&self) -> (entries: Vec<TagEntry>)
        ensures
            entry_views(entries@) == tag_listing(self@.tags),
    {
        self.tags.list_tags()
    }

    /// Copies of all notes, in the order of their creation.
    pub fn list_notes(&self) -> (notes: Vec<Note>)
        requires
            self.wf(),
        ensures
            note_views(notes@) == self@.notes,
            in_time_order(note_views(notes@)),
    {
        self.notes.list_notes()
    }

    /// Copies of the notes that are shown: those that the selected tag
    /// selects and that answer the search, in the order of their creation.
    pub fn visible_notes(&self) -> (notes: Vec<Note>)
        ensures
            note_views(notes@) == self@.visible_notes(),
            is_subsequence(note_views(notes@), self@.notes),
    {
        proof {
            lemma_visible_is_subsequence(
                self@.notes,
                self@.selected_tag,
                self@.search_keywords,
            );
        }
        visible_notes(self.notes.as_vec(), self.selected_tag, self.search_keywords.as_str())
    }
}

/// Every note of `with_note_added(notes, note)` is `note` or a note of
/// `notes`.
proof fn lemma_added_note_is_new_or_old(notes: Seq<NoteView>, note: NoteView)
    ensures
        forall|j: int|
            0 <= j < with_note_added(notes, note).len() ==> {
                let n = #[trigger] with_note_added(notes, note)[j];
                n == note || notes.contains(n)
            },
{
    let early = notes.filter(created_by(note.created_dt));
    let late = notes.filter(created_after(note.created_dt));
    assert forall|j: int| 0 <= j < with_note_added(notes, note).len() implies {
        let n = #[trigger] with_note_added(notes, note)[j];
        n == note || notes.contains(n)
    } by {
        let n = with_note_added(notes, note)[j];
        if j < early.len() {
            assert(early.contains(early[j]));
            notes.lemma_filter_contains_rev(created_by(note.created_dt), n);
        } else if j > early.len() {
            assert(late.contains(late[j - early.len() - 1]));
            notes.lemma_filter_contains_rev(created_after(note.created_dt), n);
        }
    }
}

/// A state stays well-formed when its notes are replaced by well-formed
/// notes that all were among its notes.
proof fn lemma_notes_from_old_keep_wf(s: StateView, notes: Seq<NoteView>)
    requires
        s.wf(),
        notes_wf(notes),
        forall|j: int| 0 <= j < notes.len() ==> s.notes.contains(#[trigger] notes[j]),
    ensures
        (StateView { notes, ..s }).wf(),
{
    let after = StateView { notes, ..s };
    assert forall|j: int| 0 <= j < notes.len() implies s.issued.contains(
        (#[trigger] notes[j]).id.value,
    ) && (forall|i: int| 0 <= i < s.tags.len() ==> (#[trigger] s.tags[i]).id != notes[j].id)
        && (forall|k: int|
        0 <= k < notes[j].tags.len() ==> has_tag(s.tags, #[trigger] notes[j].tags[k])) by {
        assert(s.notes.contains(notes[j]));
        let from = choose|from: int| 0 <= from < s.notes.len() && s.notes[from] == notes[j];
        assert(s.notes[from].id == notes[j].id);
        assert forall|k: int| 0 <= k < notes[j].tags.len() implies has_tag(
            s.tags,
            #[trigger] notes[j].tags[k],
        ) by {
            assert(has_tag(s.tags, s.notes[from].tags[k]));
        }
    }
}

/// The value of the identifier that a command created a note or a tag
/// with, if it created one.
pub open spec fn value_of(created: Option<Id>) -> Option<u128> {
    match created {
        Some(id) => Some(id.value),
        None => None,
    }
}

/// `states` and `created` describe a run of commands: `states[i]` is the
/// state before command `i`, `states[i + 1]` the state after it, and
/// `created[i]` the identifier of the note or tag that the command created,
/// if it created one. A command that creates hands out its identifier; any
/// other leaves the record of issued identifiers as it was.
pub open spec fn is_history(states: Seq<StateView>, created: Seq<Option<Id>>) -> bool {
    &&& states.len() == created.len() + 1
    &&& forall|i: int|
        0 <= i < created.len() ==> hands_out(
            states[i].issued,
            states[i + 1].issued,
            value_of(#[trigger] created[i]),
        )
}

/// In a run of commands, however long and whatever else it does, no two
/// notes or tags are created with the same identifier.
pub proof fn lemma_created_ids_differ(states: Seq<StateView>, created: Seq<Option<Id>>)
    requires
        is_history(states, created),
    ensures
        forall|i: int, j: int|
            0 <= i < j < created.len() && (#[trigger] created[i]) is Some && (
            #[trigger] created[j]) is Some ==> created[i] != created[j],
{
    let records = states.map_values(|s: StateView| s.issued);
    let handed = created.map_values(|c: Option<Id>| value_of(c));
    assert(is_run(records, handed)) by {
        assert forall|i: int| 0 <= i < handed.len() implies hands_out(
            records[i],
            records[i + 1],
            #[trigger] handed[i],
        ) by {
            assert(hands_out(states[i].issued, states[i + 1].issued, value_of(created[i])));
        }
    }
    lemma_handed_out_values_differ(records, handed);
    assert forall|i: int, j: int|
        0 <= i < j < created.len() && (#[trigger] created[i]) is Some && (
        #[trigger] created[j]) is Some implies created[i] != created[j] by {
        assert(handed[i] is Some && handed[j] is Some);
    }
}

/// Whatever is selected and searched for, the notes shown are a subsequence
/// of the notes of the state: they stand in the order of the notes.
pub proof fn lemma_shown_notes_keep_their_order(s: StateView)
    ensures
        is_subsequence(s.visible_notes(), s.notes),
{
    lemma_visible_is_subsequence(s.notes, s.selected_tag, s.search_keywords);
}

/// While "Untagged" is selected, a note of the state is among the notes
/// shown if and only if it has no tags and answers the search; with nothing
/// searched for, if and only if it has no tags.
pub proof fn lemma_untagged_shows_the_untagged(s: StateView, i: int)
    requires
        s.selected_tag == TagSelector::Untagged,
        0 <= i < s.notes.len(),
    ensures
        s.visible_notes().contains(s.notes[i]) <==> s.notes[i].tags.len() == 0 && keyword_matches(
            s.search_keywords,
            s.notes[i].content,
        ),
        s.search_keywords.len() == 0 ==> (s.visible_notes().contains(s.notes[i])
            <==> s.notes[i].tags.len() == 0),
{
    lemma_visible_holds_what_is_shown(s.notes, s.selected_tag, s.search_keywords, i);
}

/// Taking a tag off a note twice in a row leaves the state as taking it
/// off once does.
pub proof fn lemma_removing_twice_is_removing_once(s: StateView, note: Id, tag: Id)
    ensures
        s.with_tag_removed(note, tag).with_tag_removed(note, tag) == s.with_tag_removed(note, tag),
{
    lemma_tag_removed_twice(s.notes, note, tag);
}

/// After the tag `id` was deleted, no note has it.
pub proof fn lemma_deleted_tag_is_on_no_note(s: StateView, id: Id)
    requires
        s.wf(),
    ensures
        has_tag(s.tags, id) ==> forall|i: int|
            0 <= i < s.with_tag_deleted(id).notes.len() ==> !(#[trigger] s.with_tag_deleted(
                id,
            ).notes[i]).tags.contains(id),
        !has_tag(s.tags, id) ==> forall|i: int|
            0 <= i < s.notes.len() ==> !(#[trigger] s.notes[i]).tags.contains(id),
{
    if has_tag(s.tags, id) {
        assert forall|i: int| 0 <= i < s.with_tag_deleted(id).notes.len() implies !(
        #[trigger] s.with_tag_deleted(id).notes[i]).tags.contains(id) by {
            let left = s.notes[i].tags.filter(other_than(id));
            if left.contains(id) {
                let k = choose|k: int| 0 <= k < left.len() && left[k] == id;
                s.notes[i].tags.lemma_filter_pred(other_than(id), k);
            }
        }
    } else {
        assert forall|i: int| 0 <= i < s.notes.len() implies !(#[trigger] s.notes[i]).tags.contains(
            id,
        ) by {
            if s.notes[i].tags.contains(id) {
                let k = choose|k: int| 0 <= k < s.notes[i].tags.len() && s.notes[i].tags[k] == id;
                assert(has_tag(s.tags, s.notes[i].tags[k]));
            }
        }
    }
}

/// A well-formed state is well-formed after a tag was deleted, provided
/// that its tags and notes are.
proof fn lemma_delete_tag_keeps_wf(s: StateView, id: Id)
    requires
        s.wf(),
        tag_ids_distinct(s.with_tag_deleted(id).tags),
        notes_wf(s.with_tag_deleted(id).notes),
    ensures
        s.with_tag_deleted(id).wf(),
{
    let after = s.with_tag_deleted(id);
    let keep = not_the_tag(id);
    assert forall|i: int| 0 <= i < after.tags.len() implies s.tags.contains(
        #[trigger] after.tags[i],
    ) && after.tags[i].id != id by {
        assert(after.tags.contains(after.tags[i]));
        s.tags.lemma_filter_contains_rev(keep, after.tags[i]);
        s.tags.lemma_filter_pred(keep, i);
    }
    assert forall|i: int| 0 <= i < after.tags.len() implies s.issued.contains(
        (#[trigger] after.tags[i]).id.value,
    ) && (forall|j: int| 0 <= j < after.notes.len() ==> after.tags[i].id != (
    #[trigger] after.notes[j]).id) by {
        assert(s.tags.contains(after.tags[i]));
        let from = choose|from: int| 0 <= from < s.tags.len() && s.tags[from] == after.tags[i];
        assert(s.tags[from].id == after.tags[i].id);
        assert forall|j: int| 0 <= j < after.notes.len() implies after.tags[i].id != (
        #[trigger] after.notes[j]).id by {
            assert(s.tags[from].id != s.notes[j].id);
        }
    }
    assert forall|wanted: Id| wanted != id && has_tag(s.tags, wanted) implies has_tag(
        after.tags,
        wanted,
    ) by {
        let at = choose|at: int| 0 <= at < s.tags.len() && s.tags[at].id == wanted;
        s.tags.lemma_filter_contains(keep, at);
        let to = choose|to: int| 0 <= to < after.tags.len() && after.tags[to] == s.tags[at];
        assert(after.tags[to].id == wanted);
    }
    assert forall|i: int, k: int|
        0 <= i < after.notes.len() && 0 <= k < after.notes[i].tags.len() implies has_tag(
        after.tags,
        #[trigger] after.notes[i].tags[k],
    ) by {
        let wanted = after.notes[i].tags[k];
        s.notes[i].tags.lemma_filter_pred(other_than(id), k);
        assert(after.notes[i].tags.contains(wanted));
        s.notes[i].tags.lemma_filter_contains_rev(other_than(id), wanted);
        let at = choose|at: int| 0 <= at < s.notes[i].tags.len() && s.notes[i].tags[at] == wanted;
        assert(has_tag(s.tags, s.notes[i].tags[at]));
    }
    assert forall|j: int| 0 <= j < after.notes.len() implies s.issued.contains(
        (#[trigger] after.notes[j]).id.value,
    ) by {
        assert(after.notes[j].id == s.notes[j].id);
    }
}

} // verus!

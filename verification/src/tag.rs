//! Tags, the two pseudo-tags, and the store that owns the tags.

use crate::error::StoreError;
use crate::ident::Id;
use crate::note::{with_tag_stripped, NoteStore, NoteView};
use crate::sequences::lemma_filter_drops_one;
use vstd::prelude::*;

verus! {

/// A named label for notes.
#[derive(Clone, Debug, PartialEq, Eq)]
pub struct Tag {
    pub id: Id,
    pub name: String,
}

/// What a [`Tag`] stands for in contracts.
pub struct TagView {
    pub id: Id,
    pub name: Seq<char>,
}

impl View for Tag {
    type V = TagView;

    open spec fn view(&self) -> TagView {
        TagView { id: self.id, name: self.name@ }
    }
}

impl Tag {
    /// A copy of the tag.
    pub fn duplicate(&self) -> (copy: Tag)
        ensures
            copy@ == self@,
    {
        Tag { id: self.id, name: self.name.clone() }
    }
}

/// What the list of tags is filtered by: one of the two pseudo-tags, which
/// no store holds, or a tag of the store.
#[derive(Clone, Copy, Debug, PartialEq, Eq, Structural)]
pub enum TagSelector {
    /// Every note.
    All,
    /// The notes without tags.
    Untagged,
    /// The notes that have the tag with this identifier.
    Tag(Id),
}

/// A line of the list of tags: what it selects, and the name it shows.
#[derive(Clone, Debug, PartialEq, Eq)]
pub struct TagEntry {
    pub selector: TagSelector,
    pub name: String,
}

/// What a [`TagEntry`] stands for in contracts.
pub struct TagEntryView {
    pub selector: TagSelector,
    pub name: Seq<char>,
}

impl View for TagEntry {
    type V = TagEntryView;

    open spec fn view(&self) -> TagEntryView {
        TagEntryView { selector: self.selector, name: self.name@ }
    }
}

/// What each line of `entries` stands for, in the same order.
pub open spec fn entry_views(entries: Seq<TagEntry>) -> Seq<TagEntryView> {
    entries.map_values(|e: TagEntry| e@)
}

/// The line of the pseudo-tag that selects every note.
pub open spec fn all_entry() -> TagEntryView {
    TagEntryView { selector: TagSelector::All, name: "All"@ }
}

/// The line of the pseudo-tag that selects the notes without tags.
pub open spec fn untagged_entry() -> TagEntryView {
    TagEntryView { selector: TagSelector::Untagged, name: "Untagged"@ }
}

/// The line of the tag `tag`.
pub open spec fn entry_of(tag: TagView) -> TagEntryView {
    TagEntryView { selector: TagSelector::Tag(tag.id), name: tag.name }
}

/// The list of tags as it is shown: the two pseudo-tags, then `tags` in
/// their order.
pub open spec fn tag_listing(tags: Seq<TagView>) -> Seq<TagEntryView> {
    seq![all_entry(), untagged_entry()] + tags.map_values(|t: TagView| entry_of(t))
}

/// No two tags of `tags` have the same identifier.
pub open spec fn tag_ids_distinct(tags: Seq<TagView>) -> bool {
    forall|i: int, j: int| 0 <= i < j < tags.len() ==> tags[i].id != tags[j].id
}

/// Some tag of `tags` has the identifier `id`.
pub open spec fn has_tag(tags: Seq<TagView>, id: Id) -> bool {
    exists|i: int| 0 <= i < tags.len() && #[trigger] tags[i].id == id
}

/// `tags`, with the name of the tag `id` replaced by `name`.
pub open spec fn with_tag_renamed(tags: Seq<TagView>, id: Id, name: Seq<char>) -> Seq<TagView> {
    tags.map_values(
        |t: TagView|
            if t.id == id {
                TagView { id: t.id, name }
            } else {
                t
            },
    )
}

/// Holds of every tag but the tag `id`.
pub open spec fn not_the_tag(id: Id) -> spec_fn(TagView) -> bool {
    |t: TagView| t.id != id
}

/// `tags` without the tag `id`, the others in their order.
pub open spec fn with_tag_deleted(tags: Seq<TagView>, id: Id) -> Seq<TagView> {
    tags.filter(not_the_tag(id))
}

/// The tags of the application, in the order of their creation.
pub struct TagStore {
    tags: Vec<Tag>,
}

impl View for TagStore {
    type V = Seq<TagView>;

    closed spec fn view(&self) -> Seq<TagView> {
        self.tags@.map_values(|t: Tag| t@)
    }
}

impl TagStore {
    /// No two tags of the store have the same identifier.
    pub open spec fn wf(&self) -> bool {
        tag_ids_distinct(self@)
    }

    /// A store without tags.
    pub fn new() -> (store: TagStore)
        ensures
            store.wf(),
            store@ == Seq::<TagView>::empty(),
    {
        TagStore { tags: Vec::new() }
    }

    /// The number of tags.
    pub fn len(&self) -> (n: usize)
        ensures
            n == self@.len(),
    {
        self.tags.len()
    }

    /// The place of the tag `id` in the store, if it is there.
    pub fn position(&self, id: Id) -> (place: Option<usize>)
        ensures
            match place {
                Some(i) => i < self@.len() && self@[i as int].id == id,
                None => !has_tag(self@, id),
            },
    {
        let mut i: usize = 0;
        while i < self.tags.len()
            invariant
                i <= self.tags.len(),
                forall|j: int| 0 <= j < i ==> self@[j].id != id,
            decreases self.tags.len() - i,
        {
            if self.tags[i].id == id {
                return Some(i);
            }
            i += 1;
        }
        None
    }

    /// Whether the store holds a tag `id`.
    pub fn contains(&self, id: Id) -> (b: bool)
        ensures
            b == has_tag(self@, id),
    {
        self.position(id).is_some()
    }

    /// Puts a new tag with the identifier `id` and the name `name` behind
    /// the tags of the store, and returns a copy of it.
    pub fn create_tag(&mut self, id: Id, name: String) -> (tag: Tag)
        requires
            old(self).wf(),
            !has_tag(old(self)@, id),
        ensures
            final(self).wf(),
            tag@ == (TagView { id, name: name@ }),
            final(self)@ == old(self)@.push(tag@),
    {
        let tag = Tag { id, name };
        let copy = tag.duplicate();
        self.tags.push(tag);
        assert(self@ =~= old(self)@.push(copy@));
        copy
    }

    /// Gives the tag `id` the name `new_name`. Fails, and changes nothing,
    /// if the store holds no tag `id`.
    pub fn rename_tag(&mut self, id: Id, new_name: String) -> (result: Result<(), StoreError>)
        requires
            old(self).wf(),
        ensures
            final(self).wf(),
            has_tag(old(self)@, id) ==> result == Ok::<(), StoreError>(()) && final(self)@
                == with_tag_renamed(old(self)@, id, new_name@),
            !has_tag(old(self)@, id) ==> result == Err::<(), StoreError>(StoreError::NotFound)
                && final(self)@ == old(self)@,
    {
        match self.position(id) {
            Some(i) => {
                self.tags[i].name = new_name;
                assert(self@ =~= with_tag_renamed(old(self)@, id, new_name@));
                Ok(())
            },
            None => Err(StoreError::NotFound),
        }
    }

    /// A copy of the tag `id`, if the store holds it.
    pub fn find_tag(&self, id: Id) -> (found: Option<Tag>)
        ensures
            match found {
                Some(tag) => tag@.id == id && self@.contains(tag@),
                None => !has_tag(self@, id),
            },
    {
        match self.position(id) {
            Some(i) => Some(self.tags[i].duplicate()),
            None => None,
        }
    }

    /// Removes the tag `id` from the store and takes it off every note of
    /// `notes`. Fails, and changes nothing, if the store holds no tag `id`.
    pub fn delete_tag(&mut self, notes: &mut NoteStore, id: Id) -> (result: Result<
        (),
        StoreError,
    >)
        requires
            old(self).wf(),
            old(notes).wf(),
        ensures
            final(self).wf(),
            final(notes).wf(),
            has_tag(old(self)@, id) ==> result == Ok::<(), StoreError>(()) && final(self)@
                == with_tag_deleted(old(self)@, id) && final(notes)@ == with_tag_stripped(
                old(notes)@,
                id,
            ),
            !has_tag(old(self)@, id) ==> result == Err::<(), StoreError>(StoreError::NotFound)
                && final(self)@ == old(self)@ && final(notes)@ == old(notes)@,
    {
        match self.position(id) {
            Some(i) => {
                proof {
                    lemma_filter_drops_one(self@, i as int, not_the_tag(id));
                }
                self.tags.remove(i);
                assert(self@ =~= old(self)@.remove(i as int));
                notes.strip_tag_everywhere(id);
                Ok(())
            },
            None => Err(StoreError::NotFound),
        }
    }

    /// The list of tags as it is shown: the pseudo-tags "All" and
    /// "Untagged", then the tags of the store in the order of their
    /// creation.
    pub fn list_tags(&self) -> (entries: Vec<TagEntry>)
        ensures
            entry_views(entries@) == tag_listing(self@),
    {
        let mut entries: Vec<TagEntry> = Vec::new();
        entries.push(TagEntry { selector: TagSelector::All, name: "All".to_owned() });
        entries.push(TagEntry { selector: TagSelector::Untagged, name: "Untagged".to_owned() });
        let mut i: usize = 0;
        while i < self.tags.len()
            invariant
                i <= self.tags.len(),
                entries@.len() == i + 2,
                entries@[0]@ == all_entry(),
                entries@[1]@ == untagged_entry(),
                forall|j: int| 0 <= j < i ==> (#[trigger] entries@[j + 2])@ == entry_of(self@[j]),
            decreases self.tags.len() - i,
        {
            let name = self.tags[i].name.clone();
            entries.push(TagEntry { selector: TagSelector::Tag(self.tags[i].id), name });
            i += 1;
        }
        assert forall|j: int| 0 <= j < entries@.len() implies entry_views(entries@)[j]
            == tag_listing(self@)[j] by {
            if j >= 2 {
                assert(entries@[(j - 2) + 2]@ == entry_of(self@[j - 2]));
            }
        }
        entries
    }
}

} // verus!

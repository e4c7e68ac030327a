//! The filter that decides which notes are shown.

use crate::note::{note_views, Note, NoteView};
use crate::sequences::{is_subsequence, lemma_filter_is_subsequence};
use crate::tag::TagSelector;
use vstd::prelude::*;

verus! {

/// The lower-case form of `text`, as `str::to_lowercase` of the standard
/// library gives it.
pub uninterp spec fn lowercase_of(text: Seq<char>) -> Seq<char>;

/// Calls `str::to_lowercase`, which returns the lower-case equivalent of
/// the text as a new `String`; the result is a function of the text alone.
#[verifier::external_body]
fn lowercase(text: &str) -> (lower: String)
    ensures
        lower@ == lowercase_of(text@),
{
    text.to_lowercase()
}

/// `needle` stands in `haystack` at `at`, character for character.
pub open spec fn occurs_at(needle: Seq<char>, haystack: Seq<char>, at: int) -> bool {
    &&& 0 <= at
    &&& at + needle.len() <= haystack.len()
    &&& haystack.subrange(at, at + needle.len()) == needle
}

/// `needle` stands somewhere in `haystack` as an unbroken run.
pub open spec fn occurs_in(needle: Seq<char>, haystack: Seq<char>) -> bool {
    exists|at: int| occurs_at(needle, haystack, at)
}

/// The text `content` answers the search for `keywords`: the search is
/// empty, or the lower-case form of `keywords` stands somewhere in the
/// lower-case form of `content`.
pub open spec fn keyword_matches(keywords: Seq<char>, content: Seq<char>) -> bool {
    keywords.len() == 0 || occurs_in(lowercase_of(keywords), lowercase_of(content))
}

/// The note `note` is among those that `selector` selects.
pub open spec fn selects(selector: TagSelector, note: NoteView) -> bool {
    match selector {
        TagSelector::All => true,
        TagSelector::Untagged => note.tags.len() == 0,
        TagSelector::Tag(id) => note.tags.contains(id),
    }
}

/// Holds of the notes that are shown when `selector` is selected and
/// `keywords` is searched for.
pub open spec fn shown(selector: TagSelector, keywords: Seq<char>) -> spec_fn(NoteView) -> bool {
    |n: NoteView| selects(selector, n) && keyword_matches(keywords, n.content)
}

/// The notes of `notes` that are shown when `selector` is selected and
/// `keywords` is searched for, in the order in which they stand in `notes`.
pub open spec fn visible(notes: Seq<NoteView>, selector: TagSelector, keywords: Seq<char>) -> Seq<
    NoteView,
> {
    notes.filter(shown(selector, keywords))
}

/// Whatever is selected and searched for, the notes shown are a subsequence
/// of the notes: filtering leaves notes out and moves none.
pub proof fn lemma_visible_is_subsequence(
    notes: Seq<NoteView>,
    selector: TagSelector,
    keywords: Seq<char>,
)
    ensures
        is_subsequence(visible(notes, selector, keywords), notes),
{
    lemma_filter_is_subsequence(notes, shown(selector, keywords));
}

/// A note of `notes` is among the notes shown if and only if the selected
/// tag selects it and it answers the search.
pub proof fn lemma_visible_holds_what_is_shown(
    notes: Seq<NoteView>,
    selector: TagSelector,
    keywords: Seq<char>,
    i: int,
)
    requires
        0 <= i < notes.len(),
    ensures
        visible(notes, selector, keywords).contains(notes[i]) <==> selects(selector, notes[i])
            && keyword_matches(keywords, notes[i].content),
{
    let keep = shown(selector, keywords);
    let kept = notes.filter(keep);
    if keep(notes[i]) {
        notes.lemma_filter_contains(keep, i);
    }
    if kept.contains(notes[i]) {
        let k = choose|k: int| 0 <= k < kept.len() && kept[k] == notes[i];
        notes.lemma_filter_pred(keep, k);
    }
}

/// With "Untagged" selected and nothing searched for, a note of `notes` is
/// among the notes shown if and only if it has no tags.
pub proof fn lemma_untagged_shows_notes_without_tags(notes: Seq<NoteView>, i: int)
    requires
        0 <= i < notes.len(),
    ensures
        visible(notes, TagSelector::Untagged, Seq::<char>::empty()).contains(notes[i])
            <==> notes[i].tags.len() == 0,
{
    lemma_visible_holds_what_is_shown(notes, TagSelector::Untagged, Seq::<char>::empty(), i);
}

/// The search looks at lower-case forms only: searches and texts that have
/// the same lower-case forms give the same answer.
pub proof fn lemma_search_ignores_case(
    keywords: Seq<char>,
    other_keywords: Seq<char>,
    content: Seq<char>,
    other_content: Seq<char>,
)
    requires
        keywords.len() > 0,
        other_keywords.len() > 0,
        lowercase_of(keywords) == lowercase_of(other_keywords),
        lowercase_of(content) == lowercase_of(other_content),
    ensures
        keyword_matches(keywords, content) == keyword_matches(other_keywords, other_content),
{
}

/// The characters of `text`, one by one.
pub fn chars_of(text: &str) -> (chars: Vec<char>)
    ensures
        chars@ == text@,
{
    let mut chars: Vec<char> = Vec::new();
    let all = text.chars();
    for c in it: all
        invariant
            it.seq() == text@,
            chars@ == it.seq().take(it.index()),
    {
        chars.push(c);
    }
    chars
}

/// Whether `needle` stands in `haystack` at `at`.
pub fn stands_at(needle: &Vec<char>, haystack: &Vec<char>, at: usize) -> (b: bool)
    ensures
        b == occurs_at(needle@, haystack@, at as int),
{
    let size: usize = haystack.len();
    if at > size || needle.len() > size - at {
        return false;
    }
    let mut i: usize = 0;
    while i < needle.len()
        invariant
            i <= needle.len(),
            size == haystack@.len(),
            at + needle@.len() <= haystack@.len(),
            forall|j: int| 0 <= j < i ==> haystack@[at + j] == needle@[j],
        decreases needle.len() - i,
    {
        if haystack[at + i] != needle[i] {
            return false;
        }
        i += 1;
    }
    assert(haystack@.subrange(at as int, at + needle@.len()) =~= needle@);
    true
}

/// Whether `needle` stands somewhere in `haystack` as an unbroken run.
pub fn contains_run(needle: &Vec<char>, haystack: &Vec<char>) -> (b: bool)
    ensures
        b == occurs_in(needle@, haystack@),
{
    if needle.len() == 0 {
        assert(occurs_at(needle@, haystack@, 0)) by {
            assert(haystack@.subrange(0, 0) =~= needle@);
        }
        return true;
    }
    if needle.len() > haystack.len() {
        return false;
    }
    let last: usize = haystack.len() - needle.len();
    let mut at: usize = 0;
    while at <= last
        invariant
            at <= last + 1,
            last < usize::MAX,
            last == haystack@.len() - needle@.len(),
            forall|k: int| 0 <= k < at ==> !occurs_at(needle@, haystack@, k),
        decreases last + 1 - at,
    {
        if stands_at(needle, haystack, at) {
            return true;
        }
        at += 1;
    }
    false
}

/// Whether the text `content` answers the search for `keywords`, without
/// regard to case.
pub fn matches_keywords(keywords: &str, content: &str) -> (b: bool)
    ensures
        b == keyword_matches(keywords@, content@),
{
    if keywords.is_empty() {
        return true;
    }
    let needle = chars_of(lowercase(keywords).as_str());
    let haystack = chars_of(lowercase(content).as_str());
    contains_run(&needle, &haystack)
}

/// Whether `note` is among the notes that `selector` selects.
pub fn is_selected(selector: TagSelector, note: &Note) -> (b: bool)
    ensures
        b == selects(selector, note@),
{
    match selector {
        TagSelector::All => true,
        TagSelector::Untagged => note.tags.len() == 0,
        TagSelector::Tag(id) => {
            let mut k: usize = 0;
            while k < note.tags.len()
                invariant
                    k <= note.tags.len(),
                    selector == TagSelector::Tag(id),
                    forall|j: int| 0 <= j < k ==> note.tags@[j] != id,
                decreases note.tags.len() - k,
            {
                if note.tags[k] == id {
                    return true;
                }
                k += 1;
            }
            false
        },
    }
}

/// Copies of the notes of `notes` that are shown when `selector` is
/// selected and `keywords` is searched for, in the order in which they
/// stand in `notes`.
pub fn visible_notes(notes: &Vec<Note>, selector: TagSelector, keywords: &str) -> (shown_notes:
    Vec<Note>)
    ensures
        note_views(shown_notes@) == visible(note_views(notes@), selector, keywords@),
{
    let ghost all = note_views(notes@);
    let ghost keep = shown(selector, keywords@);
    let mut shown_notes: Vec<Note> = Vec::new();
    let mut i: usize = 0;
    assert(all.take(0).filter(keep) =~= Seq::<NoteView>::empty()) by {
        reveal(Seq::filter);
    }
    while i < notes.len()
        invariant
            i <= notes.len(),
            all == note_views(notes@),
            keep == shown(selector, keywords@),
            note_views(shown_notes@) == all.take(i as int).filter(keep),
        decreases notes.len() - i,
    {
        let note = &notes[i];
        proof {
            assert(all.take(i + 1) =~= all.take(i as int).push(note@));
            Seq::lemma_filter_push(all.take(i as int), note@, keep);
        }
        if is_selected(selector, note) && matches_keywords(keywords, note.content.as_str()) {
            shown_notes.push(note.duplicate());
        }
        i += 1;
    }
    assert(all.take(i as int) =~= all);
    shown_notes
}

} // verus!

use tagnotes::clock::Timestamp;
use tagnotes::error::StoreError;
use tagnotes::ident::Id;
use tagnotes::note::Note;
use tagnotes::state::AppState;
use tagnotes::tag::TagSelector;

fn ids(notes: &[Note]) -> Vec<Id> {
    notes.iter().map(|n| n.id).collect()
}

fn demo() -> (AppState, Id, Id, Id) {
    let mut state = AppState::new();
    let tag = state.create_tag("test_tag".to_string());
    let a = state.create_note("I am Untagged note".to_string());
    let b = state.create_note("I am #test_tag note".to_string());
    assert_eq!(state.add_tag_to_note(b.id, tag.id), Ok(()));
    (state, tag.id, a.id, b.id)
}

#[test]
fn end_to_end_all_selected_shows_both_notes_in_order() {
    let (state, _tag, a, b) = demo();
    assert_eq!(state.selected_tag(), TagSelector::All);
    assert_eq!(state.search_keywords().as_str(), "");
    assert_eq!(ids(&state.visible_notes()), vec![a, b]);
}

#[test]
fn end_to_end_untagged_shows_the_untagged_note() {
    let (mut state, _tag, a, _b) = demo();
    assert_eq!(state.set_selected_tag(TagSelector::Untagged), Ok(()));
    let shown = state.visible_notes();
    assert_eq!(ids(&shown), vec![a]);
    assert_eq!(shown[0].content, "I am Untagged note");
    assert!(shown[0].tags.is_empty());
}

#[test]
fn end_to_end_tag_shows_the_tagged_note() {
    let (mut state, tag, _a, b) = demo();
    assert_eq!(state.set_selected_tag(TagSelector::Tag(tag)), Ok(()));
    let shown = state.visible_notes();
    assert_eq!(ids(&shown), vec![b]);
    assert_eq!(shown[0].content, "I am #test_tag note");
    assert_eq!(shown[0].tags, vec![tag]);
}

#[test]
fn end_to_end_search_ignores_case() {
    let (mut state, _tag, a, _b) = demo();
    for keywords in ["untagged", "UNTAGGED", "Untagged", "uNtAgGeD"] {
        state.set_search_keywords(keywords.to_string());
        assert_eq!(state.selected_tag(), TagSelector::All);
        assert_eq!(ids(&state.visible_notes()), vec![a]);
    }
}

#[test]
fn search_for_test_finds_note_with_capital_test() {
    let mut state = AppState::new();
    let note = state.create_note("I am #Test_tag note".to_string());
    state.set_search_keywords("test".to_string());
    assert_eq!(ids(&state.visible_notes()), vec![note.id]);
}

#[test]
fn search_and_tag_filter_combine() {
    let (mut state, tag, _a, b) = demo();
    state.set_search_keywords("note".to_string());
    assert_eq!(state.set_selected_tag(TagSelector::Tag(tag)), Ok(()));
    assert_eq!(ids(&state.visible_notes()), vec![b]);
    state.set_search_keywords("untagged".to_string());
    assert!(state.visible_notes().is_empty());
}

#[test]
fn empty_result_is_an_empty_list() {
    let (mut state, _tag, _a, _b) = demo();
    state.set_search_keywords("no such text".to_string());
    assert_eq!(state.visible_notes().len(), 0);
}

#[test]
fn edit_of_unknown_note_is_not_found_and_changes_nothing() {
    let (mut state, _tag, _a, _b) = demo();
    let before = state.list_notes();
    let mut unknown = Id::from_u128(7);
    while state.find_note(unknown).is_some() {
        unknown = Id::from_u128(unknown.as_u128() + 1);
    }
    assert_eq!(state.edit_content(unknown, "x".to_string()), Err(StoreError::NotFound));
    assert_eq!(state.list_notes(), before);
}

#[test]
fn edit_replaces_the_whole_text() {
    let (mut state, _tag, a, b) = demo();
    assert_eq!(state.edit_content(a, "new text".to_string()), Ok(()));
    let notes = state.list_notes();
    assert_eq!(ids(&notes), vec![a, b]);
    assert_eq!(notes[0].content, "new text");
    assert_eq!(notes[1].content, "I am #test_tag note");
}

#[test]
fn removing_a_tag_twice_is_as_removing_it_once() {
    let (mut state, tag, _a, b) = demo();
    assert_eq!(state.remove_tag_from_note(b, tag), Ok(()));
    let once = state.list_notes();
    assert_eq!(state.remove_tag_from_note(b, tag), Ok(()));
    assert_eq!(state.list_notes(), once);
    assert!(state.find_note(b).unwrap().tags.is_empty());
}

#[test]
fn adding_a_tag_twice_adds_it_once() {
    let (mut state, tag, _a, b) = demo();
    assert_eq!(state.add_tag_to_note(b, tag), Ok(()));
    assert_eq!(state.find_note(b).unwrap().tags, vec![tag]);
}

#[test]
fn tags_keep_the_order_in_which_they_were_added() {
    let mut state = AppState::new();
    let t1 = state.create_tag("one".to_string()).id;
    let t2 = state.create_tag("two".to_string()).id;
    let t3 = state.create_tag("three".to_string()).id;
    let n = state.create_note(String::new()).id;
    assert_eq!(state.add_tag_to_note(n, t2), Ok(()));
    assert_eq!(state.add_tag_to_note(n, t3), Ok(()));
    assert_eq!(state.add_tag_to_note(n, t1), Ok(()));
    assert_eq!(state.find_note(n).unwrap().tags, vec![t2, t3, t1]);
    assert_eq!(state.remove_tag_from_note(n, t3), Ok(()));
    assert_eq!(state.find_note(n).unwrap().tags, vec![t2, t1]);
}

#[test]
fn deleting_a_tag_takes_it_off_every_note() {
    let mut state = AppState::new();
    let keep = state.create_tag("keep".to_string()).id;
    let gone = state.create_tag("gone".to_string()).id;
    let n1 = state.create_note("one".to_string()).id;
    let n2 = state.create_note("two".to_string()).id;
    let n3 = state.create_note("three".to_string()).id;
    assert_eq!(state.add_tag_to_note(n1, gone), Ok(()));
    assert_eq!(state.add_tag_to_note(n1, keep), Ok(()));
    assert_eq!(state.add_tag_to_note(n2, keep), Ok(()));
    assert_eq!(state.add_tag_to_note(n2, gone), Ok(()));
    assert_eq!(state.delete_tag(gone), Ok(()));
    let notes = state.list_notes();
    assert_eq!(ids(&notes), vec![n1, n2, n3]);
    for note in &notes {
        assert!(!note.tags.contains(&gone));
    }
    assert_eq!(notes[0].tags, vec![keep]);
    assert_eq!(notes[1].tags, vec![keep]);
    assert!(notes[2].tags.is_empty());
    assert!(state.find_tag(gone).is_none());
    assert_eq!(state.find_tag(keep).unwrap().name, "keep");
}

#[test]
fn deleting_the_selected_tag_selects_all() {
    let (mut state, tag, a, b) = demo();
    assert_eq!(state.set_selected_tag(TagSelector::Tag(tag)), Ok(()));
    assert_eq!(state.delete_tag(tag), Ok(()));
    assert_eq!(state.selected_tag(), TagSelector::All);
    assert_eq!(ids(&state.visible_notes()), vec![a, b]);
}

#[test]
fn deleting_another_tag_keeps_the_selection() {
    let (mut state, tag, _a, _b) = demo();
    let other = state.create_tag("other".to_string()).id;
    assert_eq!(state.set_selected_tag(TagSelector::Tag(tag)), Ok(()));
    assert_eq!(state.delete_tag(other), Ok(()));
    assert_eq!(state.selected_tag(), TagSelector::Tag(tag));
    assert_eq!(state.set_selected_tag(TagSelector::Untagged), Ok(()));
    assert_eq!(state.delete_tag(tag), Ok(()));
    assert_eq!(state.selected_tag(), TagSelector::Untagged);
}

#[test]
fn deleting_a_tag_twice_is_not_found() {
    let (mut state, tag, _a, _b) = demo();
    assert_eq!(state.delete_tag(tag), Ok(()));
    let tags = state.list_tags();
    let notes = state.list_notes();
    assert_eq!(state.delete_tag(tag), Err(StoreError::NotFound));
    assert_eq!(state.list_tags(), tags);
    assert_eq!(state.list_notes(), notes);
}

#[test]
fn deleting_a_note_removes_it() {
    let (mut state, _tag, a, b) = demo();
    assert_eq!(state.delete_note(a), Ok(()));
    assert_eq!(ids(&state.list_notes()), vec![b]);
    assert!(state.find_note(a).is_none());
    assert_eq!(state.delete_note(a), Err(StoreError::NotFound));
    assert_eq!(ids(&state.list_notes()), vec![b]);
}

#[test]
fn commands_on_unknown_ids_are_not_found() {
    let (mut state, tag, a, _b) = demo();
    let unknown = state.create_tag("short-lived".to_string()).id;
    assert_eq!(state.delete_tag(unknown), Ok(()));
    let tags = state.list_tags();
    let notes = state.list_notes();
    assert_eq!(state.rename_tag(unknown, "x".to_string()), Err(StoreError::NotFound));
    assert_eq!(state.delete_note(unknown), Err(StoreError::NotFound));
    assert_eq!(state.add_tag_to_note(unknown, tag), Err(StoreError::NotFound));
    assert_eq!(state.add_tag_to_note(a, unknown), Err(StoreError::NotFound));
    assert_eq!(state.add_tag_to_note(a, a), Err(StoreError::NotFound));
    assert_eq!(state.remove_tag_from_note(unknown, tag), Err(StoreError::NotFound));
    assert_eq!(state.set_selected_tag(TagSelector::Tag(unknown)), Err(StoreError::NotFound));
    assert_eq!(state.selected_tag(), TagSelector::All);
    assert_eq!(state.list_tags(), tags);
    assert_eq!(state.list_notes(), notes);
}

#[test]
fn removing_a_tag_that_the_note_lacks_is_no_error() {
    let (mut state, tag, a, _b) = demo();
    let before = state.list_notes();
    assert_eq!(state.remove_tag_from_note(a, tag), Ok(()));
    assert_eq!(state.list_notes(), before);
}

#[test]
fn list_of_tags_starts_with_the_pseudo_tags() {
    let mut state = AppState::new();
    let first = state.list_tags();
    assert_eq!(first.len(), 2);
    assert_eq!(first[0].selector, TagSelector::All);
    assert_eq!(first[0].name, "All");
    assert_eq!(first[1].selector, TagSelector::Untagged);
    assert_eq!(first[1].name, "Untagged");
    let t1 = state.create_tag("b".to_string()).id;
    let t2 = state.create_tag("a".to_string()).id;
    let t3 = state.create_tag("b".to_string()).id;
    let tags = state.list_tags();
    assert_eq!(tags.len(), 5);
    assert_eq!(tags[0].name, "All");
    assert_eq!(tags[1].name, "Untagged");
    assert_eq!(tags[2].selector, TagSelector::Tag(t1));
    assert_eq!(tags[2].name, "b");
    assert_eq!(tags[3].selector, TagSelector::Tag(t2));
    assert_eq!(tags[3].name, "a");
    assert_eq!(tags[4].selector, TagSelector::Tag(t3));
    assert_eq!(tags[4].name, "b");
}

#[test]
fn renaming_a_tag_changes_only_its_name() {
    let (mut state, tag, _a, b) = demo();
    let other = state.create_tag("other".to_string()).id;
    assert_eq!(state.rename_tag(tag, "renamed".to_string()), Ok(()));
    let found = state.find_tag(tag).unwrap();
    assert_eq!(found.id, tag);
    assert_eq!(found.name, "renamed");
    assert_eq!(state.find_tag(other).unwrap().name, "other");
    assert_eq!(state.find_note(b).unwrap().tags, vec![tag]);
    let tags = state.list_tags();
    assert_eq!(tags[2].name, "renamed");
    assert_eq!(tags[3].name, "other");
}

#[test]
fn a_tag_named_like_a_pseudo_tag_is_an_ordinary_tag() {
    let mut state = AppState::new();
    let tag = state.create_tag("All".to_string()).id;
    let n1 = state.create_note("one".to_string()).id;
    let n2 = state.create_note("two".to_string()).id;
    assert_eq!(state.add_tag_to_note(n2, tag), Ok(()));
    assert_eq!(state.set_selected_tag(TagSelector::Tag(tag)), Ok(()));
    assert_eq!(ids(&state.visible_notes()), vec![n2]);
    assert_eq!(state.set_selected_tag(TagSelector::All), Ok(()));
    assert_eq!(ids(&state.visible_notes()), vec![n1, n2]);
    assert_eq!(state.delete_tag(tag), Ok(()));
    assert_eq!(state.list_tags().len(), 2);
}

#[test]
fn created_ids_are_pairwise_distinct() {
    let mut state = AppState::new();
    let mut seen: Vec<Id> = Vec::new();
    for i in 0..40 {
        let id = if i % 2 == 0 {
            state.create_note(format!("note {}", i)).id
        } else {
            state.create_tag(format!("tag {}", i)).id
        };
        assert!(!seen.contains(&id));
        seen.push(id);
        if i % 5 == 0 {
            let _ = state.delete_note(id);
        }
    }
    assert_eq!(seen.len(), 40);
}

#[test]
fn a_candidate_that_was_handed_out_is_not_handed_out_again() {
    let mut state = AppState::new();
    let at = Timestamp::new(10, 0);
    let n1 = state.create_note_with(5, at, "a".to_string());
    let t1 = state.create_tag_with(5, "b".to_string());
    let n2 = state.create_note_with(5, at, "c".to_string());
    let n3 = state.create_note_with(6, at, "d".to_string());
    assert_eq!(n1.id, Id::from_u128(5));
    assert_eq!(t1.id, Id::from_u128(6));
    assert_eq!(n2.id, Id::from_u128(7));
    assert_eq!(n3.id, Id::from_u128(8));
    assert_eq!(state.delete_note(n1.id), Ok(()));
    let n4 = state.create_note_with(5, at, "e".to_string());
    assert_eq!(n4.id, Id::from_u128(9));
    let last = state.create_tag_with(u128::MAX, "f".to_string());
    assert_eq!(last.id.as_u128(), u128::MAX);
    let wrapped = state.create_tag_with(u128::MAX, "g".to_string());
    assert_eq!(wrapped.id.as_u128(), 0);
}

#[test]
fn notes_stand_in_the_order_of_their_creation_times() {
    let mut state = AppState::new();
    let c = state.create_note_with(1, Timestamp::new(30, 0), "c".to_string()).id;
    let a = state.create_note_with(2, Timestamp::new(10, 5), "a".to_string()).id;
    let b = state.create_note_with(3, Timestamp::new(20, 0), "b".to_string()).id;
    let a2 = state.create_note_with(4, Timestamp::new(10, 5), "a2".to_string()).id;
    let a0 = state.create_note_with(5, Timestamp::new(10, 4), "a0".to_string()).id;
    let before = state.create_note_with(6, Timestamp::new(-1, 999_999_999), "z".to_string()).id;
    assert_eq!(ids(&state.list_notes()), vec![before, a0, a, a2, b, c]);
    assert_eq!(ids(&state.visible_notes()), vec![before, a0, a, a2, b, c]);
    let notes = state.list_notes();
    for pair in notes.windows(2) {
        assert!(pair[0].created_dt.is_not_after(&pair[1].created_dt));
    }
}

#[test]
fn a_new_note_has_the_given_text_no_tags_and_a_time() {
    let mut state = AppState::new();
    let note = state.create_note("hello".to_string());
    assert_eq!(note.content, "hello");
    assert!(note.tags.is_empty());
    assert!(note.created_dt.secs > 1_500_000_000);
    assert!(note.created_dt.nanos < 2_000_000_000);
    assert_eq!(state.find_note(note.id), Some(note.clone()));
    let empty = state.create_note(String::new());
    assert_eq!(empty.content, "");
    assert!(note.created_dt.is_not_after(&empty.created_dt));
    assert_eq!(ids(&state.list_notes()), vec![note.id, empty.id]);
}

#[test]
fn filtering_keeps_the_order_of_the_notes() {
    let mut state = AppState::new();
    let tag = state.create_tag("t".to_string()).id;
    let mut all: Vec<Id> = Vec::new();
    for i in 0..12 {
        let text = if i % 3 == 0 { format!("Apple {}", i) } else { format!("pear {}", i) };
        let id = state.create_note_with(100 + i as u128, Timestamp::new(i, 0), text).id;
        if i % 2 == 0 {
            assert_eq!(state.add_tag_to_note(id, tag), Ok(()));
        }
        all.push(id);
    }
    for selector in [TagSelector::All, TagSelector::Untagged, TagSelector::Tag(tag)] {
        for keywords in ["", "apple", "PEAR", "1", "nothing"] {
            assert_eq!(state.set_selected_tag(selector), Ok(()));
            state.set_search_keywords(keywords.to_string());
            let shown = ids(&state.visible_notes());
            let mut from = 0;
            for id in &shown {
                let at = all[from..].iter().position(|x| x == id).unwrap();
                from += at + 1;
            }
        }
    }
    assert_eq!(state.set_selected_tag(TagSelector::Tag(tag)), Ok(()));
    state.set_search_keywords("apple".to_string());
    assert_eq!(ids(&state.visible_notes()), vec![all[0], all[6]]);
}

#[test]
fn untagged_shows_exactly_the_notes_without_tags() {
    let mut state = AppState::new();
    let t1 = state.create_tag("t1".to_string()).id;
    let t2 = state.create_tag("t2".to_string()).id;
    let n0 = state.create_note("zero".to_string()).id;
    let n1 = state.create_note("one".to_string()).id;
    let n2 = state.create_note("two".to_string()).id;
    let n3 = state.create_note("three".to_string()).id;
    assert_eq!(state.add_tag_to_note(n1, t1), Ok(()));
    assert_eq!(state.add_tag_to_note(n2, t1), Ok(()));
    assert_eq!(state.add_tag_to_note(n2, t2), Ok(()));
    assert_eq!(state.set_selected_tag(TagSelector::Untagged), Ok(()));
    assert_eq!(ids(&state.visible_notes()), vec![n0, n3]);
    assert_eq!(state.remove_tag_from_note(n1, t1), Ok(()));
    assert_eq!(ids(&state.visible_notes()), vec![n0, n1, n3]);
    assert_eq!(state.delete_tag(t1), Ok(()));
    assert_eq!(ids(&state.visible_notes()), vec![n0, n1, n3]);
    assert_eq!(state.delete_tag(t2), Ok(()));
    assert_eq!(ids(&state.visible_notes()), vec![n0, n1, n2, n3]);
    for note in state.list_notes() {
        let shown = state.visible_notes().iter().any(|n| n.id == note.id);
        assert_eq!(shown, note.tags.is_empty());
    }
}

#[test]
fn a_new_state_is_empty() {
    let state = AppState::new();
    assert!(state.list_notes().is_empty());
    assert!(state.visible_notes().is_empty());
    assert_eq!(state.list_tags().len(), 2);
    assert_eq!(state.search_keywords().as_str(), "");
    assert_eq!(state.selected_tag(), TagSelector::All);
    assert!(state.find_tag(Id::from_u128(0)).is_none());
    assert!(state.find_note(Id::from_u128(0)).is_none());
}

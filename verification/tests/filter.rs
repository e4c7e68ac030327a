use tagnotes::clock::Timestamp;
use tagnotes::filter::{
    chars_of, contains_run, is_selected, matches_keywords, stands_at, visible_notes,
};
use tagnotes::ident::Id;
use tagnotes::note::Note;
use tagnotes::tag::TagSelector;

fn chars(text: &str) -> Vec<char> {
    text.chars().collect()
}

fn note(id: u128, content: &str, tags: &[u128]) -> Note {
    Note {
        id: Id::from_u128(id),
        created_dt: Timestamp::new(id as i64, 0),
        content: content.to_string(),
        tags: tags.iter().map(|t| Id::from_u128(*t)).collect(),
    }
}

#[test]
fn chars_of_gives_each_character() {
    assert_eq!(chars_of(""), Vec::<char>::new());
    assert_eq!(chars_of("abc"), vec!['a', 'b', 'c']);
    assert_eq!(chars_of("é→z"), vec!['é', '→', 'z']);
}

#[test]
fn stands_at_compares_character_for_character() {
    let hay = chars("hello world");
    assert!(stands_at(&chars("hello"), &hay, 0));
    assert!(stands_at(&chars("world"), &hay, 6));
    assert!(!stands_at(&chars("world"), &hay, 5));
    assert!(stands_at(&chars(""), &hay, 11));
    assert!(!stands_at(&chars("World"), &hay, 6));
}

#[test]
fn contains_run_finds_unbroken_runs_only() {
    let hay = chars("i am #test_tag note");
    assert!(contains_run(&chars("test"), &hay));
    assert!(contains_run(&chars("i am"), &hay));
    assert!(contains_run(&chars("note"), &hay));
    assert!(contains_run(&chars(""), &hay));
    assert!(contains_run(&chars(""), &chars("")));
    assert!(contains_run(&hay, &hay));
    assert!(!contains_run(&chars("tset"), &hay));
    assert!(!contains_run(&chars("testtag"), &hay));
    assert!(!contains_run(&chars("notes"), &hay));
    assert!(!contains_run(&chars("Test"), &hay));
    assert!(!contains_run(&chars("a"), &chars("")));
    assert!(contains_run(&chars("aab"), &chars("aaab")));
}

#[test]
fn keywords_match_without_regard_to_case() {
    assert!(matches_keywords("test", "I am #Test_tag note"));
    assert!(matches_keywords("TEST", "I am #test_tag note"));
    assert!(matches_keywords("untagged", "I am Untagged note"));
    assert!(matches_keywords("ÉCOLE", "une école"));
    assert!(matches_keywords("", "anything"));
    assert!(matches_keywords("", ""));
    assert!(!matches_keywords("x", ""));
    assert!(!matches_keywords("tagged note", "I am Untagged  note"));
    assert!(!matches_keywords("am i", "I am"));
}

#[test]
fn selectors_select_by_tags() {
    let plain = note(1, "plain", &[]);
    let tagged = note(2, "tagged", &[7, 8]);
    assert!(is_selected(TagSelector::All, &plain));
    assert!(is_selected(TagSelector::All, &tagged));
    assert!(is_selected(TagSelector::Untagged, &plain));
    assert!(!is_selected(TagSelector::Untagged, &tagged));
    assert!(is_selected(TagSelector::Tag(Id::from_u128(8)), &tagged));
    assert!(!is_selected(TagSelector::Tag(Id::from_u128(9)), &tagged));
    assert!(!is_selected(TagSelector::Tag(Id::from_u128(8)), &plain));
}

#[test]
fn visible_notes_filters_by_tag_and_keyword_in_order() {
    let notes = vec![
        note(1, "Alpha one", &[]),
        note(2, "beta two", &[7]),
        note(3, "ALPHA three", &[7, 8]),
        note(4, "gamma", &[8]),
        note(5, "alphabet", &[]),
    ];
    let shown = |selector: TagSelector, keywords: &str| -> Vec<u128> {
        visible_notes(&notes, selector, keywords).iter().map(|n| n.id.as_u128()).collect()
    };
    let seven = TagSelector::Tag(Id::from_u128(7));
    let eight = TagSelector::Tag(Id::from_u128(8));
    assert_eq!(shown(TagSelector::All, ""), vec![1, 2, 3, 4, 5]);
    assert_eq!(shown(TagSelector::All, "alpha"), vec![1, 3, 5]);
    assert_eq!(shown(TagSelector::Untagged, ""), vec![1, 5]);
    assert_eq!(shown(TagSelector::Untagged, "ONE"), vec![1]);
    assert_eq!(shown(seven, ""), vec![2, 3]);
    assert_eq!(shown(eight, "a"), vec![3, 4]);
    assert_eq!(shown(seven, "gamma"), Vec::<u128>::new());
    assert_eq!(shown(TagSelector::Tag(Id::from_u128(9)), ""), Vec::<u128>::new());
    assert_eq!(visible_notes(&notes, TagSelector::All, ""), notes);
    assert_eq!(visible_notes(&Vec::new(), TagSelector::All, ""), Vec::<Note>::new());
}

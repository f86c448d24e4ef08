use fetch_usage::names::FetchSet;
use fetch_usage::scan::{
    classify, collect_fetches, find_fetches, DirEntry, DirListing, EntryKind, EntryOutcome,
    ScanError,
};

fn file(name: &str) -> DirEntry {
    DirEntry { name: Some(name.to_string()), kind: EntryKind::RegularFile }
}

fn other(name: &str) -> DirEntry {
    DirEntry { name: Some(name.to_string()), kind: EntryKind::Other }
}

fn listing(path: &str, entries: Vec<DirEntry>) -> DirListing {
    DirListing { path: path.to_string(), entries: Some(entries) }
}

fn unreadable(path: &str) -> DirListing {
    DirListing { path: path.to_string(), entries: None }
}

fn names_of(set: &FetchSet) -> Vec<String> {
    set.names().clone()
}

#[test]
fn directory_named_like_a_fetch_is_excluded() {
    let dirs = vec![listing(
        "/tmp/bin",
        vec![file("coolfetch"), file("neofetch"), other("dirfetch")],
    )];
    let found = find_fetches(&dirs).unwrap();
    assert_eq!(names_of(&found), vec!["coolfetch".to_string(), "neofetch".to_string()]);
    assert!(found.contains("coolfetch"));
    assert!(found.contains("neofetch"));
    assert!(!found.contains("dirfetch"));
    assert_eq!(found.len(), 2);
}

#[test]
fn scan_holds_each_name_once_across_directories() {
    let dirs = vec![
        listing("/usr/bin", vec![file("neofetch"), file("ls"), file("pfetch")]),
        listing("/usr/local/bin", vec![file("pfetch"), file("neofetch"), file("afetch")]),
        listing("/bin", vec![file("neofetch")]),
    ];
    let found = find_fetches(&dirs).unwrap();
    assert_eq!(
        names_of(&found),
        vec!["afetch".to_string(), "neofetch".to_string(), "pfetch".to_string()]
    );
}

#[test]
fn scan_hands_names_out_in_order() {
    let dirs = vec![listing(
        "/opt",
        vec![
            file("zfetch"),
            file("fetch"),
            file("Zfetch"),
            file("afetch"),
            file("abfetch"),
            file("a-fetch"),
        ],
    )];
    let found = find_fetches(&dirs).unwrap();
    let mut expected = vec![
        "zfetch".to_string(),
        "fetch".to_string(),
        "Zfetch".to_string(),
        "afetch".to_string(),
        "abfetch".to_string(),
        "a-fetch".to_string(),
    ];
    expected.sort();
    assert_eq!(names_of(&found), expected);
}

#[test]
fn scan_twice_gives_the_same_set() {
    let dirs = vec![
        listing("/a", vec![file("onefetch"), other("twofetch"), file("three")]),
        listing("/b", vec![file("fastfetch"), file("onefetch")]),
    ];
    let first = find_fetches(&dirs).unwrap();
    let second = find_fetches(&dirs).unwrap();
    assert_eq!(names_of(&first), names_of(&second));
    assert_eq!(names_of(&first), vec!["fastfetch".to_string(), "onefetch".to_string()]);
}

#[test]
fn scan_of_nothing_finds_nothing() {
    let found = find_fetches(&Vec::new()).unwrap();
    assert!(found.is_empty());
    assert_eq!(found.len(), 0);
    let found = find_fetches(&vec![listing("/empty", Vec::new())]).unwrap();
    assert!(found.is_empty());
}

#[test]
fn suffix_is_matched_letter_for_letter() {
    let dirs = vec![listing(
        "/bin",
        vec![
            file("NEOFETCH"),
            file("neoFetch"),
            file("fetchyahoo"),
            file("fetch.sh"),
            file("etch"),
            file("fetc"),
            file(""),
            file("fetch"),
            file("neofetch "),
            file("\u{444}fetch"),
        ],
    )];
    let found = find_fetches(&dirs).unwrap();
    assert_eq!(names_of(&found), vec!["fetch".to_string(), "\u{444}fetch".to_string()]);
}

#[test]
fn scan_fails_at_first_unreadable_directory() {
    let dirs = vec![
        listing("/usr/bin", vec![file("neofetch")]),
        unreadable("/gone"),
        listing("/bin", vec![file("pfetch")]),
        unreadable("/also/gone"),
    ];
    assert_eq!(
        find_fetches(&dirs),
        Err(ScanError { index: 1, path: "/gone".to_string() })
    );
    assert_eq!(
        find_fetches(&vec![unreadable("")]),
        Err(ScanError { index: 0, path: String::new() })
    );
}

#[test]
fn entry_that_cannot_be_judged_is_passed_over() {
    let unknown = DirEntry { name: Some("neofetch".to_string()), kind: EntryKind::Unknown };
    let nameless = DirEntry { name: None, kind: EntryKind::RegularFile };
    let unread = DirEntry { name: None, kind: EntryKind::Unknown };
    assert_eq!(classify(&unknown), EntryOutcome::Unclassifiable);
    assert_eq!(classify(&nameless), EntryOutcome::Unclassifiable);
    assert_eq!(classify(&unread), EntryOutcome::Unclassifiable);
    let dirs = vec![listing("/bin", vec![unknown, nameless, unread, file("hyfetch")])];
    let found = find_fetches(&dirs).unwrap();
    assert_eq!(names_of(&found), vec!["hyfetch".to_string()]);
}

#[test]
fn entry_is_excluded_or_qualifies() {
    assert_eq!(classify(&other("neofetch")), EntryOutcome::Excluded);
    assert_eq!(classify(&DirEntry { name: None, kind: EntryKind::Other }), EntryOutcome::Excluded);
    assert_eq!(classify(&file("bash")), EntryOutcome::Excluded);
    assert_eq!(classify(&file("neofetch")), EntryOutcome::Qualifies("neofetch".to_string()));
    assert_eq!(classify(&file("fetch")), EntryOutcome::Qualifies("fetch".to_string()));
}

#[test]
fn collecting_adds_to_what_was_found() {
    let mut found = FetchSet::new();
    assert!(found.insert("yfetch".to_string()));
    collect_fetches(&vec![file("neofetch"), file("yfetch"), other("xfetch")], &mut found);
    assert_eq!(names_of(&found), vec!["neofetch".to_string(), "yfetch".to_string()]);
}

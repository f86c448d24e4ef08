use fetch_usage::names::FetchSet;
use fetch_usage::text::{compare_names, Precedence};

#[test]
fn new_set_is_empty() {
    let set = FetchSet::new();
    assert!(set.is_empty());
    assert_eq!(set.len(), 0);
    assert!(!set.contains("neofetch"));
    assert!(set.names().is_empty());
}

#[test]
fn insert_says_whether_the_name_was_new() {
    let mut set = FetchSet::new();
    assert!(set.insert("neofetch".to_string()));
    assert!(!set.insert("neofetch".to_string()));
    assert!(set.insert("afetch".to_string()));
    assert!(set.insert("zfetch".to_string()));
    assert!(!set.insert("afetch".to_string()));
    assert_eq!(set.len(), 3);
    assert!(!set.is_empty());
    assert!(set.contains("afetch"));
    assert!(set.contains("neofetch"));
    assert!(set.contains("zfetch"));
    assert!(!set.contains("fetch"));
    assert_eq!(
        set.names().clone(),
        vec!["afetch".to_string(), "neofetch".to_string(), "zfetch".to_string()]
    );
}

#[test]
fn place_says_where_the_name_stands() {
    let mut set = FetchSet::new();
    assert_eq!(set.place("m".to_string()), (0, true));
    assert_eq!(set.place("a".to_string()), (0, true));
    assert_eq!(set.place("z".to_string()), (2, true));
    assert_eq!(set.place("n".to_string()), (2, true));
    assert_eq!(set.place("m".to_string()), (1, false));
    assert_eq!(set.place("z".to_string()), (3, false));
    assert_eq!(
        set.names().clone(),
        vec!["a".to_string(), "m".to_string(), "n".to_string(), "z".to_string()]
    );
}

#[test]
fn names_come_out_in_order_whatever_the_order_of_insertion() {
    let names = ["pfetch", "neofetch", "fastfetch", "pfetch", "afetch", "hyfetch", "neofetch"];
    let mut forward = FetchSet::new();
    for name in names.iter() {
        forward.insert(name.to_string());
    }
    let mut backward = FetchSet::new();
    for name in names.iter().rev() {
        backward.insert(name.to_string());
    }
    let mut expected: Vec<String> = names.iter().map(|n| n.to_string()).collect();
    expected.sort();
    expected.dedup();
    assert_eq!(forward.names().clone(), expected);
    assert_eq!(backward.names().clone(), expected);
}

fn expected_order(a: &str, b: &str) -> Precedence {
    if a < b {
        Precedence::Before
    } else if a == b {
        Precedence::Same
    } else {
        Precedence::After
    }
}

#[test]
fn order_of_names_is_by_character() {
    assert_eq!(compare_names("", ""), Precedence::Same);
    assert_eq!(compare_names("", "a"), Precedence::Before);
    assert_eq!(compare_names("a", ""), Precedence::After);
    assert_eq!(compare_names("abc", "abd"), Precedence::Before);
    assert_eq!(compare_names("abd", "abc"), Precedence::After);
    assert_eq!(compare_names("ab", "abc"), Precedence::Before);
    assert_eq!(compare_names("abc", "ab"), Precedence::After);
    assert_eq!(compare_names("neofetch", "neofetch"), Precedence::Same);
    assert_eq!(compare_names("Z", "a"), Precedence::Before);
}

#[test]
fn order_of_names_is_the_order_of_strings() {
    let samples = [
        "", "a", "b", "ab", "abc", "abd", "B", "neofetch", "pfetch", "\u{e9}", "e\u{301}",
        "\u{ffff}", "\u{10000}", "\u{10ffff}", "\u{7f}", "\u{80}", "\u{7ff}", "\u{800}", "a\u{0}",
        "\u{d7ff}", "\u{e000}", "fetch", "Fetch", " fetch", "z", "zz",
    ];
    for a in samples.iter() {
        for b in samples.iter() {
            assert_eq!(compare_names(a, b), expected_order(a, b), "{:?} and {:?}", a, b);
        }
    }
}

use fetch_usage::history::{get_fetch_history, Usage, UsageTable};

fn lines(items: &[&str]) -> Vec<String> {
    items.iter().map(|s| s.to_string()).collect()
}

fn entries(table: &UsageTable) -> Vec<(String, u64)> {
    let mut out: Vec<(String, u64)> = Vec::new();
    let mut i: usize = 0;
    while i < table.len() {
        let usage = table.usage_at(i);
        assert_eq!(usage.count, table.count_at(i));
        out.push((usage.name, usage.count));
        i += 1;
    }
    out
}

fn total(table: &UsageTable) -> u64 {
    entries(table).iter().map(|e| e.1).sum()
}

#[test]
fn history_counts_first_tokens() {
    let table = get_fetch_history(&lines(&["neofetch --ascii", "neofetch", "ls -la", "coolfetch"]));
    assert_eq!(table.len(), 2);
    assert_eq!(table.count("neofetch"), Some(2));
    assert_eq!(table.count("coolfetch"), Some(1));
    assert_eq!(table.count("ls"), None);
    assert_eq!(
        entries(&table),
        vec![("coolfetch".to_string(), 1), ("neofetch".to_string(), 2)]
    );
}

#[test]
fn counts_add_up_to_the_lines_that_call_a_fetch() {
    let log = lines(&[
        "neofetch",
        "  pfetch -a",
        "",
        "ls",
        "echo neofetch",
        "neofetch | lolcat",
        "\tpfetch",
        "fetchmail",
        "sudo pfetch",
        "fetch",
        "   ",
        "hyfetch;neofetch",
        "neofetch",
    ]);
    let table = get_fetch_history(&log);
    let expected: u64 = log
        .iter()
        .filter(|line| match line.split_whitespace().next() {
            Some(word) => word.ends_with("fetch"),
            None => false,
        })
        .count() as u64;
    assert_eq!(expected, 7);
    assert_eq!(total(&table), expected);
    assert_eq!(
        entries(&table),
        vec![
            ("fetch".to_string(), 1),
            ("hyfetch;neofetch".to_string(), 1),
            ("neofetch".to_string(), 3),
            ("pfetch".to_string(), 2),
        ]
    );
}

#[test]
fn empty_history_gives_empty_table() {
    let table = get_fetch_history(&Vec::new());
    assert!(table.is_empty());
    assert_eq!(table.len(), 0);
    assert_eq!(table.count("neofetch"), None);
    let table = get_fetch_history(&lines(&["", "   ", "ls", "cd /tmp", "fetchyahoo x"]));
    assert!(table.is_empty());
}

#[test]
fn token_is_taken_as_it_stands() {
    let table = get_fetch_history(&lines(&[
        "somefetch --flag",
        "'somefetch' --flag",
        "./somefetch",
        "SOMEFETCH",
        "somefetch\targ",
        "somefetch\u{a0}arg",
    ]));
    assert_eq!(
        entries(&table),
        vec![("./somefetch".to_string(), 1), ("somefetch".to_string(), 3)]
    );
}

#[test]
fn record_counts_one_more_call() {
    let mut table = UsageTable::new();
    assert!(table.is_empty());
    table.record("neofetch".to_string());
    assert_eq!(table.count("neofetch"), Some(1));
    table.record("neofetch".to_string());
    table.record("afetch".to_string());
    table.record("neofetch".to_string());
    assert_eq!(table.count("neofetch"), Some(3));
    assert_eq!(table.count("afetch"), Some(1));
    assert_eq!(table.count("zfetch"), None);
    assert_eq!(table.len(), 2);
    assert!(!table.is_empty());
    assert_eq!(table.programs().clone(), vec!["afetch".to_string(), "neofetch".to_string()]);
    assert_eq!(table.usage_at(0), Usage { name: "afetch".to_string(), count: 1 });
    assert_eq!(table.usage_at(1), Usage { name: "neofetch".to_string(), count: 3 });
    assert_eq!(table.count_at(1), 3);
}

#[test]
fn seed_keeps_a_count_that_is_there() {
    let mut table = UsageTable::new();
    table.seed("pfetch".to_string());
    assert_eq!(table.count("pfetch"), Some(0));
    table.record("pfetch".to_string());
    table.record("pfetch".to_string());
    table.seed("pfetch".to_string());
    assert_eq!(table.count("pfetch"), Some(2));
    table.seed("afetch".to_string());
    assert_eq!(entries(&table), vec![("afetch".to_string(), 0), ("pfetch".to_string(), 2)]);
}

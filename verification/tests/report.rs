use fetch_usage::history::{get_fetch_history, Usage, UsageTable};
use fetch_usage::names::FetchSet;
use fetch_usage::report::{
    build_report, fetches_installed, format_output, least_used, merge_usage, most_used,
    prefix_of, ReportError,
};

fn set_of(names: &[&str]) -> FetchSet {
    let mut set = FetchSet::new();
    for name in names.iter() {
        set.insert(name.to_string());
    }
    set
}

fn table_of(counts: &[(&str, u64)]) -> UsageTable {
    let mut table = UsageTable::new();
    for (name, count) in counts.iter() {
        table.seed(name.to_string());
        let mut i: u64 = 0;
        while i < *count {
            table.record(name.to_string());
            i += 1;
        }
    }
    table
}

fn usage(name: &str, count: u64) -> Usage {
    Usage { name: name.to_string(), count }
}

fn pairs(table: &UsageTable) -> Vec<(String, u64)> {
    let mut out: Vec<(String, u64)> = Vec::new();
    let mut i: usize = 0;
    while i < table.len() {
        let u = table.usage_at(i);
        out.push((u.name, u.count));
        i += 1;
    }
    out
}

const BANNER: [&str; 7] = [
    "######## ######## ########  ######  ##     ##",
    "##       ##          ##    ##    ## ##     ##",
    "##       ##          ##    ##       ##     ##",
    "######   ######      ##    ##       #########",
    "##       ##          ##    ##       ##     ##",
    "##       ##          ##    ##    ## ##     ##",
    "##       ########    ##     ######  ##     ##",
];

#[test]
fn found_programs_get_a_count_of_zero() {
    let found = set_of(&["coolfetch", "neofetch"]);
    let history = table_of(&[("neofetch", 2)]);
    let table = merge_usage(&found, history);
    assert_eq!(pairs(&table), vec![("coolfetch".to_string(), 0), ("neofetch".to_string(), 2)]);
    assert_eq!(least_used(&table), Some(usage("coolfetch", 0)));
    assert_eq!(most_used(&table), Some(usage("neofetch", 2)));
}

#[test]
fn merge_keeps_what_only_the_history_knows() {
    let found = set_of(&["afetch", "pfetch"]);
    let history = table_of(&[("pfetch", 3), ("oldfetch", 7)]);
    let table = merge_usage(&found, history);
    assert_eq!(
        pairs(&table),
        vec![("afetch".to_string(), 0), ("oldfetch".to_string(), 7), ("pfetch".to_string(), 3)]
    );
    for name in found.names().iter() {
        assert!(table.count(name).is_some());
    }
    assert_eq!(table.count("afetch"), Some(0));
    assert_eq!(table.count("pfetch"), Some(3));
    let table = merge_usage(&FetchSet::new(), table_of(&[("oldfetch", 1)]));
    assert_eq!(pairs(&table), vec![("oldfetch".to_string(), 1)]);
    let table = merge_usage(&set_of(&["afetch"]), UsageTable::new());
    assert_eq!(pairs(&table), vec![("afetch".to_string(), 0)]);
}

#[test]
fn least_and_most_used_of_an_empty_table() {
    assert_eq!(least_used(&UsageTable::new()), None);
    assert_eq!(most_used(&UsageTable::new()), None);
}

#[test]
fn least_and_most_used_have_the_least_and_the_greatest_count() {
    let table = table_of(&[("afetch", 3), ("bfetch", 1), ("cfetch", 5), ("dfetch", 2)]);
    assert_eq!(least_used(&table), Some(usage("bfetch", 1)));
    assert_eq!(most_used(&table), Some(usage("cfetch", 5)));
    let one = table_of(&[("pfetch", 4)]);
    assert_eq!(least_used(&one), Some(usage("pfetch", 4)));
    assert_eq!(most_used(&one), Some(usage("pfetch", 4)));
}

#[test]
fn equal_counts_are_settled_by_the_order_of_names() {
    let table = table_of(&[("cfetch", 2), ("afetch", 2), ("bfetch", 2)]);
    assert_eq!(least_used(&table), Some(usage("afetch", 2)));
    assert_eq!(most_used(&table), Some(usage("cfetch", 2)));
    let table = table_of(&[("afetch", 1), ("bfetch", 0), ("cfetch", 0), ("dfetch", 1)]);
    assert_eq!(least_used(&table), Some(usage("bfetch", 0)));
    assert_eq!(most_used(&table), Some(usage("dfetch", 1)));
}

#[test]
fn installed_programs_are_listed_up_to_four() {
    assert_eq!(fetches_installed(&set_of(&[])), "");
    assert_eq!(fetches_installed(&set_of(&["neofetch"])), "neofetch");
    assert_eq!(fetches_installed(&set_of(&["neofetch", "coolfetch"])), "coolfetch, neofetch");
    assert_eq!(
        fetches_installed(&set_of(&["pfetch", "neofetch", "afetch"])),
        "afetch, neofetch, pfetch"
    );
    assert_eq!(
        fetches_installed(&set_of(&["pfetch", "neofetch", "afetch", "hyfetch"])),
        "afetch, hyfetch, neofetch, pfetch"
    );
}

#[test]
fn installed_programs_are_counted_beyond_four() {
    assert_eq!(
        fetches_installed(&set_of(&["pfetch", "neofetch", "afetch", "hyfetch", "ufetch"])),
        "5"
    );
    let names: Vec<String> = (0..12).map(|i: u32| format!("n{}fetch", i)).collect();
    let mut set = FetchSet::new();
    for name in names.iter() {
        set.insert(name.clone());
    }
    assert_eq!(fetches_installed(&set), "12");
}

#[test]
fn banner_lasts_seven_rows() {
    let mut row: usize = 0;
    while row < 7 {
        assert_eq!(prefix_of(true, row), BANNER[row]);
        assert_eq!(prefix_of(false, row), "");
        row += 1;
    }
    assert_eq!(prefix_of(true, 7), "");
    assert_eq!(prefix_of(true, 100), "");
    assert_eq!(prefix_of(false, 7), "");
}

#[test]
fn report_with_banner() {
    let lines = format_output(
        true,
        &usage("coolfetch", 0),
        &usage("neofetch", 2),
        "coolfetch, neofetch",
        "Arch Linux",
        "up 2 hours, 5 minutes",
    );
    let expected = vec![
        format!("{}         Least used fetch: coolfetch - used 0 times", BANNER[0]),
        format!("{}         Most used fetch: neofetch - used 2 times", BANNER[1]),
        format!("{}         Fetches installed: coolfetch, neofetch", BANNER[2]),
        format!("{}         System has been up 2 hours, 5 minutes", BANNER[3]),
        format!("{}         ", BANNER[4]),
        format!("{}         I use Arch Linux btw", BANNER[5]),
        format!("{}         ", BANNER[6]),
        String::new(),
        "    `echo 'neofetch' >> ~/.bashrc`".to_string(),
        String::new(),
    ];
    assert_eq!(lines, expected);
    assert_eq!(
        lines[0],
        "######## ######## ########  ######  ##     ##         Least used fetch: coolfetch - used 0 times"
    );
}

#[test]
fn report_without_banner() {
    let lines = format_output(
        false,
        &usage("afetch", 12),
        &usage("pfetch", 340),
        "7",
        "Debian GNU/Linux",
        "up 3 weeks",
    );
    let expected = vec![
        "         Least used fetch: afetch - used 12 times".to_string(),
        "         Most used fetch: pfetch - used 340 times".to_string(),
        "         Fetches installed: 7".to_string(),
        "         System has been up 3 weeks".to_string(),
        "         ".to_string(),
        "         I use Debian GNU/Linux btw".to_string(),
        "         ".to_string(),
        String::new(),
        "    `echo 'pfetch' >> ~/.bashrc`".to_string(),
        String::new(),
    ];
    assert_eq!(lines, expected);
}

#[test]
fn nothing_found_is_reported_as_such() {
    assert_eq!(
        build_report(true, &FetchSet::new(), UsageTable::new(), "Arch", "up 1 hour"),
        Err(ReportError::NoFetchesFound)
    );
    assert_eq!(
        build_report(false, &FetchSet::new(), table_of(&[("oldfetch", 3)]), "Arch", "up 1 hour"),
        Err(ReportError::NoFetchesFound)
    );
}

#[test]
fn report_from_scan_and_history() {
    let found = set_of(&["coolfetch", "neofetch"]);
    let history = get_fetch_history(&vec![
        "neofetch --ascii".to_string(),
        "neofetch".to_string(),
        "ls -la".to_string(),
    ]);
    let lines = build_report(false, &found, history, "Ubuntu", "up 5 minutes").unwrap();
    let expected = vec![
        "         Least used fetch: coolfetch - used 0 times".to_string(),
        "         Most used fetch: neofetch - used 2 times".to_string(),
        "         Fetches installed: coolfetch, neofetch".to_string(),
        "         System has been up 5 minutes".to_string(),
        "         ".to_string(),
        "         I use Ubuntu btw".to_string(),
        "         ".to_string(),
        String::new(),
        "    `echo 'neofetch' >> ~/.bashrc`".to_string(),
        String::new(),
    ];
    assert_eq!(lines, expected);
}

#[test]
fn report_counts_programs_that_are_gone() {
    let found = set_of(&["afetch", "bfetch", "cfetch", "dfetch", "efetch"]);
    let history = table_of(&[("oldfetch", 9), ("cfetch", 4)]);
    let lines = build_report(true, &found, history, "Void", "up 1 day").unwrap();
    assert_eq!(lines.len(), 10);
    assert_eq!(
        lines[0],
        format!("{}         Least used fetch: afetch - used 0 times", BANNER[0])
    );
    assert_eq!(
        lines[1],
        format!("{}         Most used fetch: oldfetch - used 9 times", BANNER[1])
    );
    assert_eq!(lines[2], format!("{}         Fetches installed: 5", BANNER[2]));
    assert_eq!(lines[8], "    `echo 'oldfetch' >> ~/.bashrc`");
}

//! The report: the usage table, its least and most used programs, and the
//! lines that show them.

use crate::history::{Usage, UsageTable};
use crate::names::FetchSet;
use crate::text::{
    decimal, decimal_string, join, join_strings, lemma_name_lt_strict, lemma_name_lt_total,
    name_lt, texts,
};
use vstd::prelude::*;

verus! {

/// The first line of the banner.
pub const BANNER_1: &'static str = "######## ######## ########  ######  ##     ##";

/// The second line of the banner.
pub const BANNER_2: &'static str = "##       ##          ##    ##    ## ##     ##";

/// The third line of the banner.
pub const BANNER_3: &'static str = "##       ##          ##    ##       ##     ##";

/// The fourth line of the banner.
pub const BANNER_4: &'static str = "######   ######      ##    ##       #########";

/// The fifth line of the banner.
pub const BANNER_5: &'static str = "##       ##          ##    ##       ##     ##";

/// The sixth line of the banner.
pub const BANNER_6: &'static str = "##       ##          ##    ##    ## ##     ##";

/// The seventh line of the banner.
pub const BANNER_7: &'static str = "##       ########    ##     ######  ##     ##";

/// What stands before each row of the report, after the banner.
pub const INDENT: &'static str = "         ";

/// What opens the row of the least used program.
pub const LEAST_LABEL: &'static str = "Least used fetch: ";

/// What opens the row of the most used program.
pub const MOST_LABEL: &'static str = "Most used fetch: ";

/// What stands between a program and its count.
pub const USED: &'static str = " - used ";

/// What stands after a count.
pub const TIMES: &'static str = " times";

/// What opens the row of the installed programs.
pub const INSTALLED_LABEL: &'static str = "Fetches installed: ";

/// What opens the row of the time that the system has been up.
pub const UPTIME_LABEL: &'static str = "System has been ";

/// What opens the row of the distribution.
pub const DISTRO_LABEL: &'static str = "I use ";

/// What closes the row of the distribution.
pub const DISTRO_TAIL: &'static str = " btw";

/// What opens the closing line.
pub const HINT_HEAD: &'static str = "    `echo '";

/// What closes the closing line.
pub const HINT_TAIL: &'static str = "' >> ~/.bashrc`";

/// What stands between two names in the list of the installed programs.
pub const LIST_SEPARATOR: &'static str = ", ";

/// The most names that the report lists; of more it gives the number.
pub const LISTED_AT_MOST: usize = 4;

/// There is nothing to report on.
#[derive(Clone, Copy, Debug, PartialEq, Eq, Structural)]
pub enum ReportError {
    /// No fetch program was found on the search path.
    NoFetchesFound,
}

/// The lines of the banner.
pub open spec fn banner() -> Seq<Seq<char>> {
    seq![BANNER_1@, BANNER_2@, BANNER_3@, BANNER_4@, BANNER_5@, BANNER_6@, BANNER_7@]
}

/// What stands at the start of row `row` of the report: the line of the
/// banner with that number, as long as the banner lasts and is asked for,
/// and then nothing.
pub open spec fn line_prefix(print_logo: bool, row: int) -> Seq<char> {
    if print_logo && 0 <= row < banner().len() {
        banner()[row]
    } else {
        Seq::empty()
    }
}

/// The merged usage table: the programs that were found or that the history
/// knows, each with its count in the history, and with 0 where the history
/// does not know it.
pub open spec fn merged(found: Set<Seq<char>>, history: Map<Seq<char>, nat>) -> Map<
    Seq<char>,
    nat,
> {
    Map::new(
        |name: Seq<char>| found.contains(name) || history.contains_key(name),
        |name: Seq<char>|
            if history.contains_key(name) {
                history[name]
            } else {
                0nat
            },
    )
}

/// Every program that was found is in the merged usage table, with its
/// count in the history, or with 0 where the history does not know it.
pub proof fn lemma_merge_law(found: Set<Seq<char>>, history: Map<Seq<char>, nat>)
    ensures
        forall|name: Seq<char>| #[trigger]
            found.contains(name) ==> merged(found, history).contains_key(name) && merged(
                found,
                history,
            )[name] == if history.contains_key(name) {
                history[name]
            } else {
                0
            },
{
}

/// Whether `name` is the least used program of `usage`: no program has a
/// smaller count, and of those with the same count none comes before it in
/// the order of names.
pub open spec fn is_least_used(usage: Map<Seq<char>, nat>, name: Seq<char>) -> bool {
    &&& usage.contains_key(name)
    &&& forall|other: Seq<char>| #[trigger]
        usage.contains_key(other) ==> usage[name] <= usage[other] && (usage[other] == usage[name]
            ==> !name_lt(other, name))
}

/// Whether `name` is the most used program of `usage`: no program has a
/// greater count, and of those with the same count none comes after it in
/// the order of names.
pub open spec fn is_most_used(usage: Map<Seq<char>, nat>, name: Seq<char>) -> bool {
    &&& usage.contains_key(name)
    &&& forall|other: Seq<char>| #[trigger]
        usage.contains_key(other) ==> usage[other] <= usage[name] && (usage[other] == usage[name]
            ==> !name_lt(name, other))
}

/// The least used program of `usage`. A usage map with a program in it has
/// exactly one.
pub open spec fn least_used_in(usage: Map<Seq<char>, nat>) -> Seq<char> {
    choose|name: Seq<char>| is_least_used(usage, name)
}

/// The most used program of `usage`. A usage map with a program in it has
/// exactly one.
pub open spec fn most_used_in(usage: Map<Seq<char>, nat>) -> Seq<char> {
    choose|name: Seq<char>| is_most_used(usage, name)
}

/// A usage map has at most one least used program.
pub proof fn lemma_least_used_unique(usage: Map<Seq<char>, nat>, a: Seq<char>, b: Seq<char>)
    requires
        is_least_used(usage, a),
        is_least_used(usage, b),
    ensures
        a == b,
{
    lemma_name_lt_total(a, b);
}

/// A usage map has at most one most used program.
pub proof fn lemma_most_used_unique(usage: Map<Seq<char>, nat>, a: Seq<char>, b: Seq<char>)
    requires
        is_most_used(usage, a),
        is_most_used(usage, b),
    ensures
        a == b,
{
    lemma_name_lt_total(a, b);
}

/// What the report says of the installed programs: their names in the order
/// of names, with a comma and a space between each two, as long as they are
/// no more than four; else their number.
pub open spec fn installed_text(found: Seq<Seq<char>>) -> Seq<char> {
    if found.len() > LISTED_AT_MOST {
        decimal(found.len())
    } else {
        join(found, LIST_SEPARATOR@)
    }
}

/// The row that names a program and its count.
pub open spec fn usage_row(label: Seq<char>, name: Seq<char>, count: nat) -> Seq<char> {
    INDENT@ + label + name + USED@ + decimal(count) + TIMES@
}

/// The lines of the report: seven rows, each after its line of the banner
/// where the banner is asked for, an empty line, the closing line, and an
/// empty line.
pub open spec fn report_text(
    print_logo: bool,
    least: Seq<char>,
    least_count: nat,
    most: Seq<char>,
    most_count: nat,
    installed: Seq<char>,
    distro: Seq<char>,
    uptime: Seq<char>,
) -> Seq<Seq<char>> {
    seq![
        line_prefix(print_logo, 0) + usage_row(LEAST_LABEL@, least, least_count),
        line_prefix(print_logo, 1) + usage_row(MOST_LABEL@, most, most_count),
        line_prefix(print_logo, 2) + (INDENT@ + INSTALLED_LABEL@ + installed),
        line_prefix(print_logo, 3) + (INDENT@ + UPTIME_LABEL@ + uptime),
        line_prefix(print_logo, 4) + INDENT@,
        line_prefix(print_logo, 5) + (INDENT@ + DISTRO_LABEL@ + distro + DISTRO_TAIL@),
        line_prefix(print_logo, 6) + INDENT@,
        Seq::empty(),
        HINT_HEAD@ + most + HINT_TAIL@,
        Seq::empty(),
    ]
}

/// The report on the programs `found`, with the counts of `history`.
pub open spec fn report_of(
    print_logo: bool,
    found: Seq<Seq<char>>,
    history: Map<Seq<char>, nat>,
    distro: Seq<char>,
    uptime: Seq<char>,
) -> Seq<Seq<char>> {
    let usage = merged(found.to_set(), history);
    let least = least_used_in(usage);
    let most = most_used_in(usage);
    report_text(
        print_logo,
        least,
        usage[least],
        most,
        usage[most],
        installed_text(found),
        distro,
        uptime,
    )
}

/// Merges what was found into the history: each program that was found and
/// that the history does not know gets the count 0.
pub fn merge_usage(found: &FetchSet, history: UsageTable) -> (r: UsageTable)
    ensures
        r.wf(),
        r@ == merged(found.as_set(), history@),
{
    let mut table = history;
    proof {
        use_type_invariant(&table);
    }
    let names = found.names();
    let n: usize = names.len();
    let mut i: usize = 0;
    proof {
        assert(table@ =~= merged(found@.take(0).to_set(), history@));
    }
    while i < n
        invariant
            n == names@.len(),
            texts(names@) == found@,
            i <= n,
            table.wf(),
            table@ == merged(found@.take(i as int).to_set(), history@),
        decreases n - i,
    {
        let ghost name = found@[i as int];
        assert(texts(names@)[i as int] == names@[i as int]@);
        table.seed(names[i].clone());
        proof {
            let shorter = found@.take(i as int);
            let longer = found@.take(i + 1);
            assert(longer =~= shorter.push(name));
            assert forall|x: Seq<char>| longer.contains(x) <==> (shorter.contains(x) || x
                == name) by {
                if longer.contains(x) {
                    let k = choose|k: int| 0 <= k < longer.len() && longer[k] == x;
                    if k < i {
                        assert(shorter[k] == x);
                    }
                }
                if shorter.contains(x) {
                    let k = choose|k: int| 0 <= k < shorter.len() && shorter[k] == x;
                    assert(longer[k] == x);
                }
                if x == name {
                    assert(longer[i as int] == x);
                }
            }
            assert(table@ =~= merged(longer.to_set(), history@));
        }
        i = i + 1;
    }
    proof {
        assert(found@.take(n as int) =~= found@);
    }
    table
}

/// The place of the least used program in a table that is not empty.
fn least_used_place(table: &UsageTable) -> (best: usize)
    requires
        table.names().len() > 0,
    ensures
        best < table.names().len(),
        is_least_used(table@, table.names()[best as int]),
        table.names()[best as int] == least_used_in(table@),
{
    proof {
        use_type_invariant(table);
    }
    let n: usize = table.len();
    let mut best: usize = 0;
    let mut least: u64 = table.count_at(0);
    let mut i: usize = 1;
    while i < n
        invariant
            table.wf(),
            n == table.names().len(),
            best < i <= n,
            least == table@[table.names()[best as int]],
            forall|j: int| 0 <= j < i ==> least <= table@[#[trigger] table.names()[j]],
            forall|j: int| 0 <= j < best ==> least < table@[#[trigger] table.names()[j]],
        decreases n - i,
    {
        let count = table.count_at(i);
        if count < least {
            best = i;
            least = count;
        }
        i = i + 1;
    }
    proof {
        table.lemma_names();
        let names = table.names();
        let name = names[best as int];
        assert forall|other: Seq<char>| #[trigger] table@.contains_key(other) implies table@[name]
            <= table@[other] && (table@[other] == table@[name] ==> !name_lt(other, name)) by {
            assert(names.to_set().contains(other));
            let j = choose|j: int| 0 <= j < names.len() && names[j] == other;
            if j > best {
                lemma_name_lt_strict(name, names[j]);
            } else if j == best {
                lemma_name_lt_strict(other, other);
            }
        }
        assert(is_least_used(table@, name));
        lemma_least_used_unique(table@, name, least_used_in(table@));
    }
    best
}

/// The place of the most used program in a table that is not empty.
fn most_used_place(table: &UsageTable) -> (best: usize)
    requires
        table.names().len() > 0,
    ensures
        best < table.names().len(),
        is_most_used(table@, table.names()[best as int]),
        table.names()[best as int] == most_used_in(table@),
{
    proof {
        use_type_invariant(table);
    }
    let n: usize = table.len();
    let mut best: usize = 0;
    let mut most: u64 = table.count_at(0);
    let mut i: usize = 1;
    while i < n
        invariant
            table.wf(),
            n == table.names().len(),
            best < i <= n,
            most == table@[table.names()[best as int]],
            forall|j: int| 0 <= j < i ==> table@[#[trigger] table.names()[j]] <= most,
            forall|j: int| best < j < i ==> table@[#[trigger] table.names()[j]] < most,
        decreases n - i,
    {
        let count = table.count_at(i);
        if count >= most {
            best = i;
            most = count;
        }
        i = i + 1;
    }
    proof {
        table.lemma_names();
        let names = table.names();
        let name = names[best as int];
        assert forall|other: Seq<char>| #[trigger] table@.contains_key(other) implies table@[other]
            <= table@[name] && (table@[other] == table@[name] ==> !name_lt(name, other)) by {
            assert(names.to_set().contains(other));
            let j = choose|j: int| 0 <= j < names.len() && names[j] == other;
            if j < best {
                lemma_name_lt_strict(names[j], name);
            } else if j == best {
                lemma_name_lt_strict(other, other);
            }
        }
        assert(is_most_used(table@, name));
        lemma_most_used_unique(table@, name, most_used_in(table@));
    }
    best
}

/// The least used program of the table, none where the table is empty. Of
/// several with the least count it is the first in the order of names.
pub fn least_used(table: &UsageTable) -> (r: Option<Usage>)
    ensures
        match r {
            Some(usage) => {
                &&& is_least_used(table@, usage.name@)
                &&& usage.name@ == least_used_in(table@)
                &&& usage.count == table@[usage.name@]
            },
            None => table@.dom() == Set::<Seq<char>>::empty(),
        },
{
    if table.is_empty() {
        None
    } else {
        Some(table.usage_at(least_used_place(table)))
    }
}

/// The most used program of the table, none where the table is empty. Of
/// several with the greatest count it is the last in the order of names.
pub fn most_used(table: &UsageTable) -> (r: Option<Usage>)
    ensures
        match r {
            Some(usage) => {
                &&& is_most_used(table@, usage.name@)
                &&& usage.name@ == most_used_in(table@)
                &&& usage.count == table@[usage.name@]
            },
            None => table@.dom() == Set::<Seq<char>>::empty(),
        },
{
    if table.is_empty() {
        None
    } else {
        Some(table.usage_at(most_used_place(table)))
    }
}

/// What the report says of the installed programs.
pub fn fetches_installed(found: &FetchSet) -> (r: String)
    ensures
        r@ == installed_text(found@),
{
    let n: usize = found.len();
    if n > LISTED_AT_MOST {
        decimal_string(n as u64)
    } else {
        join_strings(found.names(), LIST_SEPARATOR)
    }
}

/// The line of the banner that stands before row `row`, nothing where the
/// banner is not asked for or has ended.
pub fn prefix_of(print_logo: bool, row: usize) -> (r: &'static str)
    ensures
        r@ == line_prefix(print_logo, row as int),
{
    proof {
        reveal_strlit("");
        assert(""@ =~= Seq::<char>::empty());
    }
    if !print_logo {
        ""
    } else if row == 0 {
        BANNER_1
    } else if row == 1 {
        BANNER_2
    } else if row == 2 {
        BANNER_3
    } else if row == 3 {
        BANNER_4
    } else if row == 4 {
        BANNER_5
    } else if row == 5 {
        BANNER_6
    } else if row == 6 {
        BANNER_7
    } else {
        ""
    }
}

/// Writes `body` as row `row` of the report.
fn with_prefix(print_logo: bool, row: usize, body: &str) -> (r: String)
    ensures
        r@ == line_prefix(print_logo, row as int) + body@,
{
    String::from_str(prefix_of(print_logo, row)).concat(body)
}

/// Writes the row that names a program and its count.
fn usage_row_string(label: &str, usage: &Usage) -> (r: String)
    ensures
        r@ == usage_row(label@, usage.name@, usage.count as nat),
{
    let mut out = String::from_str(INDENT);
    out.append(label);
    out.append(usage.name.as_str());
    out.append(USED);
    out.append(decimal_string(usage.count).as_str());
    out.append(TIMES);
    out
}

/// The lines of the report, for the least and the most used program, what
/// is to be said of the installed programs, the distribution and the time
/// that the system has been up.
pub fn format_output(
    print_logo: bool,
    least: &Usage,
    most: &Usage,
    installed: &str,
    distro: &str,
    uptime: &str,
) -> (r: Vec<String>)
    ensures
        texts(r@) == report_text(
            print_logo,
            least.name@,
            least.count as nat,
            most.name@,
            most.count as nat,
            installed@,
            distro@,
            uptime@,
        ),
{
    let mut lines: Vec<String> = Vec::new();
    lines.push(with_prefix(print_logo, 0, usage_row_string(LEAST_LABEL, least).as_str()));
    lines.push(with_prefix(print_logo, 1, usage_row_string(MOST_LABEL, most).as_str()));

    let mut row = String::from_str(INDENT);
    row.append(INSTALLED_LABEL);
    row.append(installed);
    lines.push(with_prefix(print_logo, 2, row.as_str()));

    let mut row = String::from_str(INDENT);
    row.append(UPTIME_LABEL);
    row.append(uptime);
    lines.push(with_prefix(print_logo, 3, row.as_str()));

    lines.push(with_prefix(print_logo, 4, INDENT));

    let mut row = String::from_str(INDENT);
    row.append(DISTRO_LABEL);
    row.append(distro);
    row.append(DISTRO_TAIL);
    lines.push(with_prefix(print_logo, 5, row.as_str()));

    lines.push(with_prefix(print_logo, 6, INDENT));
    lines.push(String::new());

    let mut hint = String::from_str(HINT_HEAD);
    hint.append(most.name.as_str());
    hint.append(HINT_TAIL);
    lines.push(hint);
    lines.push(String::new());
    proof {
        assert(texts(lines@) =~= report_text(
            print_logo,
            least.name@,
            least.count as nat,
            most.name@,
            most.count as nat,
            installed@,
            distro@,
            uptime@,
        ));
    }
    lines
}

/// The report on the programs that were found, with the counts of the
/// history. Where no program was found there is nothing to report on: that
/// is an error.
pub fn build_report(
    print_logo: bool,
    found: &FetchSet,
    history: UsageTable,
    distro: &str,
    uptime: &str,
) -> (r: Result<Vec<String>, ReportError>)
    ensures
        match r {
            Ok(lines) => found@.len() > 0 && texts(lines@) == report_of(
                print_logo,
                found@,
                history@,
                distro@,
                uptime@,
            ),
            Err(e) => found@.len() == 0 && e == ReportError::NoFetchesFound,
        },
{
    if found.is_empty() {
        return Err(ReportError::NoFetchesFound);
    }
    let table = merge_usage(found, history);
    proof {
        table.lemma_names();
        assert(found@.contains(found@[0]));
        assert(table@.contains_key(found@[0]));
        assert(table.names().to_set().contains(found@[0]));
    }
    let least = table.usage_at(least_used_place(&table));
    let most = table.usage_at(most_used_place(&table));
    let installed = fetches_installed(found);
    Ok(format_output(print_logo, &least, &most, installed.as_str(), distro, uptime))
}

} // verus!

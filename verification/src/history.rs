//! The history of commands: how often each fetch program was called.

use crate::names::{lemma_fetch_set_distinct, locate, strictly_sorted, FetchSet};
use crate::text::{ends_with_fetch, first_token, first_word, is_fetch_name, texts};
use vstd::prelude::*;

verus! {

/// The fetch program that a line of the history calls: the first token of
/// the line, where it ends with the fetch suffix.
pub open spec fn called_fetch(line: Seq<char>) -> Option<Seq<char>> {
    match first_token(line) {
        Some(token) => if is_fetch_name(token) {
            Some(token)
        } else {
            None
        },
        None => None,
    }
}

/// How many of `lines` call the program `name`.
pub open spec fn calls_of(lines: Seq<Seq<char>>, name: Seq<char>) -> nat
    decreases lines.len(),
{
    if lines.len() == 0 {
        0
    } else {
        calls_of(lines.drop_last(), name) + if called_fetch(lines.last()) == Some(name) {
            1nat
        } else {
            0nat
        }
    }
}

/// How many of `lines` call a fetch program.
pub open spec fn fetch_calls(lines: Seq<Seq<char>>) -> nat
    decreases lines.len(),
{
    if lines.len() == 0 {
        0
    } else {
        fetch_calls(lines.drop_last()) + if called_fetch(lines.last()) is Some {
            1nat
        } else {
            0nat
        }
    }
}

/// The history map of `lines`: each fetch program that a line calls, with
/// the number of lines that call it.
pub open spec fn history_of(lines: Seq<Seq<char>>) -> Map<Seq<char>, nat> {
    Map::new(|name: Seq<char>| calls_of(lines, name) > 0, |name: Seq<char>| calls_of(lines, name))
}

/// The sum of the counts of a usage map.
pub open spec fn total(m: Map<Seq<char>, nat>) -> nat
    decreases m.dom().len(),
    when m.dom().finite()
{
    if m.dom().len() == 0 {
        0
    } else {
        let name = m.dom().choose();
        m[name] + total(m.remove(name))
    }
}

/// The sum of a usage map is the count of any one program and the sum of
/// the others.
pub proof fn lemma_total_remove(m: Map<Seq<char>, nat>, name: Seq<char>)
    requires
        m.dom().finite(),
        m.contains_key(name),
    ensures
        total(m) == m[name] + total(m.remove(name)),
    decreases m.dom().len(),
{
    let chosen = m.dom().choose();
    if chosen != name {
        lemma_total_remove(m.remove(chosen), name);
        lemma_total_remove(m.remove(name), chosen);
        assert(m.remove(chosen).remove(name) =~= m.remove(name).remove(chosen));
    }
}

/// What a new count for one program does to the sum of a usage map.
pub proof fn lemma_total_insert(m: Map<Seq<char>, nat>, name: Seq<char>, count: nat)
    requires
        m.dom().finite(),
    ensures
        total(m.insert(name, count)) + (if m.contains_key(name) {
            m[name]
        } else {
            0
        }) == total(m) + count,
{
    let after = m.insert(name, count);
    lemma_total_remove(after, name);
    if m.contains_key(name) {
        lemma_total_remove(m, name);
        assert(after.remove(name) =~= m.remove(name));
    } else {
        assert(after.remove(name) =~= m);
    }
}

/// What one more line does to the history map.
pub proof fn lemma_history_step(lines: Seq<Seq<char>>)
    requires
        lines.len() > 0,
    ensures
        history_of(lines) == match called_fetch(lines.last()) {
            Some(name) => history_of(lines.drop_last()).insert(
                name,
                calls_of(lines.drop_last(), name) + 1,
            ),
            None => history_of(lines.drop_last()),
        },
{
    let expected = match called_fetch(lines.last()) {
        Some(name) => history_of(lines.drop_last()).insert(
            name,
            calls_of(lines.drop_last(), name) + 1,
        ),
        None => history_of(lines.drop_last()),
    };
    assert(history_of(lines) =~= expected);
}

/// The counts of a history map add up to the number of lines that call a
/// fetch program.
pub proof fn lemma_history_total(lines: Seq<Seq<char>>)
    ensures
        history_of(lines).dom().finite(),
        total(history_of(lines)) == fetch_calls(lines),
    decreases lines.len(),
{
    if lines.len() == 0 {
        assert(history_of(lines) =~= Map::<Seq<char>, nat>::empty());
    } else {
        let earlier = lines.drop_last();
        lemma_history_total(earlier);
        lemma_history_step(lines);
        match called_fetch(lines.last()) {
            Some(name) => {
                lemma_total_insert(history_of(earlier), name, calls_of(earlier, name) + 1);
            },
            None => {},
        }
    }
}

/// No program is called more often than there are lines.
pub proof fn lemma_calls_bounded(lines: Seq<Seq<char>>, name: Seq<char>)
    ensures
        calls_of(lines, name) <= lines.len(),
    decreases lines.len(),
{
    if lines.len() > 0 {
        lemma_calls_bounded(lines.drop_last(), name);
    }
}

/// The usage map that names and counts, side by side, stand for.
spec fn table_map(names: Seq<Seq<char>>, counts: Seq<u64>) -> Map<Seq<char>, nat> {
    Map::new(
        |name: Seq<char>| names.contains(name),
        |name: Seq<char>| counts[names.index_of(name)] as nat,
    )
}

proof fn lemma_table_lookup(names: Seq<Seq<char>>, counts: Seq<u64>, i: int)
    requires
        names.no_duplicates(),
        names.len() == counts.len(),
        0 <= i < names.len(),
    ensures
        table_map(names, counts).contains_key(names[i]),
        table_map(names, counts)[names[i]] == counts[i],
{
    assert(names.contains(names[i]));
    let k = names.index_of(names[i]);
    assert(0 <= k < names.len() && names[k] == names[i]);
}

proof fn lemma_table_update(names: Seq<Seq<char>>, counts: Seq<u64>, i: int, count: u64)
    requires
        names.no_duplicates(),
        names.len() == counts.len(),
        0 <= i < names.len(),
    ensures
        table_map(names, counts.update(i, count)) == table_map(names, counts).insert(
            names[i],
            count as nat,
        ),
{
    let before = table_map(names, counts);
    let after = table_map(names, counts.update(i, count));
    assert(names.contains(names[i]));
    assert forall|name: Seq<char>| after.contains_key(name) implies #[trigger] after[name]
        == before.insert(names[i], count as nat)[name] by {
        let k = names.index_of(name);
        assert(0 <= k < names.len() && names[k] == name);
    }
    assert(after =~= before.insert(names[i], count as nat));
}

proof fn lemma_table_insert(
    names: Seq<Seq<char>>,
    counts: Seq<u64>,
    at: int,
    name: Seq<char>,
    count: u64,
)
    requires
        names.no_duplicates(),
        names.insert(at, name).no_duplicates(),
        names.len() == counts.len(),
        0 <= at <= names.len(),
        !names.contains(name),
    ensures
        table_map(names.insert(at, name), counts.insert(at, count)) == table_map(
            names,
            counts,
        ).insert(name, count as nat),
{
    let before = table_map(names, counts);
    let longer = names.insert(at, name);
    let after = table_map(longer, counts.insert(at, count));
    assert(longer[at] == name);
    assert forall|x: Seq<char>| after.contains_key(x) <==> before.insert(
        name,
        count as nat,
    ).contains_key(x) by {
        if longer.contains(x) {
            let k = choose|k: int| 0 <= k < longer.len() && longer[k] == x;
            if k < at {
                assert(names[k] == x);
            } else if k > at {
                assert(names[k - 1] == x);
            }
        }
        if names.contains(x) {
            let k = choose|k: int| 0 <= k < names.len() && names[k] == x;
            if k < at {
                assert(longer[k] == x);
            } else {
                assert(longer[k + 1] == x);
            }
        }
    }
    assert forall|x: Seq<char>| after.contains_key(x) implies #[trigger] after[x]
        == before.insert(name, count as nat)[x] by {
        let k = longer.index_of(x);
        assert(0 <= k < longer.len() && longer[k] == x);
        if k < at {
            assert(names[k] == x);
            lemma_table_lookup(names, counts, k);
        } else if k > at {
            assert(names[k - 1] == x);
            lemma_table_lookup(names, counts, k - 1);
        }
    }
    assert(after =~= before.insert(name, count as nat));
}

/// How often one program was used.
#[derive(Debug, PartialEq, Eq)]
pub struct Usage {
    /// The name of the program.
    pub name: String,
    /// The number of times it was called.
    pub count: u64,
}

/// A usage table: programs, each with the number of times it was called.
/// It holds no program twice, and hands its programs out in the order of
/// names.
#[derive(Debug, PartialEq, Eq)]
pub struct UsageTable {
    keys: FetchSet,
    counts: Vec<u64>,
}

impl View for UsageTable {
    type V = Map<Seq<char>, nat>;

    /// The usage map of the table: each program with its count.
    closed spec fn view(&self) -> Map<Seq<char>, nat> {
        table_map(self.keys@, self.counts@)
    }
}

impl UsageTable {
    /// The programs of the table, in the order in which it hands them out.
    pub closed spec fn names(&self) -> Seq<Seq<char>> {
        self.keys@
    }

    /// The table is well formed: its programs stand in the order of names,
    /// each once and with one count. Every table that the program holds is.
    #[verifier::type_invariant]
    pub closed spec fn wf(&self) -> bool {
        self.keys.wf() && self.counts@.len() == self.keys@.len()
    }

    /// The count of `name` in the table, 0 where the table does not hold it.
    pub open spec fn count_of(&self, name: Seq<char>) -> nat {
        if self@.contains_key(name) {
            self@[name]
        } else {
            0
        }
    }

    /// In a well-formed table the programs stand in the order of names, and
    /// they are the programs of its usage map.
    pub proof fn lemma_names(&self)
        requires
            self.wf(),
        ensures
            strictly_sorted(self.names()),
            self.names().no_duplicates(),
            self@.dom() == self.names().to_set(),
            self@.dom().finite(),
            self@.dom().len() == self.names().len(),
            forall|i: int|
                0 <= i < self.names().len() ==> self@.contains_key(#[trigger] self.names()[i]),
    {
        lemma_fetch_set_distinct(self.keys);
        assert(self@.dom() =~= self.names().to_set());
        assert forall|i: int| 0 <= i < self.names().len() implies self@.contains_key(
            #[trigger] self.names()[i],
        ) by {
            lemma_table_lookup(self.keys@, self.counts@, i);
        }
    }

    /// The empty table.
    pub fn new() -> (r: Self)
        ensures
            r.wf(),
            r@ == Map::<Seq<char>, nat>::empty(),
            r.names() == Seq::<Seq<char>>::empty(),
    {
        let r = UsageTable { keys: FetchSet::new(), counts: Vec::new() };
        assert(r@ =~= Map::<Seq<char>, nat>::empty());
        r
    }

    /// The number of programs in the table.
    pub fn len(&self) -> (r: usize)
        ensures
            r == self.names().len(),
            r == self@.dom().len(),
    {
        proof {
            use_type_invariant(self);
            self.lemma_names();
        }
        self.keys.len()
    }

    /// Whether the table holds no program.
    pub fn is_empty(&self) -> (r: bool)
        ensures
            r == (self.names().len() == 0),
            r == (self@.dom() == Set::<Seq<char>>::empty()),
    {
        proof {
            use_type_invariant(self);
            self.lemma_names();
            if self.names().len() == 0 {
                assert(self@.dom() =~= Set::<Seq<char>>::empty());
            } else {
                assert(self@.contains_key(self.names()[0]));
            }
        }
        self.keys.is_empty()
    }

    /// The programs of the table, in the order of names.
    pub fn programs(&self) -> (r: &Vec<String>)
        ensures
            self.wf(),
            texts(r@) == self.names(),
    {
        proof {
            use_type_invariant(self);
        }
        self.keys.names()
    }

    /// The count of `name`, none where the table does not hold it.
    pub fn count(&self, name: &str) -> (r: Option<u64>)
        ensures
            match r {
                Some(c) => self@.contains_key(name@) && self@[name@] == c,
                None => !self@.contains_key(name@),
            },
    {
        proof {
            use_type_invariant(self);
        }
        let (at, found) = locate(self.keys.names(), name);
        if found {
            proof {
                lemma_fetch_set_distinct(self.keys);
                lemma_table_lookup(self.keys@, self.counts@, at as int);
            }
            Some(self.counts[at])
        } else {
            None
        }
    }

    /// The count of the program at place `i` of the table.
    pub fn count_at(&self, i: usize) -> (r: u64)
        requires
            i < self.names().len(),
        ensures
            self@.contains_key(self.names()[i as int]),
            self@[self.names()[i as int]] == r,
    {
        proof {
            use_type_invariant(self);
            lemma_fetch_set_distinct(self.keys);
            lemma_table_lookup(self.keys@, self.counts@, i as int);
        }
        self.counts[i]
    }

    /// The program at place `i` of the table, with its count.
    pub fn usage_at(&self, i: usize) -> (r: Usage)
        requires
            i < self.names().len(),
        ensures
            r.name@ == self.names()[i as int],
            self@.contains_key(r.name@),
            self@[r.name@] == r.count,
    {
        proof {
            use_type_invariant(self);
            lemma_fetch_set_distinct(self.keys);
            lemma_table_lookup(self.keys@, self.counts@, i as int);
        }
        let names = self.keys.names();
        assert(texts(names@)[i as int] == names@[i as int]@);
        Usage { name: names[i].clone(), count: self.counts[i] }
    }

    /// Puts `name` into the table with the count `first` where the table
    /// does not hold it; else adds `more` to its count.
    fn put(&mut self, name: String, first: u64, more: u64)
        requires
            old(self).count_of(name@) + more <= u64::MAX,
        ensures
            final(self).wf(),
            final(self)@ == old(self)@.insert(
                name@,
                if old(self)@.contains_key(name@) {
                    (old(self)@[name@] + more) as nat
                } else {
                    first as nat
                },
            ),
    {
        proof {
            use_type_invariant(&*self);
        }
        let mut table = UsageTable::new();
        std::mem::swap(&mut table, self);
        let UsageTable { mut keys, mut counts } = table;
        let ghost names_before = keys@;
        let ghost counts_before = counts@;
        let ghost text = name@;
        proof {
            lemma_fetch_set_distinct(keys);
        }
        let (at, fresh) = keys.place(name);
        proof {
            lemma_fetch_set_distinct(keys);
        }
        if fresh {
            counts.insert(at, first);
            proof {
                lemma_table_insert(names_before, counts_before, at as int, text, first);
            }
        } else {
            proof {
                lemma_table_lookup(names_before, counts_before, at as int);
                lemma_table_update(
                    names_before,
                    counts_before,
                    at as int,
                    (counts_before[at as int] + more) as u64,
                );
            }
            let count = counts[at];
            counts.set(at, count + more);
        }
        *self = UsageTable { keys, counts };
    }

    /// Counts one more call of `name`.
    pub fn record(&mut self, name: String)
        requires
            old(self).count_of(name@) < u64::MAX,
        ensures
            final(self).wf(),
            final(self)@ == old(self)@.insert(name@, (old(self).count_of(name@) + 1) as nat),
    {
        self.put(name, 1, 1);
    }

    /// Makes sure that the table holds `name`: a program that it does not
    /// hold yet gets the count 0.
    pub fn seed(&mut self, name: String)
        ensures
            final(self).wf(),
            final(self)@ == old(self)@.insert(name@, old(self).count_of(name@)),
    {
        self.put(name, 0, 0);
    }
}

/// Reads the history of commands: counts, for each fetch program, the lines
/// that call it. A line calls the program that its first token names.
pub fn get_fetch_history(lines: &Vec<String>) -> (r: UsageTable)
    ensures
        r.wf(),
        r@ == history_of(texts(lines@)),
        total(r@) == fetch_calls(texts(lines@)),
{
    let mut table = UsageTable::new();
    let n: usize = lines.len();
    let mut i: usize = 0;
    proof {
        assert(history_of(texts(lines@).take(0)) =~= Map::<Seq<char>, nat>::empty());
    }
    while i < n
        invariant
            n == lines@.len(),
            i <= n,
            table.wf(),
            table@ == history_of(texts(lines@).take(i as int)),
        decreases n - i,
    {
        proof {
            let seen = texts(lines@).take(i + 1);
            assert(seen.drop_last() =~= texts(lines@).take(i as int));
            assert(seen.last() == lines@[i as int]@);
            lemma_history_step(seen);
        }
        match first_word(lines[i].as_str()) {
            Some(word) => {
                if ends_with_fetch(word) {
                    proof {
                        lemma_calls_bounded(texts(lines@).take(i as int), word@);
                    }
                    table.record(String::from_str(word));
                }
            },
            None => {},
        }
        i = i + 1;
    }
    proof {
        assert(texts(lines@).take(n as int) =~= texts(lines@));
        lemma_history_total(texts(lines@));
    }
    table
}

} // verus!

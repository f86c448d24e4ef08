//! The set of program names, kept in the order of names.

use crate::text::{
    compare_names, lemma_name_lt_strict, lemma_name_lt_transitive, lemma_precedence_flip,
    lemma_precedence_same, name_lt, texts, Precedence,
};
use vstd::prelude::*;

verus! {

/// Whether each name of `s` comes before every later one. Such a sequence
/// holds no name twice.
pub open spec fn strictly_sorted(s: Seq<Seq<char>>) -> bool {
    forall|i: int, j: int| 0 <= i < j < s.len() ==> name_lt(#[trigger] s[i], #[trigger] s[j])
}

/// A sorted sequence holds `name` at most once, and a name that stands
/// between two neighbours is not in it.
pub proof fn lemma_sorted_gap(s: Seq<Seq<char>>, at: int, name: Seq<char>)
    requires
        strictly_sorted(s),
        0 <= at <= s.len(),
        forall|j: int| 0 <= j < at ==> name_lt(#[trigger] s[j], name),
        at < s.len() ==> name_lt(name, s[at]),
    ensures
        !s.contains(name),
        strictly_sorted(s.insert(at, name)),
{
    assert forall|j: int| 0 <= j < s.len() implies s[j] != name by {
        if j < at {
            lemma_name_lt_strict(s[j], name);
        } else {
            if j > at {
                lemma_name_lt_transitive(name, s[at], s[j]);
            }
            lemma_name_lt_strict(name, s[j]);
        }
    }
    let t = s.insert(at, name);
    assert forall|i: int, j: int| 0 <= i < j < t.len() implies name_lt(
        #[trigger] t[i],
        #[trigger] t[j],
    ) by {
        if j < at {
            assert(t[i] == s[i] && t[j] == s[j]);
        } else if j == at {
            assert(t[i] == s[i]);
        } else if i < at {
            assert(t[i] == s[i] && t[j] == s[j - 1]);
            if j - 1 == at {
                lemma_name_lt_transitive(s[i], name, s[at]);
            }
        } else if i == at {
            assert(t[j] == s[j - 1]);
            if j - 1 > at {
                lemma_name_lt_transitive(name, s[at], s[j - 1]);
            }
        } else {
            assert(t[i] == s[i - 1] && t[j] == s[j - 1]);
        }
    }
}

/// Two sorted sequences that hold the same names are the same sequence.
pub proof fn lemma_sorted_unique(a: Seq<Seq<char>>, b: Seq<Seq<char>>)
    requires
        strictly_sorted(a),
        strictly_sorted(b),
        a.to_set() == b.to_set(),
    ensures
        a == b,
    decreases a.len(),
{
    if a.len() == 0 {
        if b.len() > 0 {
            assert(b.to_set().contains(b[0]));
            assert(a.contains(b[0]));
        }
        assert(a =~= b);
    } else {
        assert(a.to_set().contains(a[0]));
        assert(b.contains(a[0]));
        let k = choose|k: int| 0 <= k < b.len() && b[k] == a[0];
        assert(b.to_set().contains(b[0]));
        assert(a.contains(b[0]));
        let m = choose|m: int| 0 <= m < a.len() && a[m] == b[0];
        if k > 0 {
            if m > 0 {
                lemma_name_lt_strict(a[0], a[m]);
            } else {
                lemma_name_lt_strict(b[0], b[k]);
            }
        }
        assert(a[0] == b[0]);
        let ta = a.drop_first();
        let tb = b.drop_first();
        assert forall|x: Seq<char>| ta.to_set().contains(x) <==> tb.to_set().contains(x) by {
            if ta.contains(x) {
                let i = choose|i: int| 0 <= i < ta.len() && ta[i] == x;
                assert(a[i + 1] == x);
                lemma_name_lt_strict(a[0], a[i + 1]);
                assert(a.to_set().contains(x));
                assert(b.contains(x));
                let j = choose|j: int| 0 <= j < b.len() && b[j] == x;
                assert(tb[j - 1] == x);
            }
            if tb.contains(x) {
                let i = choose|i: int| 0 <= i < tb.len() && tb[i] == x;
                assert(b[i + 1] == x);
                lemma_name_lt_strict(b[0], b[i + 1]);
                assert(b.to_set().contains(x));
                assert(a.contains(x));
                let j = choose|j: int| 0 <= j < a.len() && a[j] == x;
                assert(ta[j - 1] == x);
            }
        }
        assert(ta.to_set() =~= tb.to_set());
        assert forall|i: int, j: int| 0 <= i < j < ta.len() implies name_lt(
            #[trigger] ta[i],
            #[trigger] ta[j],
        ) by {
            assert(ta[i] == a[i + 1] && ta[j] == a[j + 1]);
        }
        assert forall|i: int, j: int| 0 <= i < j < tb.len() implies name_lt(
            #[trigger] tb[i],
            #[trigger] tb[j],
        ) by {
            assert(tb[i] == b[i + 1] && tb[j] == b[j + 1]);
        }
        lemma_sorted_unique(ta, tb);
        assert(a =~= seq![a[0]] + ta);
        assert(b =~= seq![b[0]] + tb);
    }
}

/// Looks `name` up in a sorted vector of names. The first component is the
/// place of `name` where the vector holds it, else the place at which it
/// would have to be put; the second says whether the vector holds it.
pub(crate) fn locate(names: &Vec<String>, name: &str) -> (r: (usize, bool))
    requires
        strictly_sorted(texts(names@)),
    ensures
        r.0 <= names@.len(),
        forall|j: int| 0 <= j < r.0 ==> name_lt(#[trigger] texts(names@)[j], name@),
        r.1 ==> r.0 < names@.len() && texts(names@)[r.0 as int] == name@,
        !r.1 && r.0 < names@.len() ==> name_lt(name@, texts(names@)[r.0 as int]),
        r.1 == texts(names@).contains(name@),
{
    let n: usize = names.len();
    let mut i: usize = 0;
    while i < n
        invariant
            n == names@.len(),
            i <= n,
            strictly_sorted(texts(names@)),
            forall|j: int| 0 <= j < i ==> name_lt(#[trigger] texts(names@)[j], name@),
        decreases n - i,
    {
        let order = compare_names(names[i].as_str(), name);
        proof {
            lemma_precedence_same(names@[i as int]@, name@);
            lemma_precedence_flip(names@[i as int]@, name@);
        }
        match order {
            Precedence::Before => {},
            Precedence::Same => {
                assert(texts(names@)[i as int] == name@);
                return (i, true);
            },
            Precedence::After => {
                proof {
                    lemma_sorted_gap(texts(names@), i as int, name@);
                }
                return (i, false);
            },
        }
        i = i + 1;
    }
    proof {
        lemma_sorted_gap(texts(names@), n as int, name@);
    }
    (n, false)
}

/// A set of program names. It holds no name twice, and hands its names out
/// in the order of names.
#[derive(Debug, PartialEq, Eq)]
pub struct FetchSet {
    names: Vec<String>,
}

impl View for FetchSet {
    type V = Seq<Seq<char>>;

    /// The names of the set, in the order in which it hands them out.
    closed spec fn view(&self) -> Seq<Seq<char>> {
        texts(self.names@)
    }
}

impl FetchSet {
    /// The set is well formed: its names stand in the order of names, each
    /// once. Every set that the program holds is.
    #[verifier::type_invariant]
    pub open spec fn wf(&self) -> bool {
        strictly_sorted(self@)
    }

    /// The names of the set, as a set.
    pub open spec fn as_set(&self) -> Set<Seq<char>> {
        self@.to_set()
    }

    /// The empty set.
    pub fn new() -> (r: Self)
        ensures
            r.wf(),
            r@ == Seq::<Seq<char>>::empty(),
    {
        let r = FetchSet { names: Vec::new() };
        assert(r@ =~= Seq::<Seq<char>>::empty());
        r
    }

    /// The number of names in the set.
    pub fn len(&self) -> (r: usize)
        ensures
            r == self@.len(),
    {
        self.names.len()
    }

    /// Whether the set holds no name.
    pub fn is_empty(&self) -> (r: bool)
        ensures
            r == (self@.len() == 0),
    {
        self.names.len() == 0
    }

    /// Whether the set holds `name`.
    pub fn contains(&self, name: &str) -> (r: bool)
        ensures
            r == self.as_set().contains(name@),
    {
        proof {
            use_type_invariant(self);
        }
        let (_, found) = locate(&self.names, name);
        found
    }

    /// The names of the set, in the order of names.
    pub fn names(&self) -> (r: &Vec<String>)
        ensures
            self.wf(),
            texts(r@) == self@,
    {
        proof {
            use_type_invariant(self);
        }
        &self.names
    }

    /// Puts `name` into the set and says where it stands afterwards, and
    /// whether it was new.
    pub fn place(&mut self, name: String) -> (r: (usize, bool))
        ensures
            final(self).wf(),
            r.1 == !old(self)@.contains(name@),
            r.0 <= old(self)@.len(),
            r.0 < final(self)@.len(),
            final(self)@[r.0 as int] == name@,
            r.1 ==> final(self)@ == old(self)@.insert(r.0 as int, name@),
            !r.1 ==> final(self)@ == old(self)@,
    {
        proof {
            use_type_invariant(&*self);
        }
        let (at, found) = locate(&self.names, name.as_str());
        if !found {
            proof {
                lemma_sorted_gap(self@, at as int, name@);
            }
            let ghost before = self.names@;
            let mut names: Vec<String> = Vec::new();
            std::mem::swap(&mut names, &mut self.names);
            names.insert(at, name);
            assert(texts(names@) =~= texts(before).insert(at as int, name@));
            self.names = names;
        }
        (at, !found)
    }

    /// Puts `name` into the set. Says whether it was new.
    pub fn insert(&mut self, name: String) -> (r: bool)
        ensures
            final(self).wf(),
            final(self).as_set() == old(self).as_set().insert(name@),
            r == !old(self).as_set().contains(name@),
            final(self)@.len() == old(self)@.len() + if r { 1int } else { 0 },
    {
        let (at, fresh) = self.place(name);
        proof {
            let before = old(self)@;
            let after = self@;
            if fresh {
                assert(after == before.insert(at as int, name@));
                assert(after.len() == before.len() + 1);
                assert forall|x: Seq<char>| after.contains(x) <==> (before.contains(x) || x
                    == name@) by {
                    if after.contains(x) {
                        let i = choose|i: int| 0 <= i < after.len() && after[i] == x;
                        if i < at {
                            assert(before[i] == x);
                        } else if i > at {
                            assert(before[i - 1] == x);
                        }
                    }
                    if before.contains(x) {
                        let i = choose|i: int| 0 <= i < before.len() && before[i] == x;
                        if i < at {
                            assert(after[i] == x);
                        } else {
                            assert(after[i + 1] == x);
                        }
                    }
                    if x == name@ {
                        assert(after[at as int] == x);
                    }
                }
            }
            assert(after.to_set() =~= before.to_set().insert(name@));
        }
        fresh
    }
}

/// A well-formed set holds no name twice, so it has as many names as it
/// hands out.
pub proof fn lemma_fetch_set_distinct(a: FetchSet)
    requires
        a.wf(),
    ensures
        a@.no_duplicates(),
        a.as_set().finite(),
        a.as_set().len() == a@.len(),
{
    assert forall|i: int, j: int| 0 <= i < a@.len() && 0 <= j < a@.len() && i != j implies a@[i]
        != a@[j] by {
        if i < j {
            lemma_name_lt_strict(a@[i], a@[j]);
        } else {
            lemma_name_lt_strict(a@[j], a@[i]);
        }
    }
    a@.unique_seq_to_set();
    vstd::seq_lib::seq_to_set_is_finite(a@);
}

/// A well-formed set is known by the names it holds: two that hold the same
/// names hand them out in the same order.
pub proof fn lemma_fetch_set_canonical(a: FetchSet, b: FetchSet)
    requires
        a.wf(),
        b.wf(),
        a.as_set() == b.as_set(),
    ensures
        a@ == b@,
{
    lemma_sorted_unique(a@, b@);
}

} // verus!

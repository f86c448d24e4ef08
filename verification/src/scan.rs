//! The scanner: which fetch programs the directories of the search path
//! hold.

use crate::names::{lemma_fetch_set_canonical, FetchSet};
use crate::text::{ends_with_fetch, is_fetch_name};
use vstd::prelude::*;

verus! {

/// What kind of thing a directory entry is.
#[derive(Clone, Copy, Debug, PartialEq, Eq, Structural)]
pub enum EntryKind {
    /// A regular file.
    RegularFile,
    /// A directory, a symbolic link or a special file.
    Other,
    /// The kind of the entry could not be found out.
    Unknown,
}

/// One entry of a directory, as it was read. An entry that could not be
/// read has no name and an unknown kind.
#[derive(Debug, PartialEq, Eq)]
pub struct DirEntry {
    /// The file name; none where it is no text.
    pub name: Option<String>,
    /// The kind of the entry.
    pub kind: EntryKind,
}

/// The entries that were read from one directory of the search path.
#[derive(Debug, PartialEq, Eq)]
pub struct DirListing {
    /// The path of the directory, as the search path gives it.
    pub path: String,
    /// The direct children of the directory; none where it could not be
    /// listed.
    pub entries: Option<Vec<DirEntry>>,
}

/// What the scanner makes of one directory entry.
#[derive(Debug, PartialEq, Eq)]
pub enum EntryOutcome {
    /// A regular file whose name ends with the fetch suffix.
    Qualifies(String),
    /// Not a regular file, or a name without the fetch suffix.
    Excluded,
    /// The kind is unknown, or the name of a regular file is no text.
    Unclassifiable,
}

/// A directory of the search path could not be listed.
#[derive(Debug, PartialEq, Eq)]
pub struct ScanError {
    /// The place of the directory in the search path.
    pub index: usize,
    /// The path of the directory.
    pub path: String,
}

/// The name under which `entry` counts as a fetch program: it is a regular
/// file, and its name is text that ends with the fetch suffix.
pub open spec fn qualifying_name(entry: DirEntry) -> Option<Seq<char>> {
    match entry.name {
        Some(name) => if entry.kind == EntryKind::RegularFile && is_fetch_name(name@) {
            Some(name@)
        } else {
            None
        },
        None => None,
    }
}

/// Whether `entry` is passed over because it cannot be judged.
pub open spec fn is_unclassifiable(entry: DirEntry) -> bool {
    entry.kind == EntryKind::Unknown || (entry.kind == EntryKind::RegularFile
        && entry.name is None)
}

/// The names under which the entries of one directory count.
pub open spec fn listing_names(entries: Seq<DirEntry>) -> Set<Seq<char>> {
    Set::new(
        |name: Seq<char>|
            exists|e: int|
                0 <= e < entries.len() && qualifying_name(#[trigger] entries[e]) == Some(name),
    )
}

/// The names under which the entries of all listed directories count. There
/// is no descent into a directory of a directory.
pub open spec fn scanned_names(dirs: Seq<DirListing>) -> Set<Seq<char>> {
    Set::new(
        |name: Seq<char>|
            exists|d: int|
                0 <= d < dirs.len() && (#[trigger] dirs[d]).entries is Some && listing_names(
                    dirs[d].entries->0@,
                ).contains(name),
    )
}

/// What a scan of `dirs` gives. Where every directory could be listed it is
/// the set of the names under which their entries count. Else it is the
/// error that names the first directory that could not be listed.
pub open spec fn is_scan_of(dirs: Seq<DirListing>, r: Result<FetchSet, ScanError>) -> bool {
    match r {
        Ok(found) => {
            &&& forall|d: int| 0 <= d < dirs.len() ==> (#[trigger] dirs[d]).entries is Some
            &&& found.wf()
            &&& found.as_set() == scanned_names(dirs)
        },
        Err(e) => {
            &&& e.index < dirs.len()
            &&& dirs[e.index as int].entries is None
            &&& forall|d: int| 0 <= d < e.index ==> (#[trigger] dirs[d]).entries is Some
            &&& e.path@ == dirs[e.index as int].path@
        },
    }
}

/// Scanning is idempotent: two scans of the same directories end alike.
/// Both find the same names, in the same order, or both fail at the same
/// directory.
pub proof fn lemma_scan_idempotent(
    dirs: Seq<DirListing>,
    first: Result<FetchSet, ScanError>,
    second: Result<FetchSet, ScanError>,
)
    requires
        is_scan_of(dirs, first),
        is_scan_of(dirs, second),
    ensures
        first is Ok <==> second is Ok,
        first is Ok ==> first->Ok_0@ == second->Ok_0@,
        first is Err ==> first->Err_0.index == second->Err_0.index && first->Err_0.path@
            == second->Err_0.path@,
{
    match (first, second) {
        (Ok(a), Ok(b)) => {
            lemma_fetch_set_canonical(a, b);
        },
        (Ok(_), Err(e)) => {
            assert(dirs[e.index as int].entries is Some);
        },
        (Err(e), Ok(_)) => {
            assert(dirs[e.index as int].entries is Some);
        },
        (Err(e), Err(f)) => {
            if e.index < f.index {
                assert(dirs[e.index as int].entries is Some);
            } else if f.index < e.index {
                assert(dirs[f.index as int].entries is Some);
            }
        },
    }
}

/// Judges one directory entry.
pub fn classify(entry: &DirEntry) -> (r: EntryOutcome)
    ensures
        match r {
            EntryOutcome::Qualifies(name) => qualifying_name(*entry) == Some(name@),
            EntryOutcome::Excluded => qualifying_name(*entry) is None && !is_unclassifiable(
                *entry,
            ),
            EntryOutcome::Unclassifiable => is_unclassifiable(*entry),
        },
{
    match entry.kind {
        EntryKind::Unknown => EntryOutcome::Unclassifiable,
        EntryKind::Other => EntryOutcome::Excluded,
        EntryKind::RegularFile => match &entry.name {
            None => EntryOutcome::Unclassifiable,
            Some(name) => {
                if ends_with_fetch(name.as_str()) {
                    EntryOutcome::Qualifies(name.clone())
                } else {
                    EntryOutcome::Excluded
                }
            },
        },
    }
}

/// Puts the fetch programs among `entries` into `found`.
pub fn collect_fetches(entries: &Vec<DirEntry>, found: &mut FetchSet)
    requires
        old(found).wf(),
    ensures
        final(found).wf(),
        final(found).as_set() == old(found).as_set().union(listing_names(entries@)),
{
    let n: usize = entries.len();
    let mut i: usize = 0;
    proof {
        assert(listing_names(entries@.take(0)) =~= Set::<Seq<char>>::empty());
        assert(found.as_set().union(Set::<Seq<char>>::empty()) =~= found.as_set());
    }
    while i < n
        invariant
            n == entries@.len(),
            i <= n,
            found.wf(),
            found.as_set() == old(found).as_set().union(listing_names(entries@.take(i as int))),
        decreases n - i,
    {
        let outcome = classify(&entries[i]);
        proof {
            lemma_listing_names_step(entries@, i as int);
        }
        match outcome {
            EntryOutcome::Qualifies(name) => {
                found.insert(name);
                assert(found.as_set() =~= old(found).as_set().union(
                    listing_names(entries@.take(i + 1)),
                ));
            },
            _ => {},
        }
        i = i + 1;
    }
    proof {
        assert(entries@.take(n as int) =~= entries@);
    }
}

/// One more entry adds the name under which it counts, if it counts.
proof fn lemma_listing_names_step(entries: Seq<DirEntry>, i: int)
    requires
        0 <= i < entries.len(),
    ensures
        listing_names(entries.take(i + 1)) == match qualifying_name(entries[i]) {
            Some(name) => listing_names(entries.take(i)).insert(name),
            None => listing_names(entries.take(i)),
        },
{
    let shorter = entries.take(i);
    let longer = entries.take(i + 1);
    let expected = match qualifying_name(entries[i]) {
        Some(name) => listing_names(shorter).insert(name),
        None => listing_names(shorter),
    };
    assert forall|name: Seq<char>| listing_names(longer).contains(name) <==> expected.contains(
        name,
    ) by {
        if listing_names(longer).contains(name) {
            let e = choose|e: int|
                0 <= e < longer.len() && qualifying_name(#[trigger] longer[e]) == Some(name);
            if e < i {
                assert(shorter[e] == longer[e]);
            } else {
                assert(longer[e] == entries[i]);
            }
        }
        if listing_names(shorter).contains(name) {
            let e = choose|e: int|
                0 <= e < shorter.len() && qualifying_name(#[trigger] shorter[e]) == Some(name);
            assert(longer[e] == shorter[e]);
        }
        if qualifying_name(entries[i]) == Some(name) {
            assert(longer[i] == entries[i]);
        }
    }
    assert(listing_names(longer) =~= expected);
}

/// One more listed directory adds the names of its entries.
proof fn lemma_scanned_names_step(dirs: Seq<DirListing>, d: int)
    requires
        0 <= d < dirs.len(),
        dirs[d].entries is Some,
    ensures
        scanned_names(dirs.take(d + 1)) == scanned_names(dirs.take(d)).union(
            listing_names(dirs[d].entries->0@),
        ),
{
    let shorter = dirs.take(d);
    let longer = dirs.take(d + 1);
    let added = listing_names(dirs[d].entries->0@);
    assert forall|name: Seq<char>| scanned_names(longer).contains(name) <==> (scanned_names(
        shorter,
    ).contains(name) || added.contains(name)) by {
        if scanned_names(longer).contains(name) {
            let k = choose|k: int|
                0 <= k < longer.len() && (#[trigger] longer[k]).entries is Some && listing_names(
                    longer[k].entries->0@,
                ).contains(name);
            if k < d {
                assert(shorter[k] == longer[k]);
            } else {
                assert(longer[k] == dirs[d]);
            }
        }
        if scanned_names(shorter).contains(name) {
            let k = choose|k: int|
                0 <= k < shorter.len() && (#[trigger] shorter[k]).entries is Some
                    && listing_names(shorter[k].entries->0@).contains(name);
            assert(longer[k] == shorter[k]);
        }
        if added.contains(name) {
            assert(longer[d] == dirs[d]);
        }
    }
    assert(scanned_names(longer) =~= scanned_names(shorter).union(added));
}

/// Finds the fetch programs in the directories of the search path: the
/// names of the regular files, directly in one of the directories, that end
/// with the fetch suffix. The scan fails at the first directory that could
/// not be listed.
pub fn find_fetches(dirs: &Vec<DirListing>) -> (r: Result<FetchSet, ScanError>)
    ensures
        is_scan_of(dirs@, r),
{
    let mut found = FetchSet::new();
    let n: usize = dirs.len();
    let mut d: usize = 0;
    proof {
        assert(scanned_names(dirs@.take(0)) =~= Set::<Seq<char>>::empty());
        assert(found.as_set() =~= Set::<Seq<char>>::empty());
    }
    while d < n
        invariant
            n == dirs@.len(),
            d <= n,
            found.wf(),
            found.as_set() == scanned_names(dirs@.take(d as int)),
            forall|k: int| 0 <= k < d ==> (#[trigger] dirs@[k]).entries is Some,
        decreases n - d,
    {
        match &dirs[d].entries {
            None => {
                return Err(ScanError { index: d, path: dirs[d].path.clone() });
            },
            Some(entries) => {
                proof {
                    lemma_scanned_names_step(dirs@, d as int);
                }
                collect_fetches(entries, &mut found);
            },
        }
        d = d + 1;
    }
    proof {
        assert(dirs@.take(n as int) =~= dirs@);
    }
    Ok(found)
}

} // verus!

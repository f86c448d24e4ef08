//! What the program is told at its start: the search path and the home
//! directory of the user, and what follows from them.

use crate::text::{chars_of, join, texts};
use vstd::prelude::*;

verus! {

/// The variable of the environment that holds the search path.
pub const SEARCH_PATH_VARIABLE: &'static str = "PATH";

/// Something that the program has to be told is missing.
#[derive(Clone, Copy, Debug, PartialEq, Eq, Structural)]
pub enum ConfigError {
    /// The search path variable is not set.
    MissingSearchPath,
    /// The user has no home directory.
    MissingHomeDirectory,
}

/// The separator between the directories of a search path.
pub open spec fn path_separator() -> Seq<char> {
    seq![':']
}

/// Whether `dirs` are the directories that the search path `value` lists:
/// no directory holds a colon, and with a colon between each two of them
/// they make up `value`. An empty value lists one directory, the empty one.
pub open spec fn is_split_of(dirs: Seq<Seq<char>>, value: Seq<char>) -> bool {
    &&& dirs.len() >= 1
    &&& forall|i: int| 0 <= i < dirs.len() ==> !(#[trigger] dirs[i]).contains(':')
    &&& join(dirs, path_separator()) == value
}

proof fn lemma_join_push(parts: Seq<Seq<char>>, last: Seq<char>, sep: Seq<char>)
    ensures
        join(parts.push(last), sep) == if parts.len() == 0 {
            last
        } else {
            join(parts, sep) + sep + last
        },
{
    let all = parts.push(last);
    assert(all.drop_last() =~= parts);
    assert(all.last() == last);
    if parts.len() == 0 {
        assert(all[0] == last);
    }
}

/// A search path lists its directories in one way only.
pub proof fn lemma_split_unique(a: Seq<Seq<char>>, b: Seq<Seq<char>>, value: Seq<char>)
    requires
        is_split_of(a, value),
        is_split_of(b, value),
    ensures
        a == b,
    decreases a.len(),
{
    let sep = path_separator();
    if a.len() > 1 && b.len() > 1 {
        let head_a = join(a.drop_last(), sep);
        let head_b = join(b.drop_last(), sep);
        let last_a = a.last();
        let last_b = b.last();
        assert(value == head_a + sep + last_a);
        assert(value == head_b + sep + last_b);
        assert(value.len() == head_a.len() + 1 + last_a.len());
        assert(value.len() == head_b.len() + 1 + last_b.len());
        // The colon before the shorter of the two last directories would
        // lie in the longer one.
        if last_a.len() < last_b.len() {
            let at = head_a.len() as int;
            assert(value[at] == ':');
            assert(last_b[at - head_b.len() - 1] == value[at]);
        } else if last_b.len() < last_a.len() {
            let at = head_b.len() as int;
            assert(value[at] == ':');
            assert(last_a[at - head_a.len() - 1] == value[at]);
        }
        assert(last_a =~= last_b) by {
            assert forall|i: int| 0 <= i < last_a.len() implies last_a[i] == last_b[i] by {
                assert(last_a[i] == value[head_a.len() + 1 + i]);
                assert(last_b[i] == value[head_b.len() + 1 + i]);
            }
        }
        assert(head_a =~= head_b) by {
            assert forall|i: int| 0 <= i < head_a.len() implies head_a[i] == head_b[i] by {
                assert(head_a[i] == value[i]);
                assert(head_b[i] == value[i]);
            }
        }
        assert forall|i: int| 0 <= i < a.len() - 1 implies !(#[trigger] a.drop_last()[i]).contains(
            ':',
        ) by {
            assert(a.drop_last()[i] == a[i]);
        }
        assert forall|i: int| 0 <= i < b.len() - 1 implies !(#[trigger] b.drop_last()[i]).contains(
            ':',
        ) by {
            assert(b.drop_last()[i] == b[i]);
        }
        lemma_split_unique(a.drop_last(), b.drop_last(), head_a);
        assert(a =~= a.drop_last().push(last_a));
        assert(b =~= b.drop_last().push(last_b));
    } else if b.len() > 1 {
        // The one directory of `a` would hold the last colon of `b`.
        let at = join(b.drop_last(), sep).len() as int;
        assert(value[at] == ':');
        assert(a[0][at] == ':');
    } else if a.len() > 1 {
        let at = join(a.drop_last(), sep).len() as int;
        assert(value[at] == ':');
        assert(b[0][at] == ':');
    } else {
        assert(a =~= b);
    }
}

/// Splits the value of the search path variable into its directories.
pub fn split_search_path(value: &str) -> (r: Vec<String>)
    ensures
        is_split_of(texts(r@), value@),
{
    let chars = chars_of(value);
    let n: usize = chars.len();
    let mut out: Vec<String> = Vec::new();
    let mut start: usize = 0;
    let mut i: usize = 0;
    proof {
        lemma_join_push(texts(out@), value@.subrange(0, 0), path_separator());
        assert(value@.subrange(0, 0) =~= value@.take(0));
    }
    while i < n
        invariant
            n == chars@.len(),
            chars@ == value@,
            start <= i <= n,
            forall|k: int| 0 <= k < out@.len() ==> !(#[trigger] texts(out@)[k]).contains(':'),
            forall|k: int| start <= k < i ==> value@[k] != ':',
            join(texts(out@).push(value@.subrange(start as int, i as int)), path_separator())
                == value@.take(i as int),
        decreases n - i,
    {
        let ghost done = texts(out@);
        let ghost piece = value@.subrange(start as int, i as int);
        proof {
            lemma_join_push(done, piece, path_separator());
        }
        if chars[i] == ':' {
            let dir = String::from_str(value.substring_char(start, i));
            out.push(dir);
            start = i + 1;
            proof {
                let empty = value@.subrange(start as int, start as int);
                assert(texts(out@) =~= done.push(piece));
                lemma_join_push(texts(out@), empty, path_separator());
                assert(value@.take(i as int) + path_separator() + empty =~= value@.take(i + 1));
                assert forall|k: int| 0 <= k < out@.len() implies !(#[trigger] texts(
                    out@,
                )[k]).contains(':') by {
                    if k == out@.len() - 1 {
                        assert(texts(out@)[k] == piece);
                        assert forall|j: int| 0 <= j < piece.len() implies piece[j] != ':' by {
                            assert(piece[j] == value@[start - 1 - piece.len() + j]);
                        }
                    } else {
                        assert(texts(out@)[k] == done[k]);
                    }
                }
            }
        } else {
            proof {
                let longer = value@.subrange(start as int, i + 1);
                assert(longer =~= piece.push(value@[i as int]));
                lemma_join_push(done, longer, path_separator());
                if done.len() == 0 {
                    assert(longer =~= value@.take(i + 1));
                } else {
                    assert(join(done, path_separator()) + path_separator() + longer
                        =~= value@.take(i + 1));
                }
            }
        }
        i = i + 1;
    }
    let ghost done = texts(out@);
    let ghost piece = value@.subrange(start as int, n as int);
    let dir = String::from_str(value.substring_char(start, n));
    out.push(dir);
    proof {
        assert(texts(out@) =~= done.push(piece));
        assert(value@.take(n as int) =~= value@);
        assert forall|k: int| 0 <= k < out@.len() implies !(#[trigger] texts(out@)[k]).contains(
            ':',
        ) by {
            if k == out@.len() - 1 {
                assert(texts(out@)[k] == piece);
                assert forall|j: int| 0 <= j < piece.len() implies piece[j] != ':' by {
                    assert(piece[j] == value@[start + j]);
                }
            } else {
                assert(texts(out@)[k] == done[k]);
            }
        }
    }
    out
}

/// The directories of the search path. `value` is what the search path
/// variable holds, none where it is not set: that is an error.
pub fn get_paths(value: Option<&str>) -> (r: Result<Vec<String>, ConfigError>)
    ensures
        match value {
            Some(v) => r matches Ok(dirs) && is_split_of(texts(dirs@), v@),
            None => r == Err::<Vec<String>, ConfigError>(ConfigError::MissingSearchPath),
        },
{
    match value {
        Some(v) => Ok(split_search_path(v)),
        None => Err(ConfigError::MissingSearchPath),
    }
}

/// The name of the history log. It lies directly in the home directory.
pub const HISTORY_FILE_NAME: &'static str = ".bash_history";

/// The path of the history log of the user whose home directory is `home`:
/// the name of the log under `home`, with a slash between the two unless
/// `home` is empty or ends with one.
pub open spec fn history_path(home: Seq<char>) -> Seq<char> {
    if home.len() == 0 || home.last() == '/' {
        home + HISTORY_FILE_NAME@
    } else {
        home.push('/') + HISTORY_FILE_NAME@
    }
}

/// The path of the history log under the home directory `home`.
pub fn history_file_in(home: &str) -> (r: String)
    ensures
        r@ == history_path(home@),
{
    let chars = chars_of(home);
    let n: usize = chars.len();
    let mut out = String::from_str(home);
    if n > 0 && chars[n - 1] != '/' {
        proof {
            reveal_strlit("/");
            assert(home@.push('/') =~= home@ + "/"@);
        }
        out.append("/");
    }
    out.append(HISTORY_FILE_NAME);
    out
}

/// The path of the history log, given the home directory of the user; none
/// where the user has no home directory: that is an error.
pub fn history_file_for(home: Option<String>) -> (r: Result<String, ConfigError>)
    ensures
        match home {
            Some(h) => r matches Ok(path) && path@ == history_path(h@),
            None => r == Err::<String, ConfigError>(ConfigError::MissingHomeDirectory),
        },
{
    match home {
        Some(h) => Ok(history_file_in(h.as_str())),
        None => Err(ConfigError::MissingHomeDirectory),
    }
}

/// Asks `dirs::home_dir` for the home directory of the user and hands its
/// path out as text, none where `dirs::home_dir` gives none. Nothing is
/// claimed of the answer: it depends on the environment of the process.
#[verifier::external_body]
fn home_dir() -> (r: Option<String>) {
    match dirs::home_dir() {
        Some(path) => Some(path.to_string_lossy().into_owned()),
        None => None,
    }
}

/// The path of the history log of the user who runs the program. Which home
/// directory the user has is for the system to say; the path is the one
/// that `history_file_for` gives for it.
pub fn find_history_file() -> (r: Result<String, ConfigError>)
    ensures
        match r {
            Ok(path) => exists|home: Seq<char>| path@ == history_path(home),
            Err(e) => e == ConfigError::MissingHomeDirectory,
        },
{
    let home = home_dir();
    let ghost asked = home;
    let r = history_file_for(home);
    proof {
        if let Some(h) = asked {
            assert(r->Ok_0@ == history_path(h@));
        }
    }
    r
}

} // verus!

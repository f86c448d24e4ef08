//! What the system says of itself: the name of the distribution and the
//! time it has been up.

use crate::text::{chars_of, texts, trim_end, trim_trailing_whitespace};
use vstd::prelude::*;

verus! {

/// The release file of the distribution, whose lines `get_distro` takes.
pub const RELEASE_FILE: &'static str = "/etc/os-release";

/// The command that reports the time the system has been up.
pub const UPTIME_COMMAND: &'static str = "uptime";

/// The flag that asks the uptime command for its readable form.
pub const UPTIME_FLAG: &'static str = "-p";

/// Why the name of the distribution could not be had.
#[derive(Clone, Copy, Debug, PartialEq, Eq, Structural)]
pub enum DistroError {
    /// No line has the key `NAME`.
    NoNameLine,
    /// The first line with the key `NAME` is too short to hold a quoted
    /// value.
    MalformedNameLine,
}

/// Why the time that the system has been up could not be had.
#[derive(Clone, Copy, Debug, PartialEq, Eq, Structural)]
pub enum UptimeError {
    /// The command could not be started.
    NotStarted,
    /// The command ended with a failure.
    Failed,
}

/// How the run of a command ended.
#[derive(Debug, PartialEq, Eq)]
pub enum CommandRun {
    /// The command could not be started.
    NotStarted,
    /// The command ran to its end.
    Finished {
        /// Whether it ended with success.
        success: bool,
        /// What it wrote to its standard output.
        stdout: String,
    },
}

/// The start of the line that names the distribution: the key `NAME` and
/// the equals sign.
pub open spec fn name_key() -> Seq<char> {
    seq!['N', 'A', 'M', 'E', '=']
}

/// Whether the key of `line` is `NAME`.
pub open spec fn is_name_line(line: Seq<char>) -> bool {
    line.len() >= 5 && line.take(5) == name_key()
}

/// The place of the first line at or after `from` whose key is `NAME`, or
/// the number of lines where there is none.
pub open spec fn name_line_from(lines: Seq<Seq<char>>, from: int) -> int
    decreases lines.len() - from,
{
    if 0 <= from < lines.len() && !is_name_line(lines[from]) {
        name_line_from(lines, from + 1)
    } else {
        from
    }
}

/// The value between the quotes of a line `NAME="..."`: the line without
/// its first six characters and without its last. What stands at those
/// places is not looked at.
pub open spec fn quoted_value(line: Seq<char>) -> Seq<char> {
    line.subrange(6, line.len() - 1)
}

/// The name of the distribution that the lines of the release file give:
/// the quoted value of the first line whose key is `NAME`.
pub open spec fn distro_of(lines: Seq<Seq<char>>) -> Result<Seq<char>, DistroError> {
    let at = name_line_from(lines, 0);
    if at >= lines.len() {
        Err(DistroError::NoNameLine)
    } else if lines[at].len() < 7 {
        Err(DistroError::MalformedNameLine)
    } else {
        Ok(quoted_value(lines[at]))
    }
}

/// Where the first line with the key `NAME` lies: no line before it has
/// that key.
pub proof fn lemma_name_line(lines: Seq<Seq<char>>, from: int)
    requires
        0 <= from <= lines.len(),
    ensures
        from <= name_line_from(lines, from) <= lines.len(),
        forall|i: int| from <= i < name_line_from(lines, from) ==> !is_name_line(#[trigger] lines[i]),
        name_line_from(lines, from) < lines.len() ==> is_name_line(
            lines[name_line_from(lines, from)],
        ),
    decreases lines.len() - from,
{
    if from < lines.len() && !is_name_line(lines[from]) {
        lemma_name_line(lines, from + 1);
    }
}

/// Decides whether the key of `line` is `NAME`.
fn has_name_key(line: &Vec<char>) -> (r: bool)
    ensures
        r == is_name_line(line@),
{
    if line.len() < 5 {
        return false;
    }
    let r = line[0] == 'N' && line[1] == 'A' && line[2] == 'M' && line[3] == 'E' && line[4] == '=';
    proof {
        let head = line@.take(5);
        if r {
            assert(head =~= name_key());
        } else {
            assert(head[0] == line@[0]);
            assert(head[1] == line@[1]);
            assert(head[2] == line@[2]);
            assert(head[3] == line@[3]);
            assert(head[4] == line@[4]);
        }
    }
    r
}

/// The name of the distribution, from the lines of the release file.
pub fn get_distro(lines: &Vec<String>) -> (r: Result<String, DistroError>)
    ensures
        match r {
            Ok(name) => distro_of(texts(lines@)) == Ok::<Seq<char>, DistroError>(name@),
            Err(e) => distro_of(texts(lines@)) == Err::<Seq<char>, DistroError>(e),
        },
{
    let n: usize = lines.len();
    let mut i: usize = 0;
    while i < n
        invariant
            n == lines@.len(),
            i <= n,
            name_line_from(texts(lines@), 0) == name_line_from(texts(lines@), i as int),
        decreases n - i,
    {
        let line = lines[i].as_str();
        let chars = chars_of(line);
        assert(texts(lines@)[i as int] == chars@);
        if has_name_key(&chars) {
            let len: usize = chars.len();
            if len < 7 {
                return Err(DistroError::MalformedNameLine);
            }
            return Ok(String::from_str(line.substring_char(6, len - 1)));
        }
        i = i + 1;
    }
    Err(DistroError::NoNameLine)
}

/// The time that the system has been up, from the run of the command that
/// reports it: what the command wrote, without the white space at its end.
pub fn get_uptime(run: &CommandRun) -> (r: Result<String, UptimeError>)
    ensures
        match *run {
            CommandRun::NotStarted => r == Err::<String, UptimeError>(UptimeError::NotStarted),
            CommandRun::Finished { success, stdout } => if success {
                r matches Ok(text) && text@ == trim_end(stdout@)
            } else {
                r == Err::<String, UptimeError>(UptimeError::Failed)
            },
        },
{
    match run {
        CommandRun::NotStarted => Err(UptimeError::NotStarted),
        CommandRun::Finished { success, stdout } => {
            if *success {
                Ok(String::from_str(trim_trailing_whitespace(stdout.as_str())))
            } else {
                Err(UptimeError::Failed)
            }
        },
    }
}

} // verus!

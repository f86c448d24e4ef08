//! Text primitives: whitespace, tokens, suffixes, ordering of names.

use vstd::prelude::*;
use vstd::std_specs::iter::IteratorSpec;

verus! {

/// Whether `c` is white space: one of the code points that Unicode marks
/// as `White_Space`.
pub open spec fn is_whitespace(c: char) -> bool {
    let n = c as u32;
    ||| 0x09 <= n <= 0x0D
    ||| n == 0x20
    ||| n == 0x85
    ||| n == 0xA0
    ||| n == 0x1680
    ||| 0x2000 <= n <= 0x200A
    ||| n == 0x2028
    ||| n == 0x2029
    ||| n == 0x202F
    ||| n == 0x205F
    ||| n == 0x3000
}

/// Decides whether `c` is white space.
pub fn char_is_whitespace(c: char) -> (r: bool)
    ensures
        r == is_whitespace(c),
{
    let n: u32 = c as u32;
    (0x09 <= n && n <= 0x0D) || n == 0x20 || n == 0x85 || n == 0xA0 || n == 0x1680 || (0x2000 <= n
        && n <= 0x200A) || n == 0x2028 || n == 0x2029 || n == 0x202F || n == 0x205F || n == 0x3000
}

/// The characters of `s`, in order.
pub fn chars_of(s: &str) -> (r: Vec<char>)
    ensures
        r@ == s@,
{
    let mut out: Vec<char> = Vec::new();
    let chars = s.chars();
    for c in it: chars
        invariant
            it.seq() == s@,
            out@ == s@.take(it.index()),
    {
        out.push(c);
    }
    out
}

/// How one name stands to another in the order of names.
#[derive(Clone, Copy, Debug, PartialEq, Eq, Structural)]
pub enum Precedence {
    Before,
    Same,
    After,
}

/// The order of names: character by character, by code point; a proper
/// prefix comes before the longer name.
pub open spec fn precedence(a: Seq<char>, b: Seq<char>) -> Precedence
    decreases a.len(),
{
    if a.len() == 0 {
        if b.len() == 0 {
            Precedence::Same
        } else {
            Precedence::Before
        }
    } else if b.len() == 0 {
        Precedence::After
    } else if a[0] < b[0] {
        Precedence::Before
    } else if a[0] > b[0] {
        Precedence::After
    } else {
        precedence(a.drop_first(), b.drop_first())
    }
}

/// Whether `a` comes strictly before `b` in the order of names.
pub open spec fn name_lt(a: Seq<char>, b: Seq<char>) -> bool {
    precedence(a, b) == Precedence::Before
}

/// Compares two names in the order of names.
pub fn compare_names(a: &str, b: &str) -> (r: Precedence)
    ensures
        r == precedence(a@, b@),
{
    let mut left = a.chars();
    let mut right = b.chars();
    loop
        invariant
            left.obeys_prophetic_iter_laws(),
            right.obeys_prophetic_iter_laws(),
            left.decrease() is Some,
            precedence(a@, b@) == precedence(left.remaining(), right.remaining()),
        decreases left.decrease()->0,
    {
        let x = left.next();
        let y = right.next();
        match (x, y) {
            (None, None) => {
                return Precedence::Same;
            },
            (None, Some(_)) => {
                return Precedence::Before;
            },
            (Some(_), None) => {
                return Precedence::After;
            },
            (Some(p), Some(q)) => {
                if p < q {
                    return Precedence::Before;
                }
                if p > q {
                    return Precedence::After;
                }
            },
        }
    }
}

/// Two names stand as `Same` exactly when they are equal.
pub proof fn lemma_precedence_same(a: Seq<char>, b: Seq<char>)
    ensures
        precedence(a, b) == Precedence::Same <==> a == b,
    decreases a.len(),
{
    if a.len() > 0 && b.len() > 0 && a[0] == b[0] {
        lemma_precedence_same(a.drop_first(), b.drop_first());
        if a.drop_first() == b.drop_first() {
            assert(a =~= seq![a[0]] + a.drop_first());
            assert(b =~= seq![b[0]] + b.drop_first());
        }
    } else if a.len() == 0 && b.len() == 0 {
        assert(a =~= b);
    }
}

/// Turning a comparison round turns its outcome round.
pub proof fn lemma_precedence_flip(a: Seq<char>, b: Seq<char>)
    ensures
        precedence(a, b) == Precedence::Before <==> precedence(b, a) == Precedence::After,
        precedence(a, b) == Precedence::After <==> precedence(b, a) == Precedence::Before,
        precedence(a, b) == Precedence::Same <==> precedence(b, a) == Precedence::Same,
    decreases a.len(),
{
    if a.len() > 0 && b.len() > 0 && a[0] == b[0] {
        lemma_precedence_flip(a.drop_first(), b.drop_first());
    }
}

/// The order of names is transitive.
pub proof fn lemma_name_lt_transitive(a: Seq<char>, b: Seq<char>, c: Seq<char>)
    requires
        name_lt(a, b),
        name_lt(b, c),
    ensures
        name_lt(a, c),
    decreases a.len(),
{
    if a.len() > 0 && b.len() > 0 && c.len() > 0 && a[0] == b[0] && b[0] == c[0] {
        lemma_name_lt_transitive(a.drop_first(), b.drop_first(), c.drop_first());
    }
}

/// No name comes before itself, and of two names at most one comes before
/// the other.
pub proof fn lemma_name_lt_strict(a: Seq<char>, b: Seq<char>)
    ensures
        !name_lt(a, a),
        name_lt(a, b) ==> !name_lt(b, a) && a != b,
{
    lemma_precedence_same(a, a);
    lemma_precedence_same(a, b);
    lemma_precedence_flip(a, b);
}

/// Of two different names one comes before the other.
pub proof fn lemma_name_lt_total(a: Seq<char>, b: Seq<char>)
    ensures
        a == b || name_lt(a, b) || name_lt(b, a),
{
    lemma_precedence_same(a, b);
    lemma_precedence_flip(a, b);
}

/// The suffix that marks a program as a fetch program.
pub open spec fn fetch_suffix() -> Seq<char> {
    seq!['f', 'e', 't', 'c', 'h']
}

/// Whether `name` ends with the fetch suffix, letter for letter.
pub open spec fn is_fetch_name(name: Seq<char>) -> bool {
    name.len() >= 5 && name.skip(name.len() - 5) == fetch_suffix()
}

/// Decides whether `name` ends with the fetch suffix.
pub fn ends_with_fetch(name: &str) -> (r: bool)
    ensures
        r == is_fetch_name(name@),
{
    let chars = chars_of(name);
    let n: usize = chars.len();
    if n < 5 {
        return false;
    }
    let r = chars[n - 5] == 'f' && chars[n - 4] == 'e' && chars[n - 3] == 't' && chars[n - 2]
        == 'c' && chars[n - 1] == 'h';
    proof {
        let tail = name@.skip(n - 5);
        if r {
            assert(tail =~= fetch_suffix());
        } else {
            assert(tail[0] == name@[n - 5]);
            assert(tail[1] == name@[n - 4]);
            assert(tail[2] == name@[n - 3]);
            assert(tail[3] == name@[n - 2]);
            assert(tail[4] == name@[n - 1]);
        }
    }
    r
}

/// The first position at or after `from` that holds no white space, or the
/// length of `s` where only white space follows.
pub open spec fn skip_whitespace(s: Seq<char>, from: int) -> int
    decreases s.len() - from,
{
    if 0 <= from < s.len() && is_whitespace(s[from]) {
        skip_whitespace(s, from + 1)
    } else {
        from
    }
}

/// The first position at or after `from` that holds white space, or the
/// length of `s` where none follows.
pub open spec fn skip_word(s: Seq<char>, from: int) -> int
    decreases s.len() - from,
{
    if 0 <= from < s.len() && !is_whitespace(s[from]) {
        skip_word(s, from + 1)
    } else {
        from
    }
}

/// The first run of characters of `line` that holds no white space, none
/// where the line holds nothing else.
pub open spec fn first_token(line: Seq<char>) -> Option<Seq<char>> {
    let start = skip_whitespace(line, 0);
    let end = skip_word(line, start);
    if start < end {
        Some(line.subrange(start, end))
    } else {
        None
    }
}

/// Where the first token of `line` lies: it is not empty, holds no white
/// space, only white space stands before it, and it ends at the end of the
/// line or before white space. A line without a token is all white space.
pub proof fn lemma_first_token_bounds(line: Seq<char>)
    ensures
        ({
            let start = skip_whitespace(line, 0);
            let end = skip_word(line, start);
            &&& 0 <= start <= end <= line.len()
            &&& forall|i: int| 0 <= i < start ==> is_whitespace(#[trigger] line[i])
            &&& forall|i: int| start <= i < end ==> !is_whitespace(#[trigger] line[i])
            &&& end < line.len() ==> is_whitespace(line[end])
            &&& start == end ==> start == line.len()
        }),
{
    lemma_skip_whitespace(line, 0);
    lemma_skip_word(line, skip_whitespace(line, 0));
}

proof fn lemma_skip_whitespace(s: Seq<char>, from: int)
    requires
        0 <= from <= s.len(),
    ensures
        from <= skip_whitespace(s, from) <= s.len(),
        forall|i: int| from <= i < skip_whitespace(s, from) ==> is_whitespace(#[trigger] s[i]),
        skip_whitespace(s, from) < s.len() ==> !is_whitespace(s[skip_whitespace(s, from)]),
    decreases s.len() - from,
{
    if from < s.len() && is_whitespace(s[from]) {
        lemma_skip_whitespace(s, from + 1);
    }
}

proof fn lemma_skip_word(s: Seq<char>, from: int)
    requires
        0 <= from <= s.len(),
    ensures
        from <= skip_word(s, from) <= s.len(),
        forall|i: int| from <= i < skip_word(s, from) ==> !is_whitespace(#[trigger] s[i]),
        skip_word(s, from) < s.len() ==> is_whitespace(s[skip_word(s, from)]),
    decreases s.len() - from,
{
    if from < s.len() && !is_whitespace(s[from]) {
        lemma_skip_word(s, from + 1);
    }
}

/// The first white-space-delimited token of `line`, if it has one.
pub fn first_word(line: &str) -> (r: Option<&str>)
    ensures
        match r {
            Some(word) => first_token(line@) == Some(word@),
            None => first_token(line@) is None,
        },
{
    let chars = chars_of(line);
    let n: usize = chars.len();
    let mut start: usize = 0;
    while start < n && char_is_whitespace(chars[start])
        invariant
            n == chars@.len(),
            chars@ == line@,
            start <= n,
            skip_whitespace(line@, 0) == skip_whitespace(line@, start as int),
        decreases n - start,
    {
        start = start + 1;
    }
    let mut end: usize = start;
    while end < n && !char_is_whitespace(chars[end])
        invariant
            n == chars@.len(),
            chars@ == line@,
            start <= end <= n,
            skip_word(line@, start as int) == skip_word(line@, end as int),
        decreases n - end,
    {
        end = end + 1;
    }
    if start < end {
        Some(line.substring_char(start, end))
    } else {
        None
    }
}

/// How many characters of `s` remain when the white space at its end is
/// taken away.
pub open spec fn trimmed_len(s: Seq<char>) -> nat
    decreases s.len(),
{
    if s.len() > 0 && is_whitespace(s.last()) {
        trimmed_len(s.drop_last())
    } else {
        s.len()
    }
}

/// `s` without the white space at its end.
pub open spec fn trim_end(s: Seq<char>) -> Seq<char> {
    s.take(trimmed_len(s) as int)
}

/// What `trim_end` leaves: a prefix of `s` that does not end in white
/// space, after which `s` holds white space only.
pub proof fn lemma_trim_end(s: Seq<char>)
    ensures
        trimmed_len(s) <= s.len(),
        trimmed_len(s) > 0 ==> !is_whitespace(s[trimmed_len(s) - 1]),
        forall|i: int| trimmed_len(s) <= i < s.len() ==> is_whitespace(#[trigger] s[i]),
    decreases s.len(),
{
    if s.len() > 0 && is_whitespace(s.last()) {
        let t = s.drop_last();
        lemma_trim_end(t);
        assert forall|i: int| trimmed_len(s) <= i < s.len() implies is_whitespace(
            #[trigger] s[i],
        ) by {
            if i < t.len() {
                assert(s[i] == t[i]);
            }
        }
    }
}

/// `s` without the white space at its end.
pub fn trim_trailing_whitespace(s: &str) -> (r: &str)
    ensures
        r@ == trim_end(s@),
{
    let chars = chars_of(s);
    let mut n: usize = chars.len();
    proof {
        assert(s@.take(n as int) =~= s@);
    }
    while n > 0 && char_is_whitespace(chars[n - 1])
        invariant
            chars@ == s@,
            n <= chars@.len(),
            trimmed_len(s@) == trimmed_len(s@.take(n as int)),
        decreases n,
    {
        proof {
            assert(s@.take(n as int).drop_last() =~= s@.take(n - 1));
        }
        n = n - 1;
    }
    s.substring_char(0, n)
}

/// The ten digits, in order.
pub const DIGITS: &'static str = "0123456789";

/// The character that writes the digit `d`.
pub open spec fn digit_char(d: nat) -> char {
    DIGITS@[d as int]
}

/// The decimal numeral of `n`: no sign, no leading zero.
pub open spec fn decimal(n: nat) -> Seq<char>
    decreases n,
{
    if n < 10 {
        seq![digit_char(n)]
    } else {
        decimal(n / 10).push(digit_char(n % 10))
    }
}

/// The numeral of the digit `d`.
fn digit_text(d: u8) -> (r: &'static str)
    requires
        d < 10,
    ensures
        r@ == seq![digit_char(d as nat)],
{
    proof {
        reveal_strlit("0123456789");
    }
    let r = DIGITS.substring_char(d as usize, d as usize + 1);
    assert(r@ =~= seq![digit_char(d as nat)]);
    r
}

/// Writes `n` as a decimal numeral.
pub fn decimal_string(n: u64) -> (r: String)
    ensures
        r@ == decimal(n as nat),
{
    let mut out: String = String::from_str(digit_text((n % 10) as u8));
    let mut rest: u64 = n / 10;
    while rest > 0
        invariant
            decimal(n as nat) == if rest > 0 {
                decimal(rest as nat) + out@
            } else {
                out@
            },
        decreases rest,
    {
        let lead = String::from_str(digit_text((rest % 10) as u8));
        proof {
            let r = rest as nat;
            if r >= 10 {
                assert(decimal(r) =~= decimal(r / 10) + seq![digit_char(r % 10)]);
                assert(decimal(r) + out@ =~= decimal(r / 10) + (lead@ + out@));
            }
        }
        out = lead.concat(out.as_str());
        rest = rest / 10;
    }
    out
}

/// The items of `parts` in a row, with `sep` between each two of them.
pub open spec fn join(parts: Seq<Seq<char>>, sep: Seq<char>) -> Seq<char>
    decreases parts.len(),
{
    if parts.len() == 0 {
        Seq::empty()
    } else if parts.len() == 1 {
        parts[0]
    } else {
        join(parts.drop_last(), sep) + sep + parts.last()
    }
}

/// The texts that a sequence of strings holds.
pub open spec fn texts(v: Seq<String>) -> Seq<Seq<char>> {
    Seq::new(v.len(), |i: int| v[i]@)
}

/// Writes the strings of `parts` in a row, with `sep` between each two of
/// them.
pub fn join_strings(parts: &Vec<String>, sep: &str) -> (r: String)
    ensures
        r@ == join(texts(parts@), sep@),
{
    let mut out = String::new();
    let n: usize = parts.len();
    let mut i: usize = 0;
    while i < n
        invariant
            n == parts@.len(),
            i <= n,
            out@ == join(texts(parts@).take(i as int), sep@),
        decreases n - i,
    {
        proof {
            let all = texts(parts@);
            assert(all.take(i + 1).drop_last() =~= all.take(i as int));
            assert(all.take(i + 1).last() == parts@[i as int]@);
            if i > 0 {
                assert(all.take(i as int).len() > 0);
            } else {
                assert(out@ =~= Seq::<char>::empty());
            }
        }
        if i > 0 {
            out.append(sep);
        }
        out.append(parts[i].as_str());
        proof {
            if i == 0 {
                assert(out@ =~= parts@[0]@);
                assert(texts(parts@).take(1)[0] == parts@[0]@);
            }
        }
        i = i + 1;
    }
    proof {
        assert(texts(parts@).take(n as int) =~= texts(parts@));
    }
    out
}

} // verus!

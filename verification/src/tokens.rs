//! Classification of raw command-line tokens and the small string
//! operations the resolution engine needs.

use vstd::prelude::*;
use vstd::string::*;

verus! {

/// The syntactic shape of one raw token.
#[derive(Clone, Copy, PartialEq, Eq, Structural, Debug)]
pub enum ArgKind {
    /// Does not start with `-`, or is a bare `-`.
    Positional,
    /// `-x...`: one dash followed by at least one character that is not a dash.
    ShortOption,
    /// `--xxx`: two dashes followed by at least one character.
    LongOption,
    /// Exactly `--`.
    Delimiter,
}

/// What `classify` returns, as a function of the token's characters.
pub open spec fn spec_classify(t: Seq<char>) -> ArgKind {
    if t.len() == 0 {
        ArgKind::Positional
    } else if t[0] != '-' {
        ArgKind::Positional
    } else if t.len() == 1 {
        ArgKind::Positional
    } else if t[1] != '-' {
        ArgKind::ShortOption
    } else if t.len() == 2 {
        ArgKind::Delimiter
    } else {
        ArgKind::LongOption
    }
}

/// Decide the shape of one token: `-x` is a short option, `--xxx` a long
/// option, `--` the delimiter, everything else (including a bare `-`) a
/// positional value.
pub fn classify(t: &str) -> (k: ArgKind)
    ensures
        k == spec_classify(t@),
{
    let n = t.unicode_len();
    if n == 0 {
        ArgKind::Positional
    } else if t.get_char(0) != '-' {
        ArgKind::Positional
    } else if n == 1 {
        ArgKind::Positional
    } else if t.get_char(1) != '-' {
        ArgKind::ShortOption
    } else if n == 2 {
        ArgKind::Delimiter
    } else {
        ArgKind::LongOption
    }
}

/// Whether a token starts with a dash; the greedy list scanner stops at such
/// a token even when classification would call it positional (a bare `-`).
pub open spec fn spec_dash_start(t: Seq<char>) -> bool {
    t.len() > 0 && t[0] == '-'
}

/// Whether the token starts with `-`.
pub fn dash_start(t: &str) -> (r: bool)
    ensures
        r == spec_dash_start(t@),
{
    t.unicode_len() > 0 && t.get_char(0) == '-'
}

/// Character-for-character string equality.
pub fn str_eq(a: &str, b: &str) -> (r: bool)
    ensures
        r == (a@ == b@),
{
    let na = a.unicode_len();
    let nb = b.unicode_len();
    if na != nb {
        assert(a@ != b@) by {
            assert(a@.len() != b@.len());
        }
        return false;
    }
    let mut i: usize = 0;
    while i < na
        invariant
            na == a@.len(),
            na == b@.len(),
            i <= na,
            forall|j: int| 0 <= j < i ==> a@[j] == b@[j],
        decreases na - i,
    {
        if a.get_char(i) != b.get_char(i) {
            return false;
        }
        i += 1;
    }
    proof {
        assert(a@ =~= b@);
    }
    true
}

/// The position of the first `=` in the token, if any.
pub open spec fn spec_eq_index(t: Seq<char>, from: int) -> Option<int>
    decreases t.len() - from,
{
    if from < 0 || from >= t.len() {
        None
    } else if t[from] == '=' {
        Some(from)
    } else {
        spec_eq_index(t, from + 1)
    }
}

/// Split a long-option token on its first `=`: the name before it and,
/// when an `=` is present, the attached value after it.
pub open spec fn spec_eq_split(t: Seq<char>) -> (Seq<char>, Option<Seq<char>>) {
    match spec_eq_index(t, 0) {
        Some(i) => (t.subrange(0, i), Some(t.subrange(i + 1, t.len() as int))),
        None => (t, None),
    }
}

/// Split a token on its first `=` into the option name and the attached
/// value, if one is present.
pub fn eq_split(t: &str) -> (r: (String, Option<String>))
    ensures
        r.0@ == spec_eq_split(t@).0,
        match r.1 {
            Some(v) => spec_eq_split(t@).1 == Some(v@),
            None => spec_eq_split(t@).1 is None,
        },
{
    let n = t.unicode_len();
    let mut i: usize = 0;
    while i < n
        invariant
            n == t@.len(),
            i <= n,
            spec_eq_index(t@, 0) == spec_eq_index(t@, i as int),
            forall|j: int| 0 <= j < i ==> t@[j] != '=',
        decreases n - i,
    {
        if t.get_char(i) == '=' {
            assert(spec_eq_index(t@, i as int) == Some(i as int));
            let name = t.substring_char(0, i);
            let value = t.substring_char(i + 1, n);
            return (name.to_owned(), Some(value.to_owned()));
        }
        i += 1;
    }
    assert(spec_eq_index(t@, n as int) is None);
    (t.to_owned(), None)
}

} // verus!

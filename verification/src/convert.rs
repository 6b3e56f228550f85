//! Conversion between command-line tokens and typed values.
//!
//! The engine's built-in scalar conversions: decimal integers, the booleans
//! `true` and `false`, and plain strings.  Each conversion has an encoding
//! counterpart, and encoding a value and parsing the token back yields the
//! original value.

use vstd::prelude::*;
use vstd::string::*;

verus! {

/// Whether `c` is a decimal digit.
pub open spec fn spec_is_digit(c: char) -> bool {
    '0' <= c && c <= '9'
}

/// The numeric value of a digit character.
pub open spec fn spec_digit_val(c: char) -> int {
    c as int - '0' as int
}

/// Whether every character of `s` is a decimal digit.
pub open spec fn spec_all_digits(s: Seq<char>) -> bool {
    forall|i: int| 0 <= i < s.len() ==> spec_is_digit(#[trigger] s[i])
}

/// The value of a digit string, most significant digit first.
pub open spec fn spec_digits_val(s: Seq<char>) -> int
    decreases s.len(),
{
    if s.len() == 0 {
        0
    } else {
        spec_digits_val(s.drop_last()) * 10 + spec_digit_val(s.last())
    }
}

/// The digit-and-sign part of a token: a leading `-` makes the value
/// negative, a leading `+` is allowed, and at least one digit must follow.
pub open spec fn spec_int_body(s: Seq<char>) -> Seq<char> {
    if s.len() > 0 && (s[0] == '-' || s[0] == '+') {
        s.drop_first()
    } else {
        s
    }
}

/// Whether the token is a syntactically valid decimal integer.
pub open spec fn spec_int_syntax(s: Seq<char>) -> bool {
    spec_int_body(s).len() > 0 && spec_all_digits(spec_int_body(s))
}

/// The mathematical value a valid integer token denotes.
pub open spec fn spec_int_val(s: Seq<char>) -> int {
    if s.len() > 0 && s[0] == '-' {
        -spec_digits_val(spec_int_body(s))
    } else {
        spec_digits_val(spec_int_body(s))
    }
}

/// What parsing an integer token yields: the denoted value when the syntax
/// is valid and the value fits in `i64`, nothing otherwise.
pub open spec fn spec_parse_int(s: Seq<char>) -> Option<int> {
    if spec_int_syntax(s) && i64::MIN <= spec_int_val(s) <= i64::MAX {
        Some(spec_int_val(s))
    } else {
        None
    }
}

/// A digit string's value never shrinks when more digits follow.
proof fn lemma_digits_val_nonneg(s: Seq<char>)
    requires
        spec_all_digits(s),
    ensures
        spec_digits_val(s) >= 0,
    decreases s.len(),
{
    if s.len() > 0 {
        lemma_digits_val_nonneg(s.drop_last());
    }
}

/// The value of a prefix of a digit string is a lower bound for the whole.
proof fn lemma_digits_val_prefix(s: Seq<char>, n: int)
    requires
        spec_all_digits(s),
        0 <= n <= s.len(),
    ensures
        spec_digits_val(s) >= spec_digits_val(s.subrange(0, n)),
    decreases s.len() - n,
{
    if n < s.len() {
        lemma_digits_val_prefix(s, n + 1);
        let p = s.subrange(0, n + 1);
        assert(p.drop_last() =~= s.subrange(0, n));
        lemma_digits_val_nonneg(s.subrange(0, n));
    } else {
        assert(s.subrange(0, n) =~= s);
    }
}

/// Parse a decimal integer token.  Yields the denoted value exactly when
/// the token is well-formed and the value fits in `i64`.
pub fn parse_int(s: &str) -> (r: Option<i64>)
    ensures
        r == match spec_parse_int(s@) {
            Some(v) => Some(v as i64),
            None => None::<i64>,
        },
{
    let n = s.unicode_len();
    if n == 0 {
        return None;
    }
    let c0 = s.get_char(0);
    let neg = c0 == '-';
    let start: usize = if neg || c0 == '+' {
        1
    } else {
        0
    };
    if start == n {
        return None;
    }
    let ghost body = spec_int_body(s@);
    assert(body =~= s@.subrange(start as int, n as int));
    let mut mag: u64 = 0;
    let mut i: usize = start;
    while i < n
        invariant
            n == s@.len(),
            start <= i <= n,
            start == 1 ==> s@[0] == '-' || s@[0] == '+',
            neg == (s@[0] == '-'),
            neg ==> start == 1,
            body == spec_int_body(s@),
            body == s@.subrange(start as int, n as int),
            spec_all_digits(s@.subrange(start as int, i as int)),
            mag == spec_digits_val(s@.subrange(start as int, i as int)),
            mag <= 9223372036854775808u64,
        decreases n - i,
    {
        let c = s.get_char(i);
        if c < '0' || c > '9' {
            assert(!spec_is_digit(body[i - start]));
            return None;
        }
        let d: u64 = (c as u32 as u64) - 48;
        assert(d == spec_digit_val(c) && d <= 9);
        let ghost prev = s@.subrange(start as int, i as int);
        assert(s@.subrange(start as int, i + 1).drop_last() =~= prev);
        if mag > 922337203685477580u64 || (mag == 922337203685477580u64 && d > 8) {
            // The digit prefix seen so far already denotes more than any
            // `i64` magnitude; further digits only grow the value.
            proof {
                if spec_int_syntax(s@) {
                    assert(body.subrange(0, i + 1 - start) =~= s@.subrange(start as int, i + 1));
                    lemma_digits_val_prefix(body, i + 1 - start);
                    assert(spec_digits_val(body) > 9223372036854775808);
                }
            }
            return None;
        }
        mag = mag * 10 + d;
        i += 1;
        assert(s@.subrange(start as int, i as int) =~= prev.push(c));
    }
    assert(body =~= s@.subrange(start as int, n as int));
    assert(spec_int_syntax(s@));
    if neg {
        if mag == 9223372036854775808u64 {
            return Some(i64::MIN);
        }
        Some(-(mag as i64))
    } else {
        if mag > 9223372036854775807u64 {
            return None;
        }
        Some(mag as i64)
    }
}

/// The decimal digits of a non-negative value, most significant first.
pub open spec fn spec_nat_chars(n: int) -> Seq<char>
    decreases n,
{
    if n < 0 {
        Seq::empty()
    } else if n < 10 {
        seq![spec_digit_char(n)]
    } else {
        spec_nat_chars(n / 10).push(spec_digit_char(n % 10))
    }
}

/// The digit character for a value between 0 and 9.
pub open spec fn spec_digit_char(d: int) -> char {
    if d == 0 {
        '0'
    } else if d == 1 {
        '1'
    } else if d == 2 {
        '2'
    } else if d == 3 {
        '3'
    } else if d == 4 {
        '4'
    } else if d == 5 {
        '5'
    } else if d == 6 {
        '6'
    } else if d == 7 {
        '7'
    } else if d == 8 {
        '8'
    } else {
        '9'
    }
}

/// The canonical decimal encoding of an integer.
pub open spec fn spec_int_chars(v: int) -> Seq<char> {
    if v < 0 {
        seq!['-'].add(spec_nat_chars(-v))
    } else {
        spec_nat_chars(v)
    }
}

/// Every character produced for a non-negative value is a digit, and the
/// digit string denotes that value.
proof fn lemma_nat_chars_val(n: int)
    requires
        n >= 0,
    ensures
        spec_nat_chars(n).len() > 0,
        spec_all_digits(spec_nat_chars(n)),
        spec_digits_val(spec_nat_chars(n)) == n,
    decreases n,
{
    if n < 10 {
        let s = spec_nat_chars(n);
        assert(s.len() == 1);
        assert(s[0] == spec_digit_char(n));
        assert(spec_is_digit(spec_digit_char(n)) && spec_digit_val(spec_digit_char(n)) == n);
        assert(s.drop_last() =~= Seq::<char>::empty());
        assert(spec_digits_val(Seq::<char>::empty()) == 0);
        assert(spec_digits_val(s) == n);
        assert(forall|j: int| 0 <= j < s.len() ==> spec_is_digit(#[trigger] s[j]));
    } else {
        lemma_nat_chars_val(n / 10);
        let s = spec_nat_chars(n);
        let prev = spec_nat_chars(n / 10);
        assert(s.drop_last() =~= prev);
        assert(spec_is_digit(spec_digit_char(n % 10)) && spec_digit_val(spec_digit_char(n % 10))
            == n % 10);
        assert(s.last() == spec_digit_char(n % 10));
        assert(spec_digits_val(s) == (n / 10) * 10 + n % 10);
        assert(forall|j: int| 0 <= j < s.len() ==> spec_is_digit(#[trigger] s[j])) by {
            assert(forall|j: int| 0 <= j < prev.len() ==> s[j] == #[trigger] prev[j]);
        }
    }
}

/// The digit string for a digit value.
fn digit_str(d: u64) -> (r: &'static str)
    requires
        d <= 9,
    ensures
        r@ == seq![spec_digit_char(d as int)],
{
    proof {
        reveal_strlit("0");
        reveal_strlit("1");
        reveal_strlit("2");
        reveal_strlit("3");
        reveal_strlit("4");
        reveal_strlit("5");
        reveal_strlit("6");
        reveal_strlit("7");
        reveal_strlit("8");
        reveal_strlit("9");
    }
    if d == 0 {
        "0"
    } else if d == 1 {
        "1"
    } else if d == 2 {
        "2"
    } else if d == 3 {
        "3"
    } else if d == 4 {
        "4"
    } else if d == 5 {
        "5"
    } else if d == 6 {
        "6"
    } else if d == 7 {
        "7"
    } else if d == 8 {
        "8"
    } else {
        "9"
    }
}

/// The decimal digits of a non-negative value.
fn format_nat(n: u64) -> (r: String)
    ensures
        r@ == spec_nat_chars(n as int),
    decreases n,
{
    if n < 10 {
        digit_str(n).to_owned()
    } else {
        let mut r = format_nat(n / 10);
        r.append(digit_str(n % 10));
        r
    }
}

/// Encode an integer as the decimal token its conversion parses back.
pub fn format_int(v: i64) -> (r: String)
    ensures
        r@ == spec_int_chars(v as int),
{
    if v < 0 {
        let mag: u64 = if v == i64::MIN {
            9223372036854775808u64
        } else {
            (-v) as u64
        };
        let mut r = String::from_str("-");
        proof {
            reveal_strlit("-");
        }
        assert(r@ =~= seq!['-']);
        r.append(format_nat(mag).as_str());
        assert(r@ =~= spec_int_chars(v as int));
        r
    } else {
        format_nat(v as u64)
    }
}

/// The token that encodes a boolean.
pub open spec fn spec_bool_chars(b: bool) -> Seq<char> {
    if b {
        "true"@
    } else {
        "false"@
    }
}

/// What parsing a boolean token yields: only the exact tokens `true` and
/// `false` are accepted.
pub open spec fn spec_parse_bool(s: Seq<char>) -> Option<bool> {
    if s == "true"@ {
        Some(true)
    } else if s == "false"@ {
        Some(false)
    } else {
        None
    }
}

/// Parse a boolean token.
pub fn parse_bool(s: &str) -> (r: Option<bool>)
    ensures
        r == spec_parse_bool(s@),
{
    if crate::tokens::str_eq(s, "true") {
        Some(true)
    } else if crate::tokens::str_eq(s, "false") {
        proof {
            reveal_strlit("true");
            reveal_strlit("false");
        }
        Some(false)
    } else {
        None
    }
}

/// Encode a boolean as the token its conversion parses back.
pub fn format_bool(b: bool) -> (r: String)
    ensures
        r@ == spec_bool_chars(b),
{
    if b {
        String::from_str("true")
    } else {
        String::from_str("false")
    }
}

/// Decoding the encoding of any integer yields that integer back.
pub proof fn lemma_int_round_trip(v: i64)
    ensures
        spec_parse_int(spec_int_chars(v as int)) == Some(v as int),
{
    let s = spec_int_chars(v as int);
    if v < 0 {
        let mag = -(v as int);
        lemma_nat_chars_val(mag);
        let digits = spec_nat_chars(mag);
        assert(s == seq!['-'].add(digits));
        assert(s[0] == '-');
        assert(spec_int_body(s) =~= digits);
        assert(spec_int_syntax(s));
        assert(spec_int_val(s) == -spec_digits_val(digits));
    } else {
        let mag = v as int;
        lemma_nat_chars_val(mag);
        let digits = spec_nat_chars(mag);
        assert(s == digits);
        assert(spec_is_digit(s[0]));
        assert(s[0] != '-' && s[0] != '+');
        assert(spec_int_body(s) == s);
        assert(spec_int_syntax(s));
        assert(spec_int_val(s) == spec_digits_val(digits));
    }
}

/// Decoding the encoding of a boolean yields that boolean back.
pub proof fn lemma_bool_round_trip(b: bool)
    ensures
        spec_parse_bool(spec_bool_chars(b)) == Some(b),
{
    reveal_strlit("true");
    reveal_strlit("false");
    assert("true"@.len() != "false"@.len());
}

/// The conversion capability: parse one command-line token into a typed
/// value, or report why the token is unsuitable.
pub trait FromCommandLine: Sized + View {
    /// What a successful parse of the token yields.
    spec fn spec_from_argument(s: Seq<char>) -> Option<Self::V>;

    /// Parse one token; succeeds on exactly the tokens the specification
    /// accepts, and then yields the specified value.
    fn from_argument(s: &str) -> (r: Result<Self, String>)
        ensures
            match Self::spec_from_argument(s@) {
                Some(v) => r is Ok && r->Ok_0@ == v,
                None => r is Err,
            },
    ;
}

impl FromCommandLine for i64 {
    open spec fn spec_from_argument(s: Seq<char>) -> Option<i64> {
        match spec_parse_int(s) {
            Some(v) => Some(v as i64),
            None => None,
        }
    }

    fn from_argument(s: &str) -> (r: Result<i64, String>) {
        match parse_int(s) {
            Some(v) => Ok(v),
            None => Err(String::from_str("invalid integer")),
        }
    }
}

impl FromCommandLine for bool {
    open spec fn spec_from_argument(s: Seq<char>) -> Option<bool> {
        spec_parse_bool(s)
    }

    fn from_argument(s: &str) -> (r: Result<bool, String>) {
        match parse_bool(s) {
            Some(v) => Ok(v),
            None => Err(String::from_str("invalid boolean")),
        }
    }
}

impl FromCommandLine for String {
    open spec fn spec_from_argument(s: Seq<char>) -> Option<Seq<char>> {
        Some(s)
    }

    fn from_argument(s: &str) -> (r: Result<String, String>) {
        Ok(s.to_owned())
    }
}

} // verus!

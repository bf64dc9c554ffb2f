//! Names, paths and `KEY=VALUE` strings.
use vstd::prelude::*;
use vstd::string::*;

verus! {

/// The pattern that a workload name must match.
pub const NAME_PATTERN: &'static str = "^[a-zA-Z0-9_-]+$";

pub open spec fn is_name_char(c: char) -> bool {
    ('a' <= c && c <= 'z') || ('A' <= c && c <= 'Z') || ('0' <= c && c <= '9') || c == '_'
        || c == '-'
}

/// A workload name: non-empty, of ASCII letters, digits, `_` and `-` only.
pub open spec fn is_valid_name(s: Seq<char>) -> bool {
    s.len() > 0 && forall|i: int| 0 <= i < s.len() ==> is_name_char(#[trigger] s[i])
}

/// Relies on regex::Regex::new and regex::Regex::is_match: `NAME_PATTERN`
/// compiles, and (`$` being the end of the text) it matches exactly the
/// non-empty strings of ASCII letters, digits, `_` and `-`.
#[verifier::external_body]
fn regex_is_match(pattern: &str, s: &str) -> (r: Option<bool>)
    ensures
        pattern@ == NAME_PATTERN@ ==> r == Some(is_valid_name(s@)),
{
    regex::Regex::new(pattern).ok().map(|re| re.is_match(s))
}

/// Whether `name` may name a workload.
pub fn valid_name(name: &str) -> (r: bool)
    ensures
        r == is_valid_name(name@),
{
    match regex_is_match(NAME_PATTERN, name) {
        Some(m) => m,
        None => false,
    }
}

pub open spec fn digit_char(d: nat) -> char {
    seq!['0', '1', '2', '3', '4', '5', '6', '7', '8', '9'][d as int]
}

/// The decimal digits of `n`, without leading zeros.
pub open spec fn dec_str(n: nat) -> Seq<char>
    decreases n,
{
    if n < 10 {
        seq![digit_char(n)]
    } else {
        dec_str(n / 10).push(digit_char(n % 10))
    }
}

/// Relies on `ToString` for `u64`: the decimal digits, no sign, no padding.
#[verifier::external_body]
fn u64_to_decimal(n: u64) -> (r: String)
    ensures
        r@ == dec_str(n as nat),
{
    n.to_string()
}

/// `n` in decimal.
pub fn decimal(n: u64) -> (r: String)
    ensures
        r@ == dec_str(n as nat),
{
    u64_to_decimal(n)
}

/// `a` followed by `b`.
pub fn join2(a: &str, b: &str) -> (r: String)
    ensures
        r@ == a@ + b@,
{
    let mut s = String::from_str(a);
    s.append(b);
    s
}

/// `a`, then `b`, then `c`.
pub fn join3(a: &str, b: &str, c: &str) -> (r: String)
    ensures
        r@ == a@ + b@ + c@,
{
    let mut s = String::from_str(a);
    s.append(b);
    s.append(c);
    s
}

/// The views of a sequence of strings.
pub open spec fn strs(v: Seq<String>) -> Seq<Seq<char>> {
    v.map_values(|s: String| s@)
}

/// A copy of each string of `v`, in order.
pub fn clone_strings(v: &Vec<String>) -> (r: Vec<String>)
    ensures
        strs(r@) == strs(v@),
{
    let mut out: Vec<String> = Vec::new();
    let mut i: usize = 0;
    while i < v.len()
        invariant
            i <= v.len(),
            out.len() == i,
            forall|j: int| 0 <= j < i ==> (#[trigger] out@[j])@ == v@[j]@,
        decreases v.len() - i,
    {
        out.push(v[i].clone());
        i += 1;
    }
    assert(strs(out@) =~= strs(v@));
    out
}

} // verus!

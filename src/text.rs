//! Small text helpers: identifiers, comparisons and request checks.
use vstd::prelude::*;

verus! {

/// Whether two strings hold the same characters.
pub fn str_eq(a: &str, b: &str) -> (r: bool)
    ensures
        r == (a@ == b@),
{
    let n = a.unicode_len();
    if n != b.unicode_len() {
        return false;
    }
    let mut i: usize = 0;
    while i < n
        invariant
            i <= n,
            n == a@.len(),
            n == b@.len(),
            forall|j: int| 0 <= j < i ==> #[trigger] a@[j] == b@[j],
        decreases n - i,
    {
        if a.get_char(i) != b.get_char(i) {
            return false;
        }
        i = i + 1;
    }
    proof {
        assert(a@ =~= b@);
    }
    true
}

pub open spec fn digit_char(d: nat) -> char {
    ('0' as u32 + d) as char
}

/// The decimal digits of `n`, most significant first, without leading zeros.
pub open spec fn decimal(n: nat) -> Seq<char>
    decreases n,
{
    if n < 10 {
        seq![digit_char(n)]
    } else {
        decimal(n / 10).push(digit_char(n % 10))
    }
}

/// The identifier `<prefix>_<n>`.
pub open spec fn id_text(prefix: Seq<char>, n: nat) -> Seq<char> {
    prefix + seq!['_'] + decimal(n)
}

fn digit_str(d: u64) -> (r: &'static str)
    requires
        d < 10,
    ensures
        r@ == seq![digit_char(d as nat)],
{
    proof {
        reveal_strlit("0");
        reveal_strlit("1");
        reveal_strlit("2");
        reveal_strlit("3");
        reveal_strlit("4");
        reveal_strlit("5");
        reveal_strlit("6");
        reveal_strlit("7");
        reveal_strlit("8");
        reveal_strlit("9");
    }
    let r = if d == 0 {
        "0"
    } else if d == 1 {
        "1"
    } else if d == 2 {
        "2"
    } else if d == 3 {
        "3"
    } else if d == 4 {
        "4"
    } else if d == 5 {
        "5"
    } else if d == 6 {
        "6"
    } else if d == 7 {
        "7"
    } else if d == 8 {
        "8"
    } else {
        "9"
    };
    assert(r@ =~= seq![digit_char(d as nat)]);
    r
}

fn append_decimal(s: &mut String, n: u64)
    ensures
        final(s)@ == old(s)@ + decimal(n as nat),
    decreases n,
{
    if n >= 10 {
        append_decimal(s, n / 10);
    }
    s.append(digit_str(n % 10));
    proof {
        if n >= 10 {
            assert(old(s)@ + decimal(n as nat) =~= old(s)@ + decimal((n / 10) as nat) + seq![
                digit_char((n % 10) as nat),
            ]);
        } else {
            assert(decimal(n as nat) =~= seq![digit_char((n % 10) as nat)]);
        }
    }
}

/// `<prefix>_<n>`.
pub fn format_id(prefix: &str, n: u64) -> (r: String)
    ensures
        r@ == id_text(prefix@, n as nat),
{
    let mut s = String::from_str(prefix);
    proof {
        reveal_strlit("_");
    }
    s.append("_");
    append_decimal(&mut s, n);
    proof {
        assert(s@ =~= id_text(prefix@, n as nat));
    }
    s
}

/// Issues the identifier for the counter's value and advances the counter
/// (wrapping, as a 64-bit counter does).
pub fn next_id(prefix: &str, seq: &mut u64) -> (r: String)
    ensures
        r@ == id_text(prefix@, *old(seq) as nat),
        *final(seq) == (if *old(seq) == u64::MAX {
            0
        } else {
            (*old(seq) + 1) as u64
        }),
{
    let n = *seq;
    *seq = if n == u64::MAX {
        0
    } else {
        n + 1
    };
    format_id(prefix, n)
}

/// Unicode `White_Space`, the set that `char::is_whitespace` tests.
pub open spec fn is_white_space(c: char) -> bool {
    let u = c as u32;
    (0x09 <= u <= 0x0d) || u == 0x20 || u == 0x85 || u == 0xa0 || u == 0x1680 || (0x2000 <= u
        <= 0x200a) || u == 0x2028 || u == 0x2029 || u == 0x202f || u == 0x205f || u == 0x3000
}

fn white_space(c: char) -> (r: bool)
    ensures
        r == is_white_space(c),
{
    let u = c as u32;
    (0x09 <= u && u <= 0x0d) || u == 0x20 || u == 0x85 || u == 0xa0 || u == 0x1680 || (0x2000 <= u
        && u <= 0x200a) || u == 0x2028 || u == 0x2029 || u == 0x202f || u == 0x205f || u == 0x3000
}

/// Whether the text holds nothing but white space (so that it trims to nothing).
pub fn is_blank_text(s: &str) -> (r: bool)
    ensures
        r == forall|i: int| 0 <= i < s@.len() ==> is_white_space(#[trigger] s@[i]),
{
    let n = s.unicode_len();
    let mut i: usize = 0;
    while i < n
        invariant
            i <= n,
            n == s@.len(),
            forall|j: int| 0 <= j < i ==> is_white_space(#[trigger] s@[j]),
        decreases n - i,
    {
        if !white_space(s.get_char(i)) {
            return false;
        }
        i = i + 1;
    }
    true
}

/// A request passes when no token is configured, or when it carries that token.
pub fn authorized(expected: Option<&str>, got: &str) -> (r: bool)
    ensures
        r == match expected {
            None => true,
            Some(e) => e@ == got@,
        },
{
    match expected {
        None => true,
        Some(e) => str_eq(e, got),
    }
}

/// The image sizes that the generation service accepts.
pub fn is_allowed_size(size: &str) -> (r: bool)
    ensures
        r == (size@ == "1024x1024"@ || size@ == "1024x1536"@ || size@ == "1536x1024"@),
{
    str_eq(size, "1024x1024") || str_eq(size, "1024x1536") || str_eq(size, "1536x1024")
}

/// `value`, or `default` when absent, kept within `lo..=hi`.
pub open spec fn clamped_or(value: Option<u64>, default: u64, lo: u64, hi: u64) -> u64 {
    let v = match value {
        Some(v) => v,
        None => default,
    };
    if v < lo {
        lo
    } else if v > hi {
        hi
    } else {
        v
    }
}

fn clamp_or(value: Option<u64>, default: u64, lo: u64, hi: u64) -> (r: u64)
    ensures
        r == clamped_or(value, default, lo, hi),
{
    let v = match value {
        Some(v) => v,
        None => default,
    };
    if v < lo {
        lo
    } else if v > hi {
        hi
    } else {
        v
    }
}

/// Length of a scan in seconds: 3 by default, within `1..=15`.
pub fn scan_seconds(requested: Option<u64>) -> (r: u64)
    ensures
        r == clamped_or(requested, 3, 1, 15),
{
    clamp_or(requested, 3, 1, 15)
}

/// How long a wait for a job may last, in seconds: 20 by default, within `1..=120`.
pub fn wait_seconds(requested: Option<u64>) -> (r: u64)
    ensures
        r == clamped_or(requested, 20, 1, 120),
{
    clamp_or(requested, 20, 1, 120)
}

} // verus!

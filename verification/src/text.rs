use vstd::prelude::*;
use vstd::string::StrSliceExecFns;

verus! {

/// Whether the string reads exactly `lit`.
pub fn str_is(s: &String, lit: &str) -> (r: bool)
    ensures
        r == (s@ == lit@),
{
    let a = s.as_str();
    let n = a.unicode_len();
    let m = lit.unicode_len();
    if n != m {
        return false;
    }
    for i in 0..n
        invariant
            n == a@.len(),
            m == lit@.len(),
            n == m,
            a@ == s@,
            forall|j: int| 0 <= j < i ==> a@[j] == lit@[j],
    {
        if a.get_char(i) != lit.get_char(i) {
            return false;
        }
    }
    proof { assert(a@ =~= lit@); }
    true
}

/// The value of a run of decimal digits.
pub open spec fn digits_value(s: Seq<char>) -> int
    decreases s.len(),
{
    if s.len() == 0 {
        0
    } else {
        digits_value(s.drop_last()) * 10 + (s.last() as int - '0' as int)
    }
}

/// Every character is a decimal digit.
pub open spec fn all_digits(s: Seq<char>) -> bool {
    forall|i: int| 0 <= i < s.len() ==> '0' <= #[trigger] s[i] <= '9'
}

/// What reading the text as an `i32` gives: an optional `+` or `-`
/// followed by at least one decimal digit, and a value that fits.
pub open spec fn spec_parse_i32(s: Seq<char>) -> Option<int> {
    let neg = s.len() > 0 && s[0] == '-';
    let body = if s.len() > 0 && (s[0] == '-' || s[0] == '+') { s.skip(1) } else { s };
    if body.len() == 0 || !all_digits(body) {
        None
    } else {
        let v = if neg { -digits_value(body) } else { digits_value(body) };
        if i32::MIN <= v <= i32::MAX { Some(v) } else { None }
    }
}

/// Reads the text as an `i32`, as `str::parse` does: `None` unless it is an
/// optional sign and decimal digits whose value fits.
pub fn parse_i32(s: &String) -> (r: Option<i32>)
    ensures
        r matches Some(v) ==> spec_parse_i32(s@) == Some(v as int),
        r is None ==> spec_parse_i32(s@) is None,
{
    let a = s.as_str();
    let n = a.unicode_len();
    let mut start: usize = 0;
    let mut neg = false;
    if n > 0 {
        let c = a.get_char(0);
        if c == '-' {
            neg = true;
            start = 1;
        } else if c == '+' {
            start = 1;
        }
    }
    if start >= n {
        proof {
            assert(a@ == s@);
            if n > 0 { assert(s@.skip(1).len() == 0); }
        }
        return None;
    }
    let ghost body = s@.skip(start as int);
    let cap: i64 = 0x1_0000_0000;
    let mut v: i64 = 0;
    let mut i = start;
    while i < n
        invariant
            a@ == s@,
            n == s@.len(),
            cap == 0x1_0000_0000,
            neg == (n > 0 && s@[0] == '-'),
            start == (if n > 0 && (s@[0] == '-' || s@[0] == '+') { 1int } else { 0 }),
            start < n,
            start <= i <= n,
            start <= 1,
            body == s@.skip(start as int),
            all_digits(s@.subrange(start as int, i as int)),
            v == (if digits_value(s@.subrange(start as int, i as int)) < cap { digits_value(s@.subrange(start as int, i as int)) } else { cap as int }),
            0 <= v <= cap,
            digits_value(s@.subrange(start as int, i as int)) >= 0,
        decreases n - i,
    {
        let c = a.get_char(i);
        if !('0' <= c && c <= '9') {
            proof {
                assert(body[i - start] == c);
                assert(!all_digits(body));
            }
            return None;
        }
        let d = (c as u32 - '0' as u32) as i64;
        assert(0 <= d <= 9);
        proof {
            let pre = s@.subrange(start as int, i as int);
            let nxt = s@.subrange(start as int, i + 1);
            assert(nxt.drop_last() == pre);
            assert(nxt.last() == c);
            assert(all_digits(nxt));
        }
        if v >= cap {
            v = cap;
        } else {
            let w = v * 10 + d;
            v = if w > cap { cap } else { w };
        }
        i = i + 1;
    }
    proof {
        assert(s@.subrange(start as int, n as int) == body);
        assert(body.len() > 0);
        if start == 0 {
            assert(s@.skip(0) =~= s@);
        }
        assert(body == (if s@.len() > 0 && (s@[0] == '-' || s@[0] == '+') { s@.skip(1) } else { s@ }));
    }
    if neg {
        if v > 0x8000_0000 {
            None
        } else {
            Some((0 - v) as i32)
        }
    } else {
        if v > 0x7fff_ffff {
            None
        } else {
            Some(v as i32)
        }
    }
}

} // verus!

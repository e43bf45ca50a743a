//! Decimal text of team numbers: reading what a form sends, and writing a
//! number the way `i32::to_string` does.

use vstd::prelude::*;
use vstd::string::*;

verus! {

pub open spec fn is_digit(c: char) -> bool {
    '0' <= c && c <= '9'
}

pub open spec fn digit_val(c: char) -> int {
    (c as int) - ('0' as int)
}

pub open spec fn all_digits(s: Seq<char>) -> bool {
    forall|i: int| 0 <= i < s.len() ==> is_digit(#[trigger] s[i])
}

/// The value of a string of decimal digits, most significant first.
pub open spec fn digits_value(s: Seq<char>) -> int
    decreases s.len(),
{
    if s.len() == 0 {
        0
    } else {
        digits_value(s.drop_last()) * 10 + digit_val(s.last())
    }
}

/// What `str::parse::<i32>` gives: an optional `+` or `-`, then one or more
/// ASCII digits whose value, with the sign, fits in an `i32`.
pub open spec fn spec_parse_i32(s: Seq<char>) -> Option<i32> {
    let signed = s.len() > 0 && (s[0] == '-' || s[0] == '+');
    let neg = s.len() > 0 && s[0] == '-';
    let body = if signed { s.drop_first() } else { s };
    parse_digits(neg, body)
}

/// The value of a run of digits with its sign, where it is non-empty and fits in an `i32`.
pub open spec fn parse_digits(neg: bool, body: Seq<char>) -> Option<i32> {
    if body.len() == 0 || !all_digits(body) {
        None
    } else {
        let v = if neg { -digits_value(body) } else { digits_value(body) };
        if i32::MIN <= v && v <= i32::MAX {
            Some(v as i32)
        } else {
            None
        }
    }
}

pub open spec fn digit_char(d: nat) -> char {
    if d == 0 { '0' }
    else if d == 1 { '1' }
    else if d == 2 { '2' }
    else if d == 3 { '3' }
    else if d == 4 { '4' }
    else if d == 5 { '5' }
    else if d == 6 { '6' }
    else if d == 7 { '7' }
    else if d == 8 { '8' }
    else { '9' }
}

/// The decimal digits of `n`, without leading zeros.
pub open spec fn nat_digits(n: nat) -> Seq<char>
    decreases n,
{
    if n < 10 {
        seq![digit_char(n)]
    } else {
        nat_digits(n / 10).push(digit_char(n % 10))
    }
}

/// What `i32::to_string` gives.
pub open spec fn spec_fmt_i32(v: i32) -> Seq<char> {
    if v < 0 {
        seq!['-'] + nat_digits((-(v as int)) as nat)
    } else {
        nat_digits(v as nat)
    }
}

proof fn lemma_digit_char(d: nat)
    requires
        d < 10,
    ensures
        is_digit(digit_char(d)),
        digit_val(digit_char(d)) == d,
{
}

proof fn lemma_nat_digits(n: nat)
    ensures
        nat_digits(n).len() > 0,
        all_digits(nat_digits(n)),
        digits_value(nat_digits(n)) == n,
    decreases n,
{
    if n < 10 {
        lemma_digit_char(n);
        assert(nat_digits(n).drop_last() =~= Seq::<char>::empty());
        assert(digits_value(Seq::<char>::empty()) == 0);
    } else {
        lemma_nat_digits(n / 10);
        lemma_digit_char(n % 10);
        let s = nat_digits(n);
        assert(s.drop_last() =~= nat_digits(n / 10));
        assert(s.last() == digit_char(n % 10));
        assert((n / 10) * 10 + n % 10 == n) by (nonlinear_arith);
        assert forall|i: int| 0 <= i < s.len() implies is_digit(#[trigger] s[i]) by {
            if i < s.len() - 1 {
                assert(s[i] == nat_digits(n / 10)[i]);
            }
        }
    }
}

/// Reading back what `i32::to_string` writes gives the same number.
pub proof fn lemma_parse_fmt_i32(v: i32)
    ensures
        spec_parse_i32(spec_fmt_i32(v)) == Some(v),
{
    if v < 0 {
        let n = (-(v as int)) as nat;
        lemma_nat_digits(n);
        let s = spec_fmt_i32(v);
        assert(s.drop_first() =~= nat_digits(n));
    } else {
        lemma_nat_digits(v as nat);
        let s = nat_digits(v as nat);
        assert(is_digit(s[0]));
    }
}

proof fn lemma_digits_prefix_le(s: Seq<char>, k: int)
    requires
        all_digits(s),
        0 <= k <= s.len(),
    ensures
        0 <= digits_value(s.take(k)) <= digits_value(s),
    decreases s.len(),
{
    if s.len() == 0 {
        assert(s.take(k) =~= s);
    } else if k == s.len() {
        assert(s.take(k) =~= s);
        lemma_digits_prefix_le(s.drop_last(), 0);
        assert(s.drop_last().take(0) =~= s.take(0));
    } else {
        let t = s.drop_last();
        assert(all_digits(t)) by {
            assert forall|i: int| 0 <= i < t.len() implies is_digit(#[trigger] t[i]) by {
                assert(t[i] == s[i]);
            }
        }
        lemma_digits_prefix_le(t, k);
        assert(t.take(k) =~= s.take(k));
        lemma_digits_prefix_le(t, t.len() as int);
        assert(t.take(t.len() as int) =~= t);
        assert(is_digit(s[s.len() - 1]));
    }
}

/// Reads a team number the way `str::parse::<i32>` does.
pub fn parse_i32(s: &str) -> (r: Option<i32>)
    ensures
        r == spec_parse_i32(s@),
{
    let len = s.unicode_len();
    if len == 0 {
        return None;
    }
    let first = s.get_char(0);
    let neg = first == '-';
    let start: usize = if first == '-' || first == '+' { 1 } else { 0 };
    if start == len {
        return None;
    }
    let ghost body = if start == 1 { s@.drop_first() } else { s@ };
    proof {
        assert(body =~= s@.subrange(start as int, len as int));
        assert(s@[0] == first);
        assert(spec_parse_i32(s@) == parse_digits(neg, body));
    }
    let mut acc: i64 = 0;
    let mut i: usize = start;
    while i < len
        invariant
            start <= i <= len,
            len == s@.len(),
            1 <= len,
            start == 0 || start == 1,
            body == s@.subrange(start as int, len as int),
            spec_parse_i32(s@) == parse_digits(neg, body),
            0 <= acc <= 2147483648,
            acc == digits_value(body.take(i - start)),
            all_digits(body.take(i - start)),
        decreases len - i,
    {
        let c = s.get_char(i);
        if !('0' <= c && c <= '9') {
            proof {
                assert(body[i - start] == c);
                assert(!is_digit(body[i - start]));
                assert(!all_digits(body));
            }
            return None;
        }
        let d: i64 = (c as u32 - '0' as u32) as i64;
        proof {
            let k = i - start;
            let t = body.take(k + 1);
            assert(t.drop_last() =~= body.take(k));
            assert(t.last() == c);
            assert forall|j: int| 0 <= j < t.len() implies is_digit(#[trigger] t[j]) by {
                if j < k {
                    assert(t[j] == body.take(k)[j]);
                }
            }
        }
        let ghost old_acc = acc;
        acc = acc * 10 + d;
        i = i + 1;
        proof {
            let t = body.take(i - start);
            assert(t.drop_last() =~= body.take(i - start - 1));
            assert(digits_value(t) == digits_value(t.drop_last()) * 10 + digit_val(t.last()));
            assert(acc == digits_value(t));
        }
        if acc > 2147483648 {
            proof {
                assert(body.take(body.len() as int) =~= body);
                if all_digits(body) {
                    lemma_digits_prefix_le(body, i - start);
                }
            }
            return None;
        }
    }
    proof {
        assert(body.take(body.len() as int) =~= body);
    }
    if neg {
        Some((-acc) as i32)
    } else if acc > 2147483647 {
        None
    } else {
        Some(acc as i32)
    }
}

fn digit_str(d: u32) -> (r: &'static str)
    requires
        d < 10,
    ensures
        r@ == seq![digit_char(d as nat)],
{
    proof {
        reveal_strlit("0");
        reveal_strlit("1");
        reveal_strlit("2");
        reveal_strlit("3");
        reveal_strlit("4");
        reveal_strlit("5");
        reveal_strlit("6");
        reveal_strlit("7");
        reveal_strlit("8");
        reveal_strlit("9");
    }
    if d == 0 { "0" }
    else if d == 1 { "1" }
    else if d == 2 { "2" }
    else if d == 3 { "3" }
    else if d == 4 { "4" }
    else if d == 5 { "5" }
    else if d == 6 { "6" }
    else if d == 7 { "7" }
    else if d == 8 { "8" }
    else { "9" }
}

fn fmt_nat(n: u32) -> (r: String)
    ensures
        r@ == nat_digits(n as nat),
    decreases n,
{
    if n < 10 {
        String::from_str(digit_str(n))
    } else {
        let mut s = fmt_nat(n / 10);
        s.append(digit_str(n % 10));
        proof {
            assert(s@ =~= nat_digits((n / 10) as nat).push(digit_char((n % 10) as nat)));
        }
        s
    }
}

/// Writes a number the way `i32::to_string` does.
pub fn fmt_i32(v: i32) -> (r: String)
    ensures
        r@ == spec_fmt_i32(v),
{
    if v < 0 {
        let m: u32 = (0i64 - v as i64) as u32;
        let mut s = String::from_str("-");
        proof {
            reveal_strlit("-");
        }
        let digits = fmt_nat(m);
        s.append(digits.as_str());
        s
    } else {
        fmt_nat(v as u32)
    }
}

} // verus!

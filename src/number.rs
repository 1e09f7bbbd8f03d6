//! Decimal text of whole numbers of seconds.
use vstd::prelude::*;

verus! {

/// Whether `c` is an ASCII decimal digit.
pub open spec fn is_digit(c: char) -> bool {
    '0' <= c && c <= '9'
}

/// The value of a digit character (zero for any other character).
pub open spec fn digit_value(c: char) -> nat {
    if is_digit(c) {
        (c as nat - '0' as nat) as nat
    } else {
        0
    }
}

/// Whether `s` is a non-empty run of decimal digits.
pub open spec fn all_digits(s: Seq<char>) -> bool {
    s.len() > 0 && forall|i: int| 0 <= i < s.len() ==> is_digit(#[trigger] s[i])
}

/// The value of a run of decimal digits, most significant first.
pub open spec fn digits_value(s: Seq<char>) -> nat
    decreases s.len(),
{
    if s.len() == 0 {
        0
    } else {
        digits_value(s.drop_last()) * 10 + digit_value(s.last())
    }
}

/// The number that `s` denotes as an optionally signed decimal, if it fits in an `i64`.
pub open spec fn parse_spec(s: Seq<char>) -> Option<int> {
    if s.len() > 0 && s[0] == '-' && all_digits(s.skip(1)) {
        let v = digits_value(s.skip(1));
        if v <= 0x8000_0000_0000_0000 {
            Some(-v)
        } else {
            None
        }
    } else if s.len() > 0 && s[0] == '+' && all_digits(s.skip(1)) {
        let v = digits_value(s.skip(1));
        if v <= 0x7fff_ffff_ffff_ffff {
            Some(v as int)
        } else {
            None
        }
    } else if all_digits(s) {
        let v = digits_value(s);
        if v <= 0x7fff_ffff_ffff_ffff {
            Some(v as int)
        } else {
            None
        }
    } else {
        None
    }
}

/// The character of a digit value below ten.
pub open spec fn digit_char(d: nat) -> char {
    if d == 0 { '0' }
    else if d == 1 { '1' }
    else if d == 2 { '2' }
    else if d == 3 { '3' }
    else if d == 4 { '4' }
    else if d == 5 { '5' }
    else if d == 6 { '6' }
    else if d == 7 { '7' }
    else if d == 8 { '8' }
    else { '9' }
}

/// The shortest decimal digits of `n`.
pub open spec fn digits_of(n: nat) -> Seq<char>
    decreases n,
{
    if n < 10 {
        seq![digit_char(n)]
    } else {
        digits_of(n / 10).push(digit_char(n % 10))
    }
}

/// The decimal text of `n`: its digits, after a minus sign when it is negative.
pub open spec fn render_spec(n: int) -> Seq<char> {
    if n < 0 {
        seq!['-'] + digits_of((-n) as nat)
    } else {
        digits_of(n as nat)
    }
}

proof fn lemma_digit_char(d: nat)
    requires
        d < 10,
    ensures
        is_digit(digit_char(d)),
        digit_value(digit_char(d)) == d,
{
}

/// The digits of `n` are digits, and they denote `n`.
pub proof fn lemma_digits_of(n: nat)
    ensures
        all_digits(digits_of(n)),
        digits_value(digits_of(n)) == n,
    decreases n,
{
    if n < 10 {
        lemma_digit_char(n);
        assert(digits_of(n).drop_last() =~= Seq::<char>::empty());
        assert(digits_value(Seq::<char>::empty()) == 0);
    } else {
        lemma_digits_of(n / 10);
        lemma_digit_char(n % 10);
        let s = digits_of(n);
        assert(s.drop_last() =~= digits_of(n / 10));
        assert(s.last() == digit_char(n % 10));
        assert(n == (n / 10) * 10 + n % 10);
        assert forall|i: int| 0 <= i < s.len() implies is_digit(#[trigger] s[i]) by {
            if i < s.len() - 1 {
                assert(s[i] == digits_of(n / 10)[i]);
            }
        }
    }
}

/// Reading back the decimal text of a number gives the number.
pub proof fn lemma_parse_render(n: i64)
    ensures
        parse_spec(render_spec(n as int)) == Some(n as int),
{
    if n < 0 {
        let m = (-(n as int)) as nat;
        lemma_digits_of(m);
        let s = render_spec(n as int);
        assert(s.skip(1) =~= digits_of(m));
    } else {
        lemma_digits_of(n as nat);
        let s = digits_of(n as nat);
        assert(s[0] != '-' && s[0] != '+');
    }
}

/// A longer run of digits is worth at least as much as its prefix.
proof fn lemma_digits_value_prefix(s: Seq<char>, k: int)
    requires
        0 <= k <= s.len(),
    ensures
        digits_value(s.take(k)) <= digits_value(s),
    decreases s.len(),
{
    if k < s.len() {
        lemma_digits_value_prefix(s.drop_last(), k);
        assert(s.drop_last().take(k) =~= s.take(k));
    } else {
        assert(s.take(k) =~= s);
    }
}

/// The text of a single digit.
fn digit_text(d: u64) -> (r: &'static str)
    requires
        d < 10,
    ensures
        r@ == seq![digit_char(d as nat)],
{
    if d == 0 {
        proof { reveal_strlit("0"); }
        "0"
    } else if d == 1 {
        proof { reveal_strlit("1"); }
        "1"
    } else if d == 2 {
        proof { reveal_strlit("2"); }
        "2"
    } else if d == 3 {
        proof { reveal_strlit("3"); }
        "3"
    } else if d == 4 {
        proof { reveal_strlit("4"); }
        "4"
    } else if d == 5 {
        proof { reveal_strlit("5"); }
        "5"
    } else if d == 6 {
        proof { reveal_strlit("6"); }
        "6"
    } else if d == 7 {
        proof { reveal_strlit("7"); }
        "7"
    } else if d == 8 {
        proof { reveal_strlit("8"); }
        "8"
    } else {
        proof { reveal_strlit("9"); }
        "9"
    }
}

/// Appends the decimal digits of `n` to `out`.
fn push_digits(n: u64, out: &mut String)
    ensures
        final(out)@ == old(out)@ + digits_of(n as nat),
    decreases n,
{
    if n >= 10 {
        push_digits(n / 10, out);
    }
    out.append(digit_text(n % 10));
    proof {
        if n >= 10 {
            assert(digits_of(n as nat) == digits_of((n / 10) as nat).push(digit_char((n % 10) as nat)));
        }
    }
}

/// Appends the decimal text of `n` to `out`.
pub fn push_decimal(n: i64, out: &mut String)
    ensures
        final(out)@ == old(out)@ + render_spec(n as int),
{
    if n < 0 {
        proof { reveal_strlit("-"); }
        out.append("-");
        let m: u64 = ((-(n + 1)) as u64) + 1;
        push_digits(m, out);
        assert(final(out)@ =~= old(out)@ + render_spec(n as int));
    } else {
        push_digits(n as u64, out);
    }
}

/// The value of the digits of `s` from `start` on, if they are all digits and
/// the value is at most `bound`.
fn parse_digits(s: &str, start: usize, bound: u64) -> (r: Option<u64>)
    requires
        start <= s@.len(),
        bound >= 9,
    ensures
        match r {
            Some(v) => all_digits(s@.skip(start as int)) && v == digits_value(s@.skip(start as int))
                && v <= bound,
            None => !(all_digits(s@.skip(start as int)) && digits_value(s@.skip(start as int))
                <= bound),
        },
{
    let len = s.unicode_len();
    if start >= len {
        return None;
    }
    let ghost t = s@.skip(start as int);
    let mut acc: u64 = 0;
    let mut i: usize = start;
    while i < len
        invariant
            start <= i <= len,
            len == s@.len(),
            bound >= 9,
            t == s@.skip(start as int),
            acc <= bound,
            acc == digits_value(t.take(i - start)),
            forall|j: int| 0 <= j < i - start ==> is_digit(#[trigger] t[j]),
        decreases len - i,
    {
        let c = s.get_char(i);
        if !('0' <= c && c <= '9') {
            assert(!is_digit(t[i - start]));
            return None;
        }
        let d: u64 = (c as u32 - '0' as u32) as u64;
        proof {
            let p = t.take(i + 1 - start);
            assert(p.drop_last() =~= t.take(i - start));
            assert(p.last() == c);
        }
        if acc > (bound - d) / 10 {
            proof {
                lemma_digits_value_prefix(t, i + 1 - start);
            }
            return None;
        }
        acc = acc * 10 + d;
        i = i + 1;
    }
    assert(t.take(len - start) =~= t);
    Some(acc)
}

/// Reads `s` as an optionally signed decimal number of seconds.
pub fn parse_decimal(s: &str) -> (r: Option<i64>)
    ensures
        match r {
            Some(v) => parse_spec(s@) == Some(v as int),
            None => parse_spec(s@) is None,
        },
{
    let len = s.unicode_len();
    if len == 0 {
        return None;
    }
    let c = s.get_char(0);
    if c == '-' {
        match parse_digits(s, 1, 0x8000_0000_0000_0000) {
            Some(v) => {
                if v == 0x8000_0000_0000_0000 {
                    Some(i64::MIN)
                } else {
                    Some(-(v as i64))
                }
            }
            None => None,
        }
    } else if c == '+' {
        match parse_digits(s, 1, 0x7fff_ffff_ffff_ffff) {
            Some(v) => Some(v as i64),
            None => None,
        }
    } else {
        assert(s@.skip(0) =~= s@);
        match parse_digits(s, 0, 0x7fff_ffff_ffff_ffff) {
            Some(v) => Some(v as i64),
            None => None,
        }
    }
}

} // verus!

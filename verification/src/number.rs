//! Decimal formatting (`u64::to_string`) and parsing (`u64::from_str`) over
//! character sequences, with the round-trip between them.
use vstd::prelude::*;

verus! {

pub open spec fn is_digit(c: char) -> bool {
    '0' <= c <= '9'
}

pub open spec fn digit_value(c: char) -> int {
    (c as int) - 48
}

pub open spec fn digit_char(d: int) -> char {
    (d + 48) as char
}

pub open spec fn all_digits(s: Seq<char>) -> bool {
    forall|i: int| 0 <= i < s.len() ==> is_digit(#[trigger] s[i])
}

/// The number written by a string of decimal digits.
pub open spec fn digits_value(s: Seq<char>) -> nat
    decreases s.len(),
{
    if s.len() == 0 {
        0
    } else {
        (digits_value(s.drop_last()) * 10 + digit_value(s.last())) as nat
    }
}

/// The decimal representation of `n` (what `n.to_string()` gives).
pub open spec fn dec_seq(n: nat) -> Seq<char>
    decreases n,
{
    if n < 10 {
        seq![digit_char(n as int)]
    } else {
        dec_seq(n / 10).push(digit_char((n % 10) as int))
    }
}

/// What `str::parse::<u64>` returns: an optional `+`, then at least one ASCII
/// digit and nothing else, with a value that fits in 64 bits.
pub open spec fn parse_u64_spec(s: Seq<char>) -> Option<u64> {
    let body = if s.len() > 0 && s[0] == '+' {
        s.drop_first()
    } else {
        s
    };
    if body.len() > 0 && all_digits(body) && digits_value(body) <= u64::MAX {
        Some(digits_value(body) as u64)
    } else {
        None
    }
}

pub proof fn lemma_dec_seq(n: nat)
    ensures
        dec_seq(n).len() >= 1,
        all_digits(dec_seq(n)),
        digits_value(dec_seq(n)) == n,
    decreases n,
{
    if n < 10 {
        assert(dec_seq(n).drop_last() =~= Seq::<char>::empty());
        assert(digits_value(Seq::<char>::empty()) == 0);
        assert(digit_value(digit_char(n as int)) == n);
    } else {
        assert(digit_value(digit_char((n % 10) as int)) == n % 10);
        lemma_dec_seq(n / 10);
        let s = dec_seq(n);
        assert(s.drop_last() =~= dec_seq(n / 10));
        assert(s.last() == digit_char((n % 10) as int));
        assert(digits_value(s) == digits_value(s.drop_last()) * 10 + digit_value(s.last()));
        assert((n / 10) * 10 + n % 10 == n);
        assert forall|i: int| 0 <= i < s.len() implies is_digit(#[trigger] s[i]) by {
            if i < s.len() - 1 {
                assert(s[i] == dec_seq(n / 10)[i]);
            }
        }
    }
}

/// Formatting then parsing gives the number back.
pub proof fn lemma_parse_dec(n: u64)
    ensures
        parse_u64_spec(dec_seq(n as nat)) == Some(n),
{
    lemma_dec_seq(n as nat);
    let s = dec_seq(n as nat);
    assert(is_digit(s[0]));
}

fn digit_of(d: u64) -> (c: char)
    requires
        d < 10,
    ensures
        c == digit_char(d as int),
        is_digit(c),
{
    let b: u8 = (d as u8) + 48;
    b as char
}

/// `n.to_string()` as characters.
pub fn u64_to_dec(n: u64) -> (r: Vec<char>)
    ensures
        r@ == dec_seq(n as nat),
    decreases n,
{
    if n < 10 {
        let mut v: Vec<char> = Vec::new();
        v.push(digit_of(n));
        assert(v@ =~= dec_seq(n as nat));
        v
    } else {
        let mut v = u64_to_dec(n / 10);
        v.push(digit_of(n % 10));
        v
    }
}

proof fn lemma_digits_value_grows(s: Seq<char>, k: int)
    requires
        0 <= k <= s.len(),
        all_digits(s),
    ensures
        digits_value(s.take(k)) <= digits_value(s),
    decreases s.len() - k,
{
    if k < s.len() {
        lemma_digits_value_grows(s, k + 1);
        assert(s.take(k + 1).drop_last() =~= s.take(k));
        assert(is_digit(s[k]));
        assert(s.take(k + 1).last() == s[k]);
    } else {
        assert(s.take(k) =~= s);
    }
}

/// `str::parse::<u64>` over characters.
pub fn parse_u64(v: &Vec<char>) -> (r: Option<u64>)
    ensures
        r == parse_u64_spec(v@),
{
    let start: usize = if v.len() > 0 && v[0] == '+' {
        1
    } else {
        0
    };
    let ghost body = if v@.len() > 0 && v@[0] == '+' {
        v@.drop_first()
    } else {
        v@
    };
    assert(body =~= v@.subrange(start as int, v@.len() as int));
    if start >= v.len() {
        return None;
    }
    let mut acc: u64 = 0;
    let mut i: usize = start;
    while i < v.len()
        invariant
            start <= i <= v.len(),
            body == v@.subrange(start as int, v@.len() as int),
            body == (if v@.len() > 0 && v@[0] == '+' {
                v@.drop_first()
            } else {
                v@
            }),
            acc as nat == digits_value(body.take(i - start)),
            all_digits(body.take(i - start)),
        decreases v.len() - i,
    {
        let c = v[i];
        assert(body.take(i - start + 1).drop_last() =~= body.take(i - start));
        assert(body.take(i - start + 1).last() == c);
        if !('0' <= c && c <= '9') {
            assert(!is_digit(body[i - start]));
            assert(!all_digits(body));
            return None;
        }
        let d: u64 = (c as u64) - 48;
        if acc > (u64::MAX - d) / 10 {
            proof {
                let q = (u64::MAX - d) / 10;
                assert(acc * 10 + d > u64::MAX) by (nonlinear_arith)
                    requires
                        acc > q,
                        q == (u64::MAX - d) / 10,
                        d < 10,
                ;
                assert(digits_value(body.take(i - start + 1)) == acc * 10 + d);
                if all_digits(body) {
                    lemma_digits_value_grows(body, i - start + 1);
                }
            }
            return None;
        }
        acc = acc * 10 + d;
        i = i + 1;
        assert forall|k: int| 0 <= k < body.take(i - start).len() implies is_digit(
            #[trigger] body.take(i - start)[k],
        ) by {
            if k < i - start - 1 {
                assert(body.take(i - start)[k] == body.take(i - start - 1)[k]);
            }
        }
    }
    assert(body.take(i - start) =~= body);
    Some(acc)
}

} // verus!

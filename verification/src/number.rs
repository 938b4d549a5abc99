//! Whole numbers as decimal text.

use vstd::prelude::*;

verus! {

/// The digit that stands for `d`.
pub open spec fn digit_char(d: nat) -> char {
    if d == 0 {
        '0'
    } else if d == 1 {
        '1'
    } else if d == 2 {
        '2'
    } else if d == 3 {
        '3'
    } else if d == 4 {
        '4'
    } else if d == 5 {
        '5'
    } else if d == 6 {
        '6'
    } else if d == 7 {
        '7'
    } else if d == 8 {
        '8'
    } else {
        '9'
    }
}

/// Whether `c` is one of the ten ASCII digits.
pub open spec fn is_digit(c: char) -> bool {
    '0' as u32 <= c as u32 <= '9' as u32
}

/// The number that the digit `c` stands for.
pub open spec fn digit_value(c: char) -> nat {
    (c as u32 - '0' as u32) as nat
}

/// The decimal digits of `n`, without leading zeros.
pub open spec fn dec(n: nat) -> Seq<char>
    decreases n,
{
    if n < 10 {
        seq![digit_char(n)]
    } else {
        dec(n / 10).push(digit_char(n % 10))
    }
}

/// The decimal text of a number with a sign.
pub open spec fn dec_int(n: int) -> Seq<char> {
    if n < 0 {
        seq!['-'] + dec((-n) as nat)
    } else {
        dec(n as nat)
    }
}

fn digit(d: u64) -> (c: char)
    requires
        d < 10,
    ensures
        c == digit_char(d as nat),
{
    if d == 0 {
        '0'
    } else if d == 1 {
        '1'
    } else if d == 2 {
        '2'
    } else if d == 3 {
        '3'
    } else if d == 4 {
        '4'
    } else if d == 5 {
        '5'
    } else if d == 6 {
        '6'
    } else if d == 7 {
        '7'
    } else if d == 8 {
        '8'
    } else {
        '9'
    }
}

/// Writes `n` in decimal.
pub fn dec_u64(n: u64) -> (r: String)
    ensures
        r@ == dec(n as nat),
    decreases n,
{
    if n < 10 {
        let mut r: String = String::new();
        r.push(digit(n));
        proof {
            assert(r@ =~= seq![digit_char(n as nat)]);
        }
        r
    } else {
        let mut r: String = dec_u64(n / 10);
        r.push(digit(n % 10));
        r
    }
}

/// Writes `n` in decimal.
pub fn dec_usize(n: usize) -> (r: String)
    ensures
        r@ == dec(n as nat),
{
    dec_u64(n as u64)
}

/// Writes `n` in decimal, with a minus sign where it is negative.
pub fn dec_i32(n: i32) -> (r: String)
    ensures
        r@ == dec_int(n as int),
{
    if n < 0 {
        let mut r: String = String::new();
        r.push('-');
        r.append(dec_u64((-(n as i64)) as u64).as_str());
        proof {
            assert(r@ =~= seq!['-'] + dec((-(n as int)) as nat));
        }
        r
    } else {
        dec_u64(n as u64)
    }
}

/// The number that a row of digits stands for.
pub open spec fn digits_value(s: Seq<char>) -> nat
    decreases s.len(),
{
    if s.len() == 0 {
        0
    } else {
        digits_value(s.drop_last()) * 10 + digit_value(s.last())
    }
}

/// `s` without the plus sign that may stand before a number.
pub open spec fn without_plus(s: Seq<char>) -> Seq<char> {
    if s.len() > 0 && s[0] == '+' {
        s.skip(1)
    } else {
        s
    }
}

/// The number that `s` writes: digits, at least one, with or without a plus sign before them.
pub open spec fn number_value(s: Seq<char>) -> Option<nat> {
    let d = without_plus(s);
    if d.len() > 0 && forall|i: int| 0 <= i < d.len() ==> is_digit(#[trigger] d[i]) {
        Some(digits_value(d))
    } else {
        None
    }
}

/// Reads a number that is at most `max`.
pub fn parse_number(s: &str, max: u64) -> (r: Option<u64>)
    ensures
        r == match number_value(s@) {
            Some(n) => if n <= max {
                Some(n as u64)
            } else {
                None
            },
            None => None::<u64>,
        },
{
    let cs = crate::text::chars_of(s);
    let start: usize = if cs.len() > 0 && cs[0] == '+' {
        1
    } else {
        0
    };
    let ghost d = without_plus(s@);
    proof {
        assert(d =~= s@.skip(start as int));
    }
    if start == cs.len() {
        return None;
    }
    let mut value: u64 = 0;
    let mut over: bool = false;
    let mut i: usize = start;
    proof {
        assert(d.take(0) =~= seq![]);
    }
    while i < cs.len()
        invariant
            start <= i <= cs@.len(),
            cs@ == s@,
            d == s@.skip(start as int),
            d == without_plus(s@),
            forall|j: int| 0 <= j < i - start ==> is_digit(#[trigger] d[j]),
            !over ==> value == digits_value(d.take(i - start)) && value <= max,
            over ==> digits_value(d.take(i - start)) > max,
        decreases cs@.len() - i,
    {
        let c: u32 = cs[i] as u32;
        proof {
            assert(d[i - start] == cs@[i as int]);
        }
        if c < '0' as u32 || c > '9' as u32 {
            return None;
        }
        let k: u64 = (c - '0' as u32) as u64;
        proof {
            assert(d.take(i - start + 1).drop_last() =~= d.take(i - start));
        }
        if !over {
            let wide: u128 = value as u128 * 10 + k as u128;
            if wide > max as u128 {
                over = true;
            } else {
                value = wide as u64;
            }
        }
        i = i + 1;
    }
    proof {
        assert(d.take(d.len() as int) =~= d);
    }
    if over {
        None
    } else {
        Some(value)
    }
}

/// Decimal text is made of digits, at least one of them.
pub proof fn lemma_dec_digits(n: nat)
    ensures
        dec(n).len() > 0,
        forall|i: int| 0 <= i < dec(n).len() ==> is_digit(#[trigger] dec(n)[i]),
        digits_value(dec(n)) == n,
    decreases n,
{
    reveal_with_fuel(digits_value, 2);
    if n < 10 {
        assert(dec(n).drop_last() =~= seq![]);
    } else {
        lemma_dec_digits(n / 10);
        assert(dec(n).drop_last() =~= dec(n / 10));
    }
}

/// Reading back the decimal text of a number gives the number.
pub proof fn law_dec_reads_back(n: nat)
    ensures
        number_value(dec(n)) == Some(n),
{
    lemma_dec_digits(n);
    assert(is_digit(dec(n)[0]));
}

/// Whether a text is made of decimal digits only, and of one at least.
pub open spec fn all_digits(s: Seq<char>) -> bool {
    s.len() > 0 && forall|i: int| 0 <= i < s.len() ==> "0123456789"@.contains(#[trigger] s[i])
}

proof fn lemma_digit(c: char)
    ensures
        is_digit(c) <==> "0123456789"@.contains(c),
        is_digit(c) ==> c != '+' && "0123456789"@[digit_value(c) as int] == c,
        is_digit(c) ==> digit_value(c) < 10,
{
    reveal_strlit("0123456789");
    let all = "0123456789"@;
    let n = c as u32;
    assert(all.len() == 10);
    if 48 <= n <= 57 {
        let k = n - 48;
        vstd::utf8::char_u32_cast(all[k], all[k] as u32);
        vstd::utf8::char_u32_cast(c, n);
        assert(all[k] as u32 == n);
        assert(all[k] == c);
    }
}

/// A text is a number exactly where it is digits, with or without a plus sign before them. One
/// digit stands for its place among the ten digits, and one more digit behind a number makes ten
/// times as much and that digit; a zero before it changes nothing.
pub proof fn law_number_value(s: Seq<char>, d: nat)
    requires
        d < 10,
    ensures
        number_value(s) is Some <==> all_digits(s) || exists|t: Seq<char>|
            all_digits(t) && s == #[trigger] (seq!['+'] + t),
        all_digits(s) ==> number_value(seq!['+'] + s) == number_value(s),
        all_digits(s) ==> number_value(seq!['0'] + s) == number_value(s),
        all_digits(s) ==> number_value(s.push("0123456789"@[d as int])) == Some(
            number_value(s)->0 * 10 + d,
        ),
        number_value(seq!["0123456789"@[d as int]]) == Some(d),
{
    reveal_strlit("0123456789");
    let c = "0123456789"@[d as int];
    assert forall|k: int| 0 <= k < s.len() implies is_digit(#[trigger] s[k])
        == "0123456789"@.contains(s[k]) && (is_digit(s[k]) ==> s[k] != '+') by {
        lemma_digit(s[k]);
    }
    lemma_digit(c);
    assert(c as u32 == 48 + d);
    assert(digit_value(c) == d);
    assert(is_digit(c));
    if all_digits(s) {
        assert(is_digit(s[0]) && s[0] != '+');
        assert(without_plus(s) == s);
        let p = seq!['+'] + s;
        assert(without_plus(p) =~= s);
        let z = seq!['0'] + s;
        assert(z[0] == '0');
        assert forall|i: int| 0 <= i < z.len() implies is_digit(#[trigger] z[i]) by {
            if i > 0 {
                assert(z[i] == s[i - 1]);
            }
        }
        lemma_leading_zero(s);
        let q = s.push(c);
        assert(q[0] == s[0]);
        assert forall|i: int| 0 <= i < q.len() implies is_digit(#[trigger] q[i]) by {
            if i < s.len() {
                assert(q[i] == s[i]);
            }
        }
        assert(q.drop_last() =~= s);
    }
    let one = seq![c];
    assert(without_plus(one) == one);
    assert(one.drop_last() =~= seq![]);
    assert(digits_value(one.drop_last()) == 0);
    if number_value(s) is Some {
        let t = without_plus(s);
        assert forall|i: int| 0 <= i < t.len() implies "0123456789"@.contains(#[trigger] t[i]) by {
            lemma_digit(t[i]);
        }
        if s[0] == '+' {
            assert(s =~= seq!['+'] + t);
        }
    }
    if exists|t: Seq<char>| all_digits(t) && s == #[trigger] (seq!['+'] + t) {
        let t = choose|t: Seq<char>| all_digits(t) && s == #[trigger] (seq!['+'] + t);
        assert(without_plus(s) =~= t);
        assert forall|i: int| 0 <= i < t.len() implies is_digit(#[trigger] t[i]) by {
            lemma_digit(t[i]);
        }
    }
}

proof fn lemma_leading_zero(s: Seq<char>)
    ensures
        digits_value(seq!['0'] + s) == digits_value(s),
    decreases s.len(),
{
    let z = seq!['0'] + s;
    if s.len() == 0 {
        assert(z.drop_last() =~= seq![]);
        assert(digits_value(z.drop_last()) == 0);
        assert(digit_value('0') == 0);
    } else {
        assert(z.drop_last() =~= seq!['0'] + s.drop_last());
        lemma_leading_zero(s.drop_last());
    }
}

/// A number is written in digits alone, and without a zero before them unless it is zero; a
/// negative one has a minus sign before what its opposite is written as.
pub proof fn law_dec_is_plain(n: nat)
    ensures
        all_digits(dec(n)),
        n > 0 ==> dec(n)[0] != '0',
        n == 0 ==> dec(n) == seq!['0'],
        dec_int(n as int) == dec(n),
        n > 0 ==> dec_int(-(n as int)) == seq!['-'] + dec(n),
    decreases n,
{
    reveal_strlit("0123456789");
    if n < 10 {
        assert("0123456789"@[n as int] == digit_char(n));
        assert(dec(n)[0] == digit_char(n));
    } else {
        law_dec_is_plain(n / 10);
        assert("0123456789"@[(n % 10) as int] == digit_char(n % 10));
        assert(dec(n)[0] == dec(n / 10)[0]);
        assert forall|i: int| 0 <= i < dec(n).len() implies "0123456789"@.contains(
            #[trigger] dec(n)[i],
        ) by {
            if i < dec(n / 10).len() {
                assert(dec(n)[i] == dec(n / 10)[i]);
            }
        }
    }
}

} // verus!

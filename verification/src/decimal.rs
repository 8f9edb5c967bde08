use vstd::prelude::*;

verus! {

/// The character of a digit.
pub open spec fn digit_char(d: int) -> char {
    if d == 0 {
        '0'
    } else if d == 1 {
        '1'
    } else if d == 2 {
        '2'
    } else if d == 3 {
        '3'
    } else if d == 4 {
        '4'
    } else if d == 5 {
        '5'
    } else if d == 6 {
        '6'
    } else if d == 7 {
        '7'
    } else if d == 8 {
        '8'
    } else {
        '9'
    }
}

/// Whether `c` is an ASCII digit.
pub open spec fn is_digit(c: char) -> bool {
    '0' <= c <= '9'
}

/// The value of an ASCII digit.
pub open spec fn digit_value(c: char) -> int {
    (c as int) - ('0' as int)
}

/// The decimal writing of `n`, without leading zeros.
pub open spec fn dec(n: nat) -> Seq<char>
    decreases n,
{
    if n < 10 {
        seq![digit_char(n as int)]
    } else {
        dec(n / 10) + seq![digit_char((n % 10) as int)]
    }
}

/// The decimal writing of `x`, with a `-` before it when it is negative.
pub open spec fn dec_int(x: int) -> Seq<char> {
    if x < 0 {
        seq!['-'] + dec((-x) as nat)
    } else {
        dec(x as nat)
    }
}

/// Whether every character of `s` is an ASCII digit.
pub open spec fn all_digits(s: Seq<char>) -> bool {
    forall|i: int| 0 <= i < s.len() ==> is_digit(#[trigger] s[i])
}

/// The number that the digits `s` write.
pub open spec fn digits_value(s: Seq<char>) -> int
    decreases s.len(),
{
    if s.len() == 0 {
        0
    } else {
        digits_value(s.drop_last()) * 10 + digit_value(s.last())
    }
}

/// What `s` reads as an `i32`: an optional sign, then at least one ASCII
/// digit, the value in range; nothing else.
pub open spec fn parse_i32_spec(s: Seq<char>) -> Option<i32> {
    let neg = s.len() > 0 && s[0] == '-';
    let body = if s.len() > 0 && (s[0] == '-' || s[0] == '+') {
        s.skip(1)
    } else {
        s
    };
    let v = if neg {
        -digits_value(body)
    } else {
        digits_value(body)
    };
    if body.len() > 0 && all_digits(body) && i32::MIN <= v <= i32::MAX {
        Some(v as i32)
    } else {
        None
    }
}

proof fn lemma_digit_char(d: int)
    requires
        0 <= d < 10,
    ensures
        is_digit(digit_char(d)),
        digit_value(digit_char(d)) == d,
{
}

/// The decimal writing of a number is its digits, at least one, and reads
/// back as the number.
pub proof fn lemma_dec(n: nat)
    ensures
        dec(n).len() > 0,
        all_digits(dec(n)),
        digits_value(dec(n)) == n,
        dec(n)[0] != '-' && dec(n)[0] != '+',
    decreases n,
{
    if n < 10 {
        lemma_digit_char(n as int);
        assert(dec(n).drop_last() =~= Seq::<char>::empty());
        assert(digits_value(Seq::<char>::empty()) == 0);
        assert(digits_value(dec(n)) == n);
    } else {
        lemma_dec(n / 10);
        lemma_digit_char((n % 10) as int);
        let s = dec(n);
        assert(s.drop_last() =~= dec(n / 10));
        assert(s.last() == digit_char((n % 10) as int));
        assert(n == (n / 10) * 10 + n % 10);
        assert(digits_value(s) == digits_value(dec(n / 10)) * 10 + digit_value(s.last()));
        assert(digits_value(s) == n);
        assert forall|i: int| 0 <= i < s.len() implies is_digit(#[trigger] s[i]) by {
            if i < s.len() - 1 {
                assert(s[i] == dec(n / 10)[i]);
            }
        }
        assert(s[0] == dec(n / 10)[0]);
    }
}

/// The decimal writing of `n`.
pub fn u64_to_decimal(n: u64) -> (r: String)
    ensures
        r@ == dec(n as nat),
    decreases n,
{
    if n < 10 {
        let c = digit_of(n);
        let mut r = String::new();
        r.append(c);
        r
    } else {
        let mut r = u64_to_decimal(n / 10);
        let c = digit_of(n % 10);
        r.append(c);
        assert(r@ =~= dec((n / 10) as nat) + seq![digit_char((n % 10) as int)]);
        r
    }
}

/// The one-character text of the digit `d`.
fn digit_of(d: u64) -> (r: &'static str)
    requires
        d < 10,
    ensures
        r@ == seq![digit_char(d as int)],
{
    proof {
        reveal_strlit("0");
        reveal_strlit("1");
        reveal_strlit("2");
        reveal_strlit("3");
        reveal_strlit("4");
        reveal_strlit("5");
        reveal_strlit("6");
        reveal_strlit("7");
        reveal_strlit("8");
        reveal_strlit("9");
    }
    if d == 0 {
        "0"
    } else if d == 1 {
        "1"
    } else if d == 2 {
        "2"
    } else if d == 3 {
        "3"
    } else if d == 4 {
        "4"
    } else if d == 5 {
        "5"
    } else if d == 6 {
        "6"
    } else if d == 7 {
        "7"
    } else if d == 8 {
        "8"
    } else {
        "9"
    }
}

/// The decimal writing of `x`, as `to_string` gives it.
pub fn i32_to_decimal(x: i32) -> (r: String)
    ensures
        r@ == dec_int(x as int),
{
    if x < 0 {
        let m: u64 = if x == i32::MIN {
            2147483648
        } else {
            (-x) as u64
        };
        let digits = u64_to_decimal(m);
        let mut r = String::new();
        proof {
            reveal_strlit("-");
        }
        r.append("-");
        r.append(digits.as_str());
        assert(r@ =~= seq!['-'] + dec((-x) as nat));
        r
    } else {
        u64_to_decimal(x as u64)
    }
}

/// Reads `s` as an `i32` the way `str::parse::<i32>` does: an optional
/// sign, then one or more ASCII digits, the value in range.
pub fn parse_i32(s: &str) -> (r: Option<i32>)
    ensures
        r == parse_i32_spec(s@),
{
    let n = s.unicode_len();
    let ghost sv = s@;
    let mut start: usize = 0;
    let mut neg = false;
    if n > 0 {
        let c = s.get_char(0);
        if c == '-' {
            neg = true;
            start = 1;
        } else if c == '+' {
            start = 1;
        }
    }
    let ghost body = sv.skip(start as int);
    assert(body =~= (if sv.len() > 0 && (sv[0] == '-' || sv[0] == '+') {
        sv.skip(1)
    } else {
        sv
    }));
    if start == n {
        assert(body.len() == 0);
        return None;
    }
    let mut acc: u64 = 0;
    let mut big = false;
    let mut i = start;
    while i < n
        invariant
            start <= i <= n,
            n == sv.len(),
            sv == s@,
            body == sv.skip(start as int),
            body == (if sv.len() > 0 && (sv[0] == '-' || sv[0] == '+') {
                sv.skip(1)
            } else {
                sv
            }),
            neg == (sv.len() > 0 && sv[0] == '-'),
            forall|k: int| 0 <= k < i - start ==> is_digit(#[trigger] body[k]),
            !big ==> acc == digits_value(body.take(i - start)) && acc <= 2147483648,
            big ==> digits_value(body.take(i - start)) > 2147483648,
        decreases n - i,
    {
        let c = s.get_char(i);
        if !('0' <= c && c <= '9') {
            assert(body[i - start] == c);
            return None;
        }
        let d = (c as u32 - '0' as u32) as u64;
        proof {
            assert(body[i - start] == c);
            assert forall|k: int| 0 <= k < i - start + 1 implies is_digit(#[trigger] body.take(i - start + 1)[k]) by {
                assert(body.take(i - start + 1)[k] == body[k]);
            }
            let t = body.take(i - start + 1);
            assert(t.drop_last() =~= body.take(i - start));
            assert(t.last() == c);
            assert(digit_value(c) == d);
            assert forall|k: int| 0 <= k < (i - start) implies is_digit(#[trigger] body.take(i - start)[k]) by {
                assert(body.take(i - start)[k] == body[k]);
            }
            lemma_digits_nonneg(body.take(i - start));
        }
        if !big {
            if acc > 214748364 || (acc == 214748364 && d > 8) {
                big = true;
            } else {
                acc = acc * 10 + d;
            }
        }
        i = i + 1;
    }
    assert(body.take(n - start) =~= body);
    assert(all_digits(body));
    if big {
        return None;
    }
    if neg {
        let v: i64 = -(acc as i64);
        Some(v as i32)
    } else if acc <= 2147483647 {
        Some(acc as i32)
    } else {
        None
    }
}

proof fn lemma_digits_nonneg(s: Seq<char>)
    requires
        all_digits(s),
    ensures
        digits_value(s) >= 0,
    decreases s.len(),
{
    if s.len() > 0 {
        assert forall|k: int| 0 <= k < s.drop_last().len() implies is_digit(#[trigger] s.drop_last()[k]) by {
            assert(s.drop_last()[k] == s[k]);
        }
        lemma_digits_nonneg(s.drop_last());
        assert(is_digit(s[s.len() - 1]));
    }
}

/// What an `i32` is written as reads back as that `i32`.
pub proof fn law_i32_decimal_round_trip(x: i32)
    ensures
        parse_i32_spec(dec_int(x as int)) == Some(x),
{
    let m: nat = if x < 0 {
        (-x) as nat
    } else {
        x as nat
    };
    lemma_dec(m);
    let s = dec_int(x as int);
    if x < 0 {
        assert(s[0] == '-');
        assert(s.skip(1) =~= dec(m));
    } else {
        assert(s == dec(m));
    }
}

} // verus!

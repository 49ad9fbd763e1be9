use vstd::prelude::*;
use vstd::string::*;

verus! {

/// The character of a decimal digit `d` (for `0 <= d < 10`).
pub open spec fn digit_char(d: nat) -> char {
    (48 + d) as char
}

/// Is `c` one of the ASCII digits `'0'..='9'`?
pub open spec fn is_digit(c: char) -> bool {
    48 <= (c as int) && (c as int) <= 57
}

/// The numeric value of a digit character.
pub open spec fn digit_value(c: char) -> nat {
    ((c as int) - 48) as nat
}

pub open spec fn all_digits(s: Seq<char>) -> bool {
    forall|i: int| 0 <= i < s.len() ==> #[trigger] is_digit(s[i])
}

/// The value of a string of decimal digits, most significant first.
pub open spec fn digits_value(s: Seq<char>) -> nat
    decreases s.len(),
{
    if s.len() == 0 {
        0
    } else {
        digits_value(s.drop_last()) * 10 + digit_value(s.last())
    }
}

/// The shortest decimal rendering of `n`, as `u64::to_string` writes it.
pub open spec fn decimal(n: nat) -> Seq<char>
    decreases n,
{
    if n < 10 {
        seq![digit_char(n)]
    } else {
        decimal(n / 10).push(digit_char(n % 10))
    }
}

/// How `i64::to_string` writes `n`: a minus sign before the magnitude when negative.
pub open spec fn signed_decimal(n: int) -> Seq<char> {
    if n < 0 {
        seq!['-'] + decimal((-n) as nat)
    } else {
        decimal(n as nat)
    }
}

/// How `bool::to_string` writes `b`.
pub open spec fn bool_text(b: bool) -> Seq<char> {
    if b {
        seq!['t', 'r', 'u', 'e']
    } else {
        seq!['f', 'a', 'l', 's', 'e']
    }
}

/// The digits that `u32::from_str` reads: one leading `'+'` is skipped.
pub open spec fn unsigned_digits(s: Seq<char>) -> Seq<char> {
    if s.len() > 0 && s[0] == '+' {
        s.drop_first()
    } else {
        s
    }
}

/// What `str::parse::<u32>` gives back for `s`: a value when, after an optional
/// `'+'`, the text is one or more decimal digits whose value fits in a `u32`.
pub open spec fn parse_u32_spec(s: Seq<char>) -> Option<u32> {
    let d = unsigned_digits(s);
    if d.len() > 0 && all_digits(d) && digits_value(d) <= u32::MAX {
        Some(digits_value(d) as u32)
    } else {
        None
    }
}

/// The text of one decimal digit.
fn digit_text(d: u64) -> (r: &'static str)
    requires
        d < 10,
    ensures
        r@ == seq![digit_char(d as nat)],
{
    proof {
        reveal_strlit("0");
        reveal_strlit("1");
        reveal_strlit("2");
        reveal_strlit("3");
        reveal_strlit("4");
        reveal_strlit("5");
        reveal_strlit("6");
        reveal_strlit("7");
        reveal_strlit("8");
        reveal_strlit("9");
    }
    if d == 0 {
        "0"
    } else if d == 1 {
        "1"
    } else if d == 2 {
        "2"
    } else if d == 3 {
        "3"
    } else if d == 4 {
        "4"
    } else if d == 5 {
        "5"
    } else if d == 6 {
        "6"
    } else if d == 7 {
        "7"
    } else if d == 8 {
        "8"
    } else {
        "9"
    }
}

/// Renders `n` in decimal.
pub fn u64_text(n: u64) -> (r: String)
    ensures
        r@ == decimal(n as nat),
        r@.len() > 0,
        all_digits(r@),
        digits_value(r@) == n,
{
    let mut acc = String::new();
    let mut x: u64 = n;
    loop
        invariant_except_break
            decimal(n as nat) == decimal(x as nat) + acc@,
        ensures
            decimal(n as nat) == acc@,
        decreases x,
    {
        if x < 10 {
            let piece = digit_text(x).to_owned();
            acc = piece.concat(acc.as_str());
            proof {
                assert(decimal(x as nat) == seq![digit_char(x as nat)]);
            }
            break;
        } else {
            let d: u64 = x % 10;
            let piece = digit_text(d).to_owned();
            let ghost old_acc = acc@;
            acc = piece.concat(acc.as_str());
            proof {
                assert(decimal(x as nat) == decimal((x / 10) as nat).push(digit_char(d as nat)));
                assert(decimal(x as nat) + old_acc =~= decimal((x / 10) as nat) + acc@);
            }
            x = x / 10;
        }
    }
    proof {
        law_decimal_reads_back(n as nat);
    }
    acc
}

/// Renders `n` in decimal, with a leading minus sign when it is negative.
pub fn i64_text(n: i64) -> (r: String)
    ensures
        r@ == signed_decimal(n as int),
        r@.len() > 0,
        (r@[0] == '-') == (n < 0),
        n < 0 ==> all_digits(r@.drop_first()) && digits_value(r@.drop_first()) == -n,
        n >= 0 ==> all_digits(r@) && digits_value(r@) == n,
{
    proof {
        law_signed_decimal_reads_back(n as int);
    }
    if n < 0 {
        let magnitude: u64 = ((-(n + 1)) as u64) + 1;
        let digits = u64_text(magnitude);
        proof {
            reveal_strlit("-");
        }
        "-".to_owned().concat(digits.as_str())
    } else {
        u64_text(n as u64)
    }
}

/// Renders `b` as `true` or `false`.
pub fn bool_to_text(b: bool) -> (r: String)
    ensures
        r@ == bool_text(b),
{
    proof {
        reveal_strlit("true");
        reveal_strlit("false");
    }
    if b {
        "true".to_owned()
    } else {
        "false".to_owned()
    }
}

proof fn lemma_digits_value_monotone(s: Seq<char>, k: int)
    requires
        0 <= k <= s.len(),
    ensures
        digits_value(s.take(k)) <= digits_value(s),
    decreases s.len(),
{
    if k == s.len() {
        assert(s.take(k) =~= s);
    } else {
        assert(s.take(k) =~= s.drop_last().take(k));
        lemma_digits_value_monotone(s.drop_last(), k);
    }
}

/// Reads a `u32` written in decimal, as `str::parse::<u32>` does.
pub fn parse_u32(s: &str) -> (r: Option<u32>)
    ensures
        r == parse_u32_spec(s@),
{
    let len = s.unicode_len();
    if len == 0 {
        return None;
    }
    let start: usize = if s.get_char(0) == '+' { 1 } else { 0 };
    let ghost d = unsigned_digits(s@);
    proof {
        assert(d =~= s@.subrange(start as int, len as int));
    }
    if start == len {
        return None;
    }
    let mut acc: u64 = 0;
    let mut i: usize = start;
    while i < len
        invariant
            len == s@.len(),
            start <= i <= len,
            d =~= s@.subrange(start as int, len as int),
            d == unsigned_digits(s@),
            all_digits(s@.subrange(start as int, i as int)),
            acc as nat == digits_value(s@.subrange(start as int, i as int)),
            acc <= u32::MAX,
        decreases len - i,
    {
        let c = s.get_char(i);
        let ghost prefix = s@.subrange(start as int, i as int);
        let ghost next = s@.subrange(start as int, i + 1);
        proof {
            assert(next.drop_last() =~= prefix);
            assert(next.last() == c);
        }
        if !('0' <= c && c <= '9') {
            proof {
                assert(d[i - start] == c);
                assert(!is_digit(d[i - start]));
            }
            return None;
        }
        let v: u64 = (c as u32 - '0' as u32) as u64;
        proof {
            assert(v == digit_value(c));
        }
        acc = acc * 10 + v;
        proof {
            assert(acc == digits_value(next));
        }
        if acc > u32::MAX as u64 {
            proof {
                assert(next =~= d.take(i + 1 - start));
                if all_digits(d) {
                    lemma_digits_value_monotone(d, i + 1 - start);
                }
            }
            return None;
        }
        proof {
            assert(all_digits(next));
        }
        i = i + 1;
    }
    proof {
        assert(s@.subrange(start as int, len as int) =~= d);
    }
    Some(acc as u32)
}

/// The decimal text of `n` is one or more digits that read back as `n`.
pub proof fn law_decimal_reads_back(n: nat)
    ensures
        decimal(n).len() > 0,
        all_digits(decimal(n)),
        digits_value(decimal(n)) == n,
    decreases n,
{
    if n < 10 {
        let s = decimal(n);
        assert(s.drop_last() =~= Seq::<char>::empty());
        assert(digit_char(n) as int == 48 + n);
        assert(digit_value(s.last()) == n);
        assert(digits_value(s.drop_last()) == 0);
        assert(digits_value(s) == n);
    } else {
        law_decimal_reads_back(n / 10);
        let s = decimal(n);
        assert(s.drop_last() =~= decimal(n / 10));
        assert(digit_char(n % 10) as int == 48 + n % 10);
        assert(digit_value(s.last()) == n % 10);
        assert(n == (n / 10) * 10 + n % 10) by (nonlinear_arith);
        assert(digits_value(s) == digits_value(s.drop_last()) * 10 + digit_value(s.last()));
        assert(digits_value(s) == digits_value(decimal(n / 10)) * 10 + n % 10);
        assert forall|i: int| 0 <= i < s.len() implies #[trigger] is_digit(s[i]) by {
            if i < s.len() - 1 {
                assert(s[i] == decimal(n / 10)[i]);
            }
        }
    }
}

/// Reading back what `u64_text` wrote gives the number again, for every number
/// that fits in a `u32`: a line number recorded as an integer is read as itself.
pub proof fn law_decimal_parses_back(n: nat)
    requires
        n <= u32::MAX,
    ensures
        parse_u32_spec(decimal(n)) == Some(n as u32),
{
    law_decimal_reads_back(n);
    let s = decimal(n);
    assert(is_digit(s[0]));
    assert(unsigned_digits(s) == s);
}

/// The signed decimal text of `n` starts with a minus sign exactly when `n` is negative,
/// and the digits after it read back as the magnitude of `n`.
pub proof fn law_signed_decimal_reads_back(n: int)
    ensures
        signed_decimal(n).len() > 0,
        (signed_decimal(n)[0] == '-') == (n < 0),
        n < 0 ==> all_digits(signed_decimal(n).drop_first()) && digits_value(signed_decimal(n).drop_first()) == -n,
        n >= 0 ==> all_digits(signed_decimal(n)) && digits_value(signed_decimal(n)) == n,
{
    if n < 0 {
        law_decimal_reads_back((-n) as nat);
        assert(signed_decimal(n).drop_first() =~= decimal((-n) as nat));
    } else {
        law_decimal_reads_back(n as nat);
        assert(is_digit(signed_decimal(n)[0]));
    }
}

/// A leading `'+'`, and leading zeros, do not change what is read: `+n` and `0n` read as `n`
/// for every `n` that fits in a `u32`, and neither empty text nor a lone `'+'` reads as a number.
pub proof fn law_parse_u32_sign_and_zeros(n: nat)
    requires
        n <= u32::MAX,
    ensures
        parse_u32_spec(seq!['+'] + decimal(n)) == Some(n as u32),
        parse_u32_spec(seq!['0'] + decimal(n)) == Some(n as u32),
        parse_u32_spec(Seq::<char>::empty()) is None,
        parse_u32_spec(seq!['+']) is None,
{
    law_decimal_reads_back(n);
    let d = decimal(n);
    let plus = seq!['+'] + d;
    assert(plus.drop_first() =~= d);
    assert(unsigned_digits(plus) == d);
    let zero = seq!['0'] + d;
    assert(is_digit(zero[0]));
    assert(unsigned_digits(zero) == zero);
    assert forall|i: int| 0 <= i < zero.len() implies #[trigger] is_digit(zero[i]) by {
        if i > 0 {
            assert(zero[i] == d[i - 1]);
        }
    }
    lemma_leading_zero_value(d);
    assert(seq!['+'].drop_first() =~= Seq::<char>::empty());
}

proof fn lemma_leading_zero_value(d: Seq<char>)
    ensures
        digits_value(seq!['0'] + d) == digits_value(d),
    decreases d.len(),
{
    let z = seq!['0'] + d;
    if d.len() == 0 {
        assert(z.drop_last() =~= Seq::<char>::empty());
        assert(z.last() as int == 48);
        assert(digits_value(z.drop_last()) == 0);
        assert(digit_value(z.last()) == 0);
        assert(digits_value(z) == digits_value(z.drop_last()) * 10 + digit_value(z.last()));
    } else {
        lemma_leading_zero_value(d.drop_last());
        assert(z.drop_last() =~= seq!['0'] + d.drop_last());
        assert(z.last() == d.last());
        assert(digits_value(z) == digits_value(z.drop_last()) * 10 + digit_value(z.last()));
        assert(digits_value(d) == digits_value(d.drop_last()) * 10 + digit_value(d.last()));
    }
}

} // verus!

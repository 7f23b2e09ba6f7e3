//! Characters, decimal numerals and the two boolean words: the textual
//! forms every value of the language takes.

use vstd::prelude::*;
use vstd::string::*;

verus! {

/// An ASCII decimal digit.
pub open spec fn is_digit(c: char) -> bool {
    '0' <= c && c <= '9'
}

/// An ASCII letter.
pub open spec fn is_alpha(c: char) -> bool {
    ('a' <= c && c <= 'z') || ('A' <= c && c <= 'Z')
}

/// An ASCII letter or digit.
pub open spec fn is_alnum(c: char) -> bool {
    is_alpha(c) || is_digit(c)
}

/// Every character of `s` is a digit (true of the empty text).
pub open spec fn all_digits(s: Seq<char>) -> bool {
    forall|i: int| 0 <= i < s.len() ==> is_digit(#[trigger] s[i])
}

/// The number a digit stands for.
pub open spec fn digit_value(c: char) -> int {
    c as int - '0' as int
}

/// The digit that stands for `d`, for `0 <= d <= 9`.
pub open spec fn digit_char(d: int) -> char {
    if d == 0 {
        '0'
    } else if d == 1 {
        '1'
    } else if d == 2 {
        '2'
    } else if d == 3 {
        '3'
    } else if d == 4 {
        '4'
    } else if d == 5 {
        '5'
    } else if d == 6 {
        '6'
    } else if d == 7 {
        '7'
    } else if d == 8 {
        '8'
    } else {
        '9'
    }
}

/// The value of a run of digits read as a decimal numeral.
pub open spec fn digits_value(s: Seq<char>) -> int
    decreases s.len(),
{
    if s.len() == 0 {
        0
    } else {
        digits_value(s.drop_last()) * 10 + digit_value(s.last())
    }
}

/// The integer that a text denotes: an optional sign, then one or more
/// digits, the whole within the range of a 32-bit signed integer.
pub open spec fn int_of_text(s: Seq<char>) -> Option<int> {
    if s.len() > 0 && (s[0] == '-' || s[0] == '+') {
        let d = s.skip(1);
        let v = if s[0] == '-' {
            -digits_value(d)
        } else {
            digits_value(d)
        };
        if d.len() > 0 && all_digits(d) && i32::MIN <= v <= i32::MAX {
            Some(v)
        } else {
            None
        }
    } else if s.len() > 0 && all_digits(s) && digits_value(s) <= i32::MAX {
        Some(digits_value(s))
    } else {
        None
    }
}

/// The decimal numeral of a natural number, without leading zeros.
pub open spec fn text_of_nat(n: nat) -> Seq<char>
    decreases n,
{
    if n < 10 {
        seq![digit_char(n as int)]
    } else {
        text_of_nat(n / 10).push(digit_char((n % 10) as int))
    }
}

/// The decimal numeral of an integer, with `-` in front of a negative one.
pub open spec fn text_of_int(n: int) -> Seq<char> {
    if n < 0 {
        seq!['-'] + text_of_nat((-n) as nat)
    } else {
        text_of_nat(n as nat)
    }
}

/// The word for a boolean.
pub open spec fn text_of_bool(b: bool) -> Seq<char> {
    if b {
        "true"@
    } else {
        "false"@
    }
}

/// The boolean that a text denotes: exactly `true` or `false`.
pub open spec fn bool_of_text(s: Seq<char>) -> Option<bool> {
    if s == "true"@ {
        Some(true)
    } else if s == "false"@ {
        Some(false)
    } else {
        None
    }
}

pub fn is_digit_char(c: char) -> (r: bool)
    ensures
        r == is_digit(c),
{
    '0' <= c && c <= '9'
}

pub fn is_alpha_char(c: char) -> (r: bool)
    ensures
        r == is_alpha(c),
{
    ('a' <= c && c <= 'z') || ('A' <= c && c <= 'Z')
}

pub fn is_alnum_char(c: char) -> (r: bool)
    ensures
        r == is_alnum(c),
{
    is_alpha_char(c) || is_digit_char(c)
}

/// Whether two texts hold the same characters.
pub fn same_text(a: &str, b: &str) -> (r: bool)
    ensures
        r == (a@ == b@),
{
    let n: usize = a.unicode_len();
    if n != b.unicode_len() {
        return false;
    }
    let mut i: usize = 0;
    while i < n
        invariant
            n == a@.len(),
            n == b@.len(),
            i <= n,
            forall|j: int| 0 <= j < i ==> a@[j] == b@[j],
        decreases n - i,
    {
        if a.get_char(i) != b.get_char(i) {
            return false;
        }
        i += 1;
    }
    assert(a@ =~= b@);
    true
}

/// Appending a digit to a run multiplies its value by ten and adds the digit.
pub proof fn lemma_digits_value_push(s: Seq<char>, c: char)
    ensures
        digits_value(s.push(c)) == digits_value(s) * 10 + digit_value(c),
{
    assert(s.push(c).drop_last() =~= s);
}

/// A run of digits has a value that is not negative.
pub proof fn lemma_digits_value_nonnegative(s: Seq<char>)
    requires
        all_digits(s),
    ensures
        digits_value(s) >= 0,
    decreases s.len(),
{
    if s.len() > 0 {
        lemma_digits_value_nonnegative(s.drop_last());
        assert(is_digit(s[s.len() - 1]));
    }
}

/// The value of a run of digits, or `None` where a character is no digit
/// or the value exceeds `limit`.
fn digits_to_number(s: &str, from: usize, limit: u64) -> (r: Option<u64>)
    requires
        from <= s@.len(),
        limit <= 0x8000_0000,
    ensures
        r matches Some(v) ==> all_digits(s@.skip(from as int)) && v == digits_value(
            s@.skip(from as int),
        ) && v <= limit,
        r is None ==> !all_digits(s@.skip(from as int)) || digits_value(s@.skip(from as int))
            > limit,
{
    let n: usize = s.unicode_len();
    let ghost d = s@.skip(from as int);
    let mut acc: u64 = 0;
    let mut over: bool = false;
    let mut i: usize = from;
    while i < n
        invariant
            n == s@.len(),
            from <= i <= n,
            d == s@.skip(from as int),
            limit <= 0x8000_0000,
            all_digits(d.take(i - from)),
            !over ==> acc == digits_value(d.take(i - from)) && acc <= limit,
            over ==> digits_value(d.take(i - from)) > limit,
        decreases n - i,
    {
        let c: char = s.get_char(i);
        assert(d[i - from] == c);
        if !is_digit_char(c) {
            return None;
        }
        let v: u64 = (c as u64) - ('0' as u64);
        proof {
            assert(d.take(i - from + 1) =~= d.take(i - from).push(c));
            lemma_digits_value_push(d.take(i - from), c);
            lemma_digits_value_nonnegative(d.take(i - from));
        }
        if !over {
            let next: u64 = acc * 10 + v;
            if next > limit {
                over = true;
            } else {
                acc = next;
            }
        }
        i += 1;
    }
    assert(d.take(n - from) =~= d);
    if over {
        None
    } else {
        Some(acc)
    }
}

/// Reads a text as a 32-bit signed integer.
pub fn parse_i32(s: &str) -> (r: Option<i32>)
    ensures
        r matches Some(v) ==> int_of_text(s@) == Some(v as int),
        r is None ==> int_of_text(s@) is None,
{
    let n: usize = s.unicode_len();
    if n == 0 {
        return None;
    }
    let first: char = s.get_char(0);
    if first == '-' || first == '+' {
        if n == 1 {
            assert(s@.skip(1).len() == 0);
            return None;
        }
        let limit: u64 = if first == '-' {
            0x8000_0000
        } else {
            0x7fff_ffff
        };
        proof {
            if all_digits(s@.skip(1)) {
                lemma_digits_value_nonnegative(s@.skip(1));
            }
        }
        match digits_to_number(s, 1, limit) {
            Some(v) => {
                if first == '-' {
                    let w: i64 = -(v as i64);
                    Some(w as i32)
                } else {
                    Some(v as i32)
                }
            },
            None => None,
        }
    } else {
        assert(s@.skip(0) =~= s@);
        match digits_to_number(s, 0, 0x7fff_ffff) {
            Some(v) => Some(v as i32),
            None => None,
        }
    }
}

/// The one-character text of a digit.
fn digit_text(d: u64) -> (r: &'static str)
    requires
        d <= 9,
    ensures
        r@ == seq![digit_char(d as int)],
{
    proof {
        reveal_strlit("0");
        reveal_strlit("1");
        reveal_strlit("2");
        reveal_strlit("3");
        reveal_strlit("4");
        reveal_strlit("5");
        reveal_strlit("6");
        reveal_strlit("7");
        reveal_strlit("8");
        reveal_strlit("9");
    }
    let r: &'static str = if d == 0 {
        "0"
    } else if d == 1 {
        "1"
    } else if d == 2 {
        "2"
    } else if d == 3 {
        "3"
    } else if d == 4 {
        "4"
    } else if d == 5 {
        "5"
    } else if d == 6 {
        "6"
    } else if d == 7 {
        "7"
    } else if d == 8 {
        "8"
    } else {
        "9"
    };
    assert(r@ =~= seq![digit_char(d as int)]);
    r
}

/// Writes a natural number as a decimal numeral.
fn nat_to_string(n: u64) -> (r: String)
    ensures
        r@ == text_of_nat(n as nat),
    decreases n,
{
    if n < 10 {
        digit_text(n).to_owned()
    } else {
        let mut out: String = nat_to_string(n / 10);
        out.append(digit_text(n % 10));
        assert(out@ =~= text_of_nat(n as nat));
        out
    }
}

/// Writes a 32-bit signed integer as a decimal numeral.
pub fn i32_to_string(n: i32) -> (r: String)
    ensures
        r@ == text_of_int(n as int),
{
    if n < 0 {
        let m: i64 = -(n as i64);
        let mut out: String = "-".to_owned();
        proof {
            reveal_strlit("-");
        }
        let digits: String = nat_to_string(m as u64);
        out.append(digits.as_str());
        assert(out@ =~= text_of_int(n as int));
        out
    } else {
        nat_to_string(n as u64)
    }
}

/// Writes a boolean as its word.
pub fn bool_to_string(b: bool) -> (r: String)
    ensures
        r@ == text_of_bool(b),
{
    if b {
        "true".to_owned()
    } else {
        "false".to_owned()
    }
}

/// The numeral of a natural number is a non-empty run of digits whose
/// value is that number.
pub proof fn lemma_text_of_nat(n: nat)
    ensures
        text_of_nat(n).len() > 0,
        all_digits(text_of_nat(n)),
        digits_value(text_of_nat(n)) == n,
    decreases n,
{
    if n < 10 {
        let t = text_of_nat(n);
        assert(t.drop_last() =~= Seq::<char>::empty());
        assert(digits_value(t.drop_last()) == 0);
        assert(digits_value(t) == digits_value(t.drop_last()) * 10 + digit_value(t.last()));
    } else {
        lemma_text_of_nat(n / 10);
        let c = digit_char((n % 10) as int);
        lemma_digits_value_push(text_of_nat(n / 10), c);
        assert(digit_value(c) == n % 10);
    }
}

/// Reading the numeral of a 32-bit signed integer gives the integer back.
pub proof fn lemma_int_text_round_trip(n: int)
    requires
        i32::MIN <= n <= i32::MAX,
    ensures
        int_of_text(text_of_int(n)) == Some(n),
{
    if n < 0 {
        let m = (-n) as nat;
        lemma_text_of_nat(m);
        let t = text_of_int(n);
        assert(t[0] == '-');
        assert(t.skip(1) =~= text_of_nat(m));
    } else {
        lemma_text_of_nat(n as nat);
        let t = text_of_nat(n as nat);
        assert(is_digit(t[0]));
    }
}

} // verus!

//! Decimal text for integers: what `str::parse` accepts and what
//! `to_string` produces, written out and proved.

use vstd::prelude::*;

verus! {

pub open spec fn is_digit(c: char) -> bool {
    '0' <= c && c <= '9'
}

pub open spec fn digit_value(c: char) -> int {
    c as int - '0' as int
}

pub open spec fn all_digits(s: Seq<char>) -> bool {
    forall|i: int| 0 <= i < s.len() ==> is_digit(#[trigger] s[i])
}

/// The number written by a string of decimal digits.
pub open spec fn digits_value(s: Seq<char>) -> int
    decreases s.len(),
{
    if s.len() == 0 {
        0
    } else {
        digits_value(s.drop_last()) * 10 + digit_value(s.last())
    }
}

/// What `str::parse` returns for an integer type whose range is `[min, max]`:
/// an optional `+` (or `-` where the type is signed) followed by at least one
/// ASCII digit, and a value inside the range.
pub open spec fn parse_int_spec(s: Seq<char>, min: int, max: int) -> Option<int> {
    let neg = s.len() > 0 && s[0] == '-' && min < 0;
    let ds = if s.len() > 0 && (s[0] == '+' || neg) {
        s.drop_first()
    } else {
        s
    };
    if ds.len() == 0 || !all_digits(ds) {
        None
    } else {
        let v = if neg {
            -digits_value(ds)
        } else {
            digits_value(ds)
        };
        if min <= v && v <= max {
            Some(v)
        } else {
            None
        }
    }
}

/// What `str::parse::<bool>` accepts.
pub open spec fn parse_bool_spec(s: Seq<char>) -> Option<bool> {
    if s == seq!['t', 'r', 'u', 'e'] {
        Some(true)
    } else if s == seq!['f', 'a', 'l', 's', 'e'] {
        Some(false)
    } else {
        None
    }
}

pub open spec fn digit_char(d: int) -> char {
    (d + '0' as int) as char
}

/// Decimal digits of a natural number, without leading zeros.
pub open spec fn decimal(n: nat) -> Seq<char>
    decreases n,
{
    if n < 10 {
        seq![digit_char(n as int)]
    } else {
        decimal(n / 10).push(digit_char((n % 10) as int))
    }
}

/// Text of an integer as `to_string` writes it.
pub open spec fn int_text(v: int) -> Seq<char> {
    if v < 0 {
        seq!['-'] + decimal((-v) as nat)
    } else {
        decimal(v as nat)
    }
}

pub open spec fn bool_text(b: bool) -> Seq<char> {
    if b {
        seq!['t', 'r', 'u', 'e']
    } else {
        seq!['f', 'a', 'l', 's', 'e']
    }
}

/// The characters of a string, in order.
pub fn chars_of(s: &str) -> (r: Vec<char>)
    ensures
        r@ == s@,
{
    let n = s.unicode_len();
    let mut r: Vec<char> = Vec::new();
    let mut i: usize = 0;
    while i < n
        invariant
            n == s@.len(),
            i <= n,
            r@ == s@.subrange(0, i as int),
        decreases n - i,
    {
        r.push(s.get_char(i));
        i = i + 1;
    }
    r
}

/// Value of the digits `s[from..]`, or `None` where one is not a digit or
/// the value exceeds `limit`.
fn digits_up_to(s: &Vec<char>, from: usize, limit: u64) -> (r: Option<u64>)
    requires
        from <= s@.len(),
    ensures
        match r {
            Some(v) => all_digits(s@.subrange(from as int, s@.len() as int)) && v == digits_value(
                s@.subrange(from as int, s@.len() as int),
            ) && v <= limit,
            None => !all_digits(s@.subrange(from as int, s@.len() as int)) || digits_value(
                s@.subrange(from as int, s@.len() as int),
            ) > limit,
        },
{
    let mut acc: u64 = 0;
    let mut i: usize = from;
    while i < s.len()
        invariant
            from <= i <= s@.len(),
            all_digits(s@.subrange(from as int, i as int)),
            acc == digits_value(s@.subrange(from as int, i as int)),
            acc <= limit,
        decreases s@.len() - i,
    {
        let c = s[i];
        let ghost prefix = s@.subrange(from as int, i as int);
        let ghost next = s@.subrange(from as int, i + 1);
        assert(next.drop_last() =~= prefix);
        if !('0' <= c && c <= '9') {
            proof {
                lemma_not_all_digits_extend(s@.subrange(from as int, s@.len() as int), i - from);
                assert(s@.subrange(from as int, s@.len() as int)[i - from] == c);
            }
            return None;
        }
        let d = (c as u32 - '0' as u32) as u64;
        if d > limit || acc > (limit - d) / 10 {
            proof {
                assert(acc * 10 + d > limit) by (nonlinear_arith)
                    requires
                        d > limit || acc > (limit - d) / 10,
                        acc >= 0,
                ;
                let full = s@.subrange(from as int, s@.len() as int);
                if all_digits(full) {
                    lemma_digits_value_prefix_bound(full, i + 1 - from);
                    assert(full.subrange(0, i + 1 - from) =~= next);
                }
            }
            return None;
        }
        proof {
            assert(acc * 10 + d <= limit) by (nonlinear_arith)
                requires
                    acc <= (limit - d) / 10,
                    d <= limit,
            ;
        }
        acc = acc * 10 + d;
        i = i + 1;
    }
    assert(all_digits(s@.subrange(from as int, s@.len() as int)));
    Some(acc)
}


/// `str::parse` for an unsigned integer type whose largest value is `max`.
pub fn parse_unsigned(s: &Vec<char>, max: u64) -> (r: Option<u64>)
    ensures
        match r {
            Some(v) => parse_int_spec(s@, 0, max as int) == Some(v as int),
            None => parse_int_spec(s@, 0, max as int) is None,
        },
{
    let from: usize = if s.len() > 0 && s[0] == '+' { 1 } else { 0 };
    let ghost ds = if s@.len() > 0 && s@[0] == '+' { s@.drop_first() } else { s@ };
    assert(ds =~= s@.subrange(from as int, s@.len() as int));
    if from == s.len() {
        return None;
    }
    let r = digits_up_to(s, from, max);
    proof {
        if all_digits(ds) {
            lemma_digits_value_nonneg(ds);
        }
    }
    r
}

/// `str::parse` for a signed integer type with range `[min, max]`.
pub fn parse_signed(s: &Vec<char>, min: i64, max: i64) -> (r: Option<i64>)
    requires
        min < 0 < max,
        max == -(min + 1),
    ensures
        match r {
            Some(v) => parse_int_spec(s@, min as int, max as int) == Some(v as int),
            None => parse_int_spec(s@, min as int, max as int) is None,
        },
{
    let neg = s.len() > 0 && s[0] == '-';
    let from: usize = if s.len() > 0 && (s[0] == '+' || neg) { 1 } else { 0 };
    let ghost ds = if s@.len() > 0 && (s@[0] == '+' || neg) { s@.drop_first() } else { s@ };
    assert(ds =~= s@.subrange(from as int, s@.len() as int));
    if from == s.len() {
        return None;
    }
    if neg {
        let limit: u64 = (max as u64) + 1;
        match digits_up_to(s, from, limit) {
            Some(m) => {
                if m == limit {
                    Some(min)
                } else {
                    Some(-(m as i64))
                }
            },
            None => {
                proof {
                    if all_digits(ds) {
                        lemma_digits_value_nonneg(ds);
                    }
                }
                None
            },
        }
    } else {
        let r = digits_up_to(s, from, max as u64);
        proof {
            if all_digits(ds) {
                lemma_digits_value_nonneg(ds);
            }
        }
        match r {
            Some(m) => Some(m as i64),
            None => None,
        }
    }
}

/// `str::parse::<bool>`.
pub fn parse_bool(s: &Vec<char>) -> (r: Option<bool>)
    ensures
        r == parse_bool_spec(s@),
{
    if s.len() == 4 && s[0] == 't' && s[1] == 'r' && s[2] == 'u' && s[3] == 'e' {
        assert(s@ =~= seq!['t', 'r', 'u', 'e']);
        Some(true)
    } else if s.len() == 5 && s[0] == 'f' && s[1] == 'a' && s[2] == 'l' && s[3] == 's' && s[4]
        == 'e' {
        assert(s@ =~= seq!['f', 'a', 'l', 's', 'e']);
        Some(false)
    } else {
        assert(s@ != seq!['t', 'r', 'u', 'e'] ==> true);
        assert(s@ == seq!['t', 'r', 'u', 'e'] ==> s@.len() == 4 && s@[0] == 't' && s@[1] == 'r'
            && s@[2] == 'u' && s@[3] == 'e');
        assert(s@ == seq!['f', 'a', 'l', 's', 'e'] ==> s@.len() == 5 && s@[0] == 'f' && s@[1]
            == 'a' && s@[2] == 'l' && s@[3] == 's' && s@[4] == 'e');
        None
    }
}


fn push_digit(out: &mut String, d: u64)
    requires
        d < 10,
    ensures
        final(out)@ == old(out)@.push(digit_char(d as int)),
{
    let c = ((d as u8) + 48u8) as char;
    assert(c == digit_char(d as int));
    out.push(c);
}

/// Appends the decimal digits of `n`.
pub fn push_decimal(out: &mut String, n: u64)
    ensures
        final(out)@ == old(out)@ + decimal(n as nat),
    decreases n,
{
    if n >= 10 {
        push_decimal(out, n / 10);
        let ghost mid = out@;
        push_digit(out, n % 10);
        assert(out@ =~= old(out)@ + decimal(n as nat));
    } else {
        push_digit(out, n);
        assert(out@ =~= old(out)@ + decimal(n as nat));
    }
}

/// `u64::to_string` (and that of the narrower unsigned types).
pub fn format_unsigned(n: u64) -> (s: String)
    ensures
        s@ == int_text(n as int),
{
    let mut s = String::new();
    push_decimal(&mut s, n);
    assert(s@ =~= int_text(n as int));
    s
}

/// `i64::to_string` (and that of the narrower signed types).
pub fn format_signed(n: i64) -> (s: String)
    ensures
        s@ == int_text(n as int),
{
    let mut s = String::new();
    if n < 0 {
        s.push('-');
        let m: u64 = if n == i64::MIN {
            (i64::MAX as u64) + 1
        } else {
            (-n) as u64
        };
        push_decimal(&mut s, m);
    } else {
        push_decimal(&mut s, n as u64);
    }
    assert(s@ =~= int_text(n as int));
    s
}

/// `bool::to_string`.
pub fn format_bool(b: bool) -> (s: String)
    ensures
        s@ == bool_text(b),
{
    let mut s = String::new();
    if b {
        s.push('t');
        s.push('r');
        s.push('u');
        s.push('e');
    } else {
        s.push('f');
        s.push('a');
        s.push('l');
        s.push('s');
        s.push('e');
    }
    assert(s@ =~= bool_text(b));
    s
}

proof fn lemma_not_all_digits_extend(s: Seq<char>, k: int)
    requires
        0 <= k < s.len(),
        !is_digit(s[k]),
    ensures
        !all_digits(s),
{
}

/// The value of a digit string is at least the value of any prefix of it.
proof fn lemma_digits_value_prefix_bound(s: Seq<char>, k: int)
    requires
        0 <= k <= s.len(),
        all_digits(s),
    ensures
        digits_value(s) >= digits_value(s.subrange(0, k)),
        digits_value(s) >= 0,
    decreases s.len(),
{
    if s.len() == 0 {
        assert(s.subrange(0, k) =~= s);
    } else if k == s.len() {
        assert(s.subrange(0, k) =~= s);
        lemma_digits_value_nonneg(s);
    } else {
        assert(all_digits(s.drop_last()));
        lemma_digits_value_prefix_bound(s.drop_last(), k);
        assert(s.drop_last().subrange(0, k) =~= s.subrange(0, k));
        assert(is_digit(s[s.len() - 1]));
        lemma_digits_value_nonneg(s.drop_last());
    }
}

proof fn lemma_digits_value_nonneg(s: Seq<char>)
    requires
        all_digits(s),
    ensures
        digits_value(s) >= 0,
    decreases s.len(),
{
    if s.len() > 0 {
        assert(all_digits(s.drop_last()));
        lemma_digits_value_nonneg(s.drop_last());
        assert(is_digit(s[s.len() - 1]));
    }
}

} // verus!

verus! {

pub proof fn lemma_decimal_digits(n: nat)
    ensures
        decimal(n).len() > 0,
        all_digits(decimal(n)),
        digits_value(decimal(n)) == n,
    decreases n,
{
    if n >= 10 {
        lemma_decimal_digits(n / 10);
        let d = decimal(n / 10);
        assert(decimal(n).drop_last() =~= d);
        assert(digit_value(digit_char((n % 10) as int)) == n % 10);
        assert((n / 10) * 10 + n % 10 == n);
        assert(decimal(n).last() == digit_char((n % 10) as int));
        assert(digits_value(decimal(n)) == digits_value(d) * 10 + digit_value(decimal(n).last()));
        assert(all_digits(decimal(n))) by {
            assert forall|i: int| 0 <= i < decimal(n).len() implies is_digit(
                #[trigger] decimal(n)[i],
            ) by {
                if i < d.len() {
                    assert(decimal(n)[i] == d[i]);
                }
            }
        }
    } else {
        assert(digit_value(digit_char(n as int)) == n);
        assert(decimal(n).drop_last().len() == 0);
        assert(digits_value(decimal(n).drop_last()) == 0);
    }
}

/// Reading back what `to_string` writes for an integer gives the integer,
/// for every type whose range holds it.
pub proof fn lemma_parse_int_text(v: int, min: int, max: int)
    requires
        min <= v <= max,
        min <= 0 <= max,
    ensures
        parse_int_spec(int_text(v), min, max) == Some(v),
{
    if v < 0 {
        let n = (-v) as nat;
        lemma_decimal_digits(n);
        let s = int_text(v);
        assert(s.drop_first() =~= decimal(n));
    } else {
        lemma_decimal_digits(v as nat);
        let s = decimal(v as nat);
        assert(is_digit(s[0]));
    }
}

/// Reading back what `to_string` writes for a `bool` gives the `bool`.
pub proof fn lemma_parse_bool_text(b: bool)
    ensures
        parse_bool_spec(bool_text(b)) == Some(b),
{
    if !b {
        assert(bool_text(b) != seq!['t', 'r', 'u', 'e']) by {
            assert(bool_text(b).len() == 5);
        }
    }
}

} // verus!

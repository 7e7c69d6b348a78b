//! Decimal integers as `str::parse` reads them: an optional sign (`-` only
//! for signed types), then at least one ASCII digit, in the type's range.

use vstd::prelude::*;
use crate::text::{is_digit, chars_of, string_of};
use crate::filename_parser::{digits_value, all_digits};

verus! {

/// The value a decimal integer text spells, when it is one: an optional
/// `+` (or, when `signed`, `-`) followed by one or more ASCII digits.
pub open spec fn int_text(s: Seq<char>, signed: bool) -> Option<int> {
    if s.len() > 0 && (s[0] == '+' || (signed && s[0] == '-')) {
        let d = s.drop_first();
        if d.len() > 0 && all_digits(d) {
            Some(if s[0] == '-' { -digits_value(d) } else { digits_value(d) })
        } else {
            None
        }
    } else if s.len() > 0 && all_digits(s) {
        Some(digits_value(s))
    } else {
        None
    }
}

/// What `str::parse` gives for an integer type with the range `lo..=hi`.
pub open spec fn int_in_range(s: Seq<char>, signed: bool, lo: int, hi: int) -> Option<int> {
    match int_text(s, signed) {
        Some(v) => if lo <= v <= hi { Some(v) } else { None },
        None => None,
    }
}

proof fn lemma_digits_prefix(s: Seq<char>, k: int)
    requires
        0 <= k <= s.len(),
        all_digits(s),
    ensures
        digits_value(s.take(k)) <= digits_value(s),
        0 <= digits_value(s.take(k)),
    decreases s.len() - k,
{
    if k < s.len() {
        lemma_digits_prefix(s, k + 1);
        assert(s.take(k + 1).drop_last() =~= s.take(k));
        assert(is_digit(s[k]));
    } else {
        assert(s.take(k) =~= s);
        lemma_digits_nonneg(s);
    }
}

proof fn lemma_digits_nonneg(s: Seq<char>)
    requires
        all_digits(s),
    ensures
        0 <= digits_value(s),
    decreases s.len(),
{
    if s.len() > 0 {
        assert(all_digits(s.drop_last()));
        lemma_digits_nonneg(s.drop_last());
    }
}

/// Parse a decimal integer in `lo..=hi` as `str::parse` does for an integer
/// type of that range (`signed` when a leading `-` is allowed).
fn parse_int(v: &[char], signed: bool, lo: i128, hi: i128) -> (r: Option<i128>)
    requires
        -0x8000_0000_0000_0000 <= lo <= 0,
        0 <= hi <= 0x7fff_ffff_ffff_ffff,
    ensures
        r.is_some() == int_in_range(v@, signed, lo as int, hi as int).is_some(),
        r matches Some(x) ==> x == int_in_range(v@, signed, lo as int, hi as int).unwrap(),
{
    if v.len() == 0 {
        return None;
    }
    let neg = signed && v[0] == '-';
    let start: usize = if v[0] == '+' || neg { 1 } else { 0 };
    if start == v.len() {
        return None;
    }
    let ghost d = v@.subrange(start as int, v@.len() as int);
    proof {
        if start == 1 {
            assert(d =~= v@.drop_first());
        } else {
            assert(d =~= v@);
        }
    }
    let bound: u128 = if neg { (0 - lo) as u128 } else { hi as u128 };
    proof {
        assert(int_text(v@, signed) == (if all_digits(d) {
            Some(if neg { -digits_value(d) } else { digits_value(d) })
        } else {
            None::<int>
        }));
    }
    let mut mag: u128 = 0;
    let mut k: usize = start;
    while k < v.len()
        invariant
            start <= k <= v@.len(),
            start < v@.len(),
            d == v@.subrange(start as int, v@.len() as int),
            bound <= 0x8000_0000_0000_0000,
            bound == (if neg { -lo } else { hi as int }),
            -0x8000_0000_0000_0000 <= lo <= 0,
            0 <= hi <= 0x7fff_ffff_ffff_ffff,
            int_text(v@, signed) == (if all_digits(d) {
                Some(if neg { -digits_value(d) } else { digits_value(d) })
            } else {
                None::<int>
            }),
            mag <= bound,
            all_digits(d.take(k - start)),
            mag == digits_value(d.take(k - start)),
        decreases v.len() - k,
    {
        let c = v[k];
        if !('0' <= c && c <= '9') {
            proof {
                assert(d[k - start] == c);
            }
            return None;
        }
        let next: u128 = mag * 10 + ((c as u32) - ('0' as u32)) as u128;
        proof {
            assert(d.take(k + 1 - start).drop_last() =~= d.take(k - start));
            assert(d.take(k + 1 - start).last() == c);
            assert forall|i: int| 0 <= i < d.take(k + 1 - start).len() implies is_digit(
                #[trigger] d.take(k + 1 - start)[i],
            ) by {
                if i < k - start {
                    assert(d.take(k + 1 - start)[i] == d.take(k - start)[i]);
                }
            }
        }
        if next > bound {
            proof {
                if all_digits(d) {
                    lemma_digits_prefix(d, k + 1 - start);
                }
            }
            return None;
        }
        mag = next;
        k = k + 1;
    }
    proof {
        assert(d.take(k - start) =~= d);
    }
    if neg {
        Some(0 - (mag as i128))
    } else {
        Some(mag as i128)
    }
}

/// `str::parse::<i64>`.
pub fn parse_i64(s: &str) -> (r: Option<i64>)
    ensures
        r.is_some() == int_in_range(s@, true, i64::MIN as int, i64::MAX as int).is_some(),
        r matches Some(x) ==> x == int_in_range(s@, true, i64::MIN as int, i64::MAX as int).unwrap(),
{
    let v = chars_of(s);
    match parse_int(&v, true, -0x8000_0000_0000_0000, 0x7fff_ffff_ffff_ffff) {
        Some(x) => Some(x as i64),
        None => None,
    }
}

/// `str::parse::<i32>`.
pub fn parse_i32(s: &str) -> (r: Option<i32>)
    ensures
        r.is_some() == int_in_range(s@, true, i32::MIN as int, i32::MAX as int).is_some(),
        r matches Some(x) ==> x == int_in_range(s@, true, i32::MIN as int, i32::MAX as int).unwrap(),
{
    let v = chars_of(s);
    match parse_int(&v, true, -0x8000_0000, 0x7fff_ffff) {
        Some(x) => Some(x as i32),
        None => None,
    }
}

/// `str::parse::<u8>`.
pub fn parse_u8(s: &str) -> (r: Option<u8>)
    ensures
        r.is_some() == int_in_range(s@, false, 0, 255).is_some(),
        r matches Some(x) ==> x == int_in_range(s@, false, 0, 255).unwrap(),
{
    let v = chars_of(s);
    match parse_int(&v, false, 0, 255) {
        Some(x) => Some(x as u8),
        None => None,
    }
}

/// The ASCII digit of a value below ten.
pub open spec fn digit_char(d: nat) -> char {
    ((d + 0x30) as u32) as char
}

/// The decimal digits of a natural number, without leading zeros.
pub open spec fn nat_digits(n: nat) -> Seq<char>
    decreases n,
{
    if n < 10 {
        seq![digit_char(n)]
    } else {
        nat_digits(n / 10).push(digit_char(n % 10))
    }
}

proof fn lemma_nat_digits(n: nat)
    ensures
        nat_digits(n).len() > 0,
        all_digits(nat_digits(n)),
        digits_value(nat_digits(n)) == n,
    decreases n,
{
    let c = digit_char(n % 10);
    assert((c as u32) as int == n % 10 + 0x30);
    assert(c as int == n % 10 + 0x30);
    assert('0' as int == 0x30);
    if n < 10 {
        assert(seq![c].drop_last() =~= Seq::<char>::empty());
        assert(n % 10 == n);
        assert(nat_digits(n) == seq![c]);
        assert(digits_value(seq![c]) == digits_value(Seq::<char>::empty()) * 10 + (c as int - '0' as int));
        assert(digits_value(nat_digits(n)) == n);
    }
    if n >= 10 {
        lemma_nat_digits(n / 10);
        let d = nat_digits(n / 10);
        let s = d.push(digit_char(n % 10));
        assert(s.drop_last() =~= d);
        assert(n == (n / 10) * 10 + n % 10);
        assert(s.last() == c);
        assert(digits_value(s) == digits_value(d) * 10 + (c as int - '0' as int));
        assert(nat_digits(n) == s);
        assert(digits_value(s) == n);
        assert forall|i: int| 0 <= i < s.len() implies is_digit(#[trigger] s[i]) by {
            if i < d.len() {
                assert(s[i] == d[i]);
            }
        }
    }
}

/// An integer as `Display` writes it: a `-` for negatives, then the digits.
pub open spec fn int_display(n: int) -> Seq<char> {
    if n < 0 {
        seq!['-'] + nat_digits((-n) as nat)
    } else {
        nat_digits(n as nat)
    }
}

/// Reading back the decimal text of an `i64` gives the number.
pub proof fn lemma_display_parses(n: int)
    requires
        i64::MIN <= n <= i64::MAX,
    ensures
        int_in_range(int_display(n), true, i64::MIN as int, i64::MAX as int) == Some(n),
{
    if n < 0 {
        lemma_nat_digits((-n) as nat);
        let s = int_display(n);
        assert(s.drop_first() =~= nat_digits((-n) as nat));
    } else {
        lemma_nat_digits(n as nat);
        let d = nat_digits(n as nat);
        assert(is_digit(d[0]));
    }
}

/// The decimal text of a natural number reads back as it, with or without a
/// sign allowed.
pub proof fn lemma_display_parses_nat(n: nat)
    ensures
        int_text(int_display(n as int), false) == Some(n as int),
        int_text(int_display(n as int), true) == Some(n as int),
{
    lemma_nat_digits(n);
    let d = nat_digits(n);
    assert(is_digit(d[0]));
}

fn push_digits(n: u64, out: &mut Vec<char>)
    ensures
        final(out)@ == old(out)@ + nat_digits(n as nat),
    decreases n,
{
    if n >= 10 {
        push_digits(n / 10, out);
    }
    let d = (n % 10) as u32;
    out.push(crate::text::char_from_u32(d + 0x30));
    proof {
        if n >= 10 {
            assert(old(out)@ + nat_digits(n as nat) =~= old(out)@ + nat_digits((n / 10) as nat) + seq![digit_char((n % 10) as nat)]);
        } else {
            assert(old(out)@ + nat_digits(n as nat) =~= old(out)@ + seq![digit_char(n as nat)]);
        }
    }
}

/// A `usize` as decimal text (`usize::to_string`).
pub fn usize_text(n: usize) -> (s: String)
    ensures
        s@ == int_display(n as int),
{
    let mut v: Vec<char> = Vec::new();
    push_digits(n as u64, &mut v);
    proof {
        assert(v@ =~= nat_digits(n as nat));
    }
    string_of(&v)
}

/// An `i64` as decimal text (`i64::to_string`).
pub fn i64_text(n: i64) -> (s: String)
    ensures
        s@ == int_display(n as int),
{
    let mut v: Vec<char> = Vec::new();
    let mag: u64 = if n < 0 {
        v.push('-');
        if n == i64::MIN { 0x8000_0000_0000_0000u64 } else { (0 - n) as u64 }
    } else {
        n as u64
    };
    push_digits(mag, &mut v);
    proof {
        if n < 0 {
            assert(v@ =~= seq!['-'] + nat_digits((-n) as nat));
        } else {
            assert(v@ =~= nat_digits(n as nat));
        }
    }
    string_of(&v)
}

} // verus!

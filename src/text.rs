//! Tokenising and numeric fields of the raw record text.
use vstd::prelude::*;

verus! {

/// The value of `c` as a digit in base 16 (either case), or -1.
pub open spec fn digit_of(c: char) -> int {
    if '0' <= c && c <= '9' {
        c as int - '0' as int
    } else if 'a' <= c && c <= 'f' {
        c as int - 'a' as int + 10
    } else if 'A' <= c && c <= 'F' {
        c as int - 'A' as int + 10
    } else {
        -1
    }
}

/// `c` is a digit of base `radix` (at most 16).
pub open spec fn is_digit(c: char, radix: int) -> bool {
    0 <= digit_of(c) < radix
}

/// `s` is a non-empty run of digits of base `radix`.
pub open spec fn all_digits(s: Seq<char>, radix: int) -> bool {
    s.len() > 0 && forall|i: int| 0 <= i < s.len() ==> is_digit(#[trigger] s[i], radix)
}

/// The number that the digits of `s` spell in base `radix`, most significant first.
pub open spec fn digits_value(s: Seq<char>, radix: int) -> int
    decreases s.len(),
{
    if s.len() == 0 {
        0
    } else {
        digits_value(s.drop_last(), radix) * radix + digit_of(s.last())
    }
}

/// What a field of digits of base `radix` reads as, where it is at most `max`.
pub open spec fn bounded_value(s: Seq<char>, radix: int, max: int) -> Option<int> {
    if all_digits(s, radix) && digits_value(s, radix) <= max {
        Some(digits_value(s, radix))
    } else {
        None
    }
}

/// What a numeric record field reads as: hexadecimal digits only, within `i32`.
pub open spec fn hex_field(s: Seq<char>) -> Option<int> {
    bounded_value(s, 16, i32::MAX as int)
}

proof fn lemma_value_grows(s: Seq<char>, radix: int, i: int)
    requires
        2 <= radix <= 16,
        0 <= i <= s.len(),
        forall|k: int| 0 <= k < s.len() ==> is_digit(#[trigger] s[k], radix),
    ensures
        digits_value(s.subrange(0, i), radix) <= digits_value(s, radix),
        0 <= digits_value(s.subrange(0, i), radix),
    decreases s.len() - i,
{
    if i < s.len() {
        lemma_value_grows(s, radix, i + 1);
        let p = s.subrange(0, i + 1);
        assert(p.drop_last() =~= s.subrange(0, i));
        assert(p.last() == s[i]);
        lemma_nonneg(s.subrange(0, i), radix);
        assert(digits_value(s.subrange(0, i), radix) * radix >= digits_value(s.subrange(0, i), radix))
            by (nonlinear_arith)
            requires
                digits_value(s.subrange(0, i), radix) >= 0,
                radix >= 2,
        ;
    } else {
        assert(s.subrange(0, i) =~= s);
        lemma_nonneg(s, radix);
    }
}

proof fn lemma_nonneg(s: Seq<char>, radix: int)
    requires
        2 <= radix <= 16,
        forall|k: int| 0 <= k < s.len() ==> is_digit(#[trigger] s[k], radix),
    ensures
        0 <= digits_value(s, radix),
    decreases s.len(),
{
    if s.len() > 0 {
        let p = s.drop_last();
        assert forall|k: int| 0 <= k < p.len() implies is_digit(#[trigger] p[k], radix) by {
            assert(p[k] == s[k]);
        }
        lemma_nonneg(p, radix);
        assert(digits_value(p, radix) * radix >= 0) by (nonlinear_arith)
            requires
                digits_value(p, radix) >= 0,
                radix >= 2,
        ;
    }
}

fn digit_value(c: char) -> (r: u32)
    ensures
        r as int == digit_of(c) || (digit_of(c) == -1 && r == 16),
{
    if '0' <= c && c <= '9' {
        (c as u32) - ('0' as u32)
    } else if 'a' <= c && c <= 'f' {
        (c as u32) - ('a' as u32) + 10
    } else if 'A' <= c && c <= 'F' {
        (c as u32) - ('A' as u32) + 10
    } else {
        16
    }
}

/// Reads `s` as a run of digits of base `radix`, refusing anything else and any
/// value above `max`.
pub fn parse_digits(s: &str, radix: u32, max: u64) -> (r: Option<u64>)
    requires
        2 <= radix <= 16,
    ensures
        r matches Some(v) ==> bounded_value(s@, radix as int, max as int) == Some(v as int),
        r is None ==> bounded_value(s@, radix as int, max as int) is None,
{
    let n = s.unicode_len();
    if n == 0 {
        return None;
    }
    let mut acc: u64 = 0;
    let mut i: usize = 0;
    while i < n
        invariant
            n == s@.len(),
            0 <= i <= n,
            2 <= radix <= 16,
            acc <= max,
            acc as int == digits_value(s@.subrange(0, i as int), radix as int),
            forall|k: int| 0 <= k < i ==> is_digit(#[trigger] s@[k], radix as int),
        decreases n - i,
    {
        let c = s.get_char(i);
        let d = digit_value(c);
        if d >= radix {
            assert(!is_digit(s@[i as int], radix as int));
            return None;
        }
        let ghost p = s@.subrange(0, i as int + 1);
        assert(p.drop_last() =~= s@.subrange(0, i as int));
        if d as u64 > max {
            assert forall|k: int| 0 <= k <= i implies is_digit(#[trigger] s@[k], radix as int) by {}
            assert(acc * radix + d > max) by (nonlinear_arith)
                requires
                    acc >= 0,
                    radix >= 2,
                    d > max,
            ;
            proof {
                if all_digits(s@, radix as int) {
                    lemma_value_grows(s@, radix as int, i as int + 1);
                }
            }
            return None;
        }
        let bound: u64 = (max - d as u64) / (radix as u64);
        if acc > bound {
            assert forall|k: int| 0 <= k <= i implies is_digit(#[trigger] s@[k], radix as int) by {}
            assert(acc * radix + d > max) by (nonlinear_arith)
                requires
                    acc > bound,
                    bound as int == (max as int - d as int) / (radix as int),
                    radix >= 2,
                    d < radix,
                    d <= max,
            ;
            proof {
                if all_digits(s@, radix as int) {
                    lemma_value_grows(s@, radix as int, i as int + 1);
                }
            }
            return None;
        }
        assert(acc * radix + d <= max) by (nonlinear_arith)
            requires
                acc <= bound,
                bound as int == (max as int - d as int) / (radix as int),
                radix >= 2,
                d < radix,
                d <= max,
        ;
        acc = acc * radix as u64 + d as u64;
        i = i + 1;
    }
    assert(s@.subrange(0, n as int) =~= s@);
    Some(acc)
}

/// The integer that `s` spells in base `radix`, with an optional `+` or `-`
/// sign, where it fits in an `i64`.
pub open spec fn signed_value(s: Seq<char>, radix: int) -> Option<int> {
    if s.len() > 0 && s[0] == '-' {
        match bounded_value(s.drop_first(), radix, 0x8000_0000_0000_0000) {
            Some(v) => Some(-v),
            None => None,
        }
    } else if s.len() > 0 && s[0] == '+' {
        bounded_value(s.drop_first(), radix, i64::MAX as int)
    } else {
        bounded_value(s, radix, i64::MAX as int)
    }
}

/// Reads `s` as a signed `i64` in base `radix`: an optional `+` or `-`, then
/// digits only.
pub fn parse_signed(s: &str, radix: u32) -> (r: Option<i64>)
    requires
        2 <= radix <= 16,
    ensures
        r matches Some(v) ==> signed_value(s@, radix as int) == Some(v as int),
        r is None ==> signed_value(s@, radix as int) is None,
{
    let n = s.unicode_len();
    if n > 0 && s.get_char(0) == '-' {
        let rest = s.substring_char(1, n);
        assert(rest@ =~= s@.drop_first());
        match parse_digits(rest, radix, 0x8000_0000_0000_0000) {
            Some(v) => {
                if v == 0x8000_0000_0000_0000 {
                    Some(i64::MIN)
                } else {
                    Some(-(v as i64))
                }
            },
            None => None,
        }
    } else if n > 0 && s.get_char(0) == '+' {
        let rest = s.substring_char(1, n);
        assert(rest@ =~= s@.drop_first());
        match parse_digits(rest, radix, 0x7fff_ffff_ffff_ffff) {
            Some(v) => Some(v as i64),
            None => None,
        }
    } else {
        match parse_digits(s, radix, 0x7fff_ffff_ffff_ffff) {
            Some(v) => Some(v as i64),
            None => None,
        }
    }
}

/// The `|`-separated tokens of `s`, in order. Text without a separator is one
/// token, so the empty text is one empty token.
pub open spec fn split_bar(s: Seq<char>) -> Seq<Seq<char>>
    decreases s.len(),
{
    if s.len() == 0 {
        seq![Seq::<char>::empty()]
    } else {
        let p = split_bar(s.drop_last());
        if s.last() == '|' {
            p.push(Seq::<char>::empty())
        } else {
            p.update(p.len() - 1, p.last().push(s.last()))
        }
    }
}

/// The texts that a sequence of strings holds.
pub open spec fn texts(v: Seq<String>) -> Seq<Seq<char>> {
    Seq::new(v.len(), |k: int| v[k]@)
}

/// Splits `s` at every `|` into its tokens.
pub fn split_fields(s: &str) -> (r: Vec<String>)
    ensures
        texts(r@) == split_bar(s@),
{
    let n = s.unicode_len();
    let mut out: Vec<String> = Vec::new();
    let mut start: usize = 0;
    let mut i: usize = 0;
    assert(s@.subrange(0, 0) =~= Seq::<char>::empty());
    assert(texts(out@).push(s@.subrange(0, 0)) =~= split_bar(s@.subrange(0, 0)));
    while i < n
        invariant
            n == s@.len(),
            0 <= start <= i <= n,
            texts(out@).push(s@.subrange(start as int, i as int)) == split_bar(
                s@.subrange(0, i as int),
            ),
        decreases n - i,
    {
        let c = s.get_char(i);
        let ghost whole = s@.subrange(0, i as int + 1);
        let ghost prev = texts(out@).push(s@.subrange(start as int, i as int));
        assert(whole.drop_last() =~= s@.subrange(0, i as int));
        assert(whole.last() == c);
        if c == '|' {
            let t = String::from_str(s.substring_char(start, i));
            out.push(t);
            start = i + 1;
            assert(s@.subrange(start as int, i as int + 1) =~= Seq::<char>::empty());
            assert(texts(out@) =~= prev);
            assert(texts(out@).push(s@.subrange(start as int, i as int + 1)) =~= split_bar(whole));
        } else {
            assert(s@.subrange(start as int, i as int + 1) =~= s@.subrange(
                start as int,
                i as int,
            ).push(c));
            assert(texts(out@).push(s@.subrange(start as int, i as int + 1)) =~= prev.update(
                prev.len() - 1,
                prev.last().push(c),
            ));
        }
        i = i + 1;
    }
    let t = String::from_str(s.substring_char(start, n));
    let ghost prev = texts(out@).push(s@.subrange(start as int, n as int));
    out.push(t);
    assert(s@.subrange(0, n as int) =~= s@);
    assert(texts(out@) =~= prev);
    out
}

} // verus!

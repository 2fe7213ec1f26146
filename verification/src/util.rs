//! Decimal numbers in headers and configuration, and the session key.

use vstd::prelude::*;
use crate::text::{chars_of, is_separator, split_chars, split_where, Separator};

pub use crate::text::{capitalize, ModChar};

verus! {

/// An ASCII decimal digit.
pub open spec fn is_digit(c: char) -> bool {
    48 <= c as u32 <= 57
}

/// Every character of `s` is a decimal digit.
pub open spec fn all_digits(s: Seq<char>) -> bool {
    forall|i: int| 0 <= i < s.len() ==> is_digit(s[i])
}

/// The number an all-digit string spells in decimal.
pub open spec fn digits_value(s: Seq<char>) -> int
    decreases s.len(),
{
    if s.len() == 0 {
        0
    } else {
        digits_value(s.drop_last()) * 10 + (s.last() as u32 - 48)
    }
}

/// What std's `str::parse` gives for an unsigned integer type whose
/// largest value is `max`: a decimal number, optionally preceded by one
/// `+`, that fits; `None` for anything else, the empty string and a lone
/// `+` included.
pub open spec fn parse_unsigned(s: Seq<char>, max: int) -> Option<int> {
    let body = if s.len() > 1 && s[0] == '+' {
        s.drop_first()
    } else {
        s
    };
    if body.len() > 0 && all_digits(body) && digits_value(body) <= max {
        Some(digits_value(body))
    } else {
        None
    }
}

proof fn lemma_digits_value_grows(s: Seq<char>, k: int)
    requires
        0 <= k <= s.len(),
        forall|i: int| 0 <= i < s.len() ==> is_digit(s[i]),
    ensures
        digits_value(s.take(k)) <= digits_value(s),
        digits_value(s) >= 0,
    decreases s.len(),
{
    if s.len() > 0 {
        let d = s.drop_last();
        assert forall|i: int| 0 <= i < d.len() implies is_digit(d[i]) by {
            assert(d[i] == s[i]);
        }
        if k == s.len() {
            assert(s.take(k) =~= s);
            lemma_digits_value_grows(d, 0);
        } else {
            assert(s.take(k) =~= d.take(k));
            lemma_digits_value_grows(d, k);
        }
    } else {
        assert(s.take(k) =~= s);
    }
}

fn parse_digits(cs: &[char], from: usize, max: usize) -> (r: Option<usize>)
    requires
        from <= cs@.len(),
        max >= 9,
    ensures
        ({
            let body = cs@.skip(from as int);
            match r {
                Some(v) => body.len() > 0 && all_digits(body) && digits_value(body) <= max && v
                    == digits_value(body),
                None => !(body.len() > 0 && all_digits(body) && digits_value(body) <= max),
            }
        }),
{
    let ghost body = cs@.skip(from as int);
    if from == cs.len() {
        return None;
    }
    let mut value: usize = 0;
    let mut i: usize = from;
    while i < cs.len()
        invariant
            from <= i <= cs@.len(),
            body == cs@.skip(from as int),
            forall|j: int| 0 <= j < i - from ==> is_digit(body[j]),
            value == digits_value(body.take(i - from)),
            value <= max,
            max >= 9,
        decreases cs@.len() - i,
    {
        let c = cs[i];
        assert(body[i - from] == c);
        let u: u32 = c as u32;
        if u < 48 || u > 57 {
            return None;
        }
        let d = (u - 48) as usize;
        assert(body.take(i - from + 1).drop_last() =~= body.take(i - from));
        if value > (max - d) / 10 {
            proof {
                assert(value * 10 + d > max) by (nonlinear_arith)
                    requires
                        value > (max - d) / 10,
                        d <= max,
                ;
                if all_digits(body) {
                    lemma_digits_value_grows(body, i - from + 1);
                }
            }
            return None;
        }
        proof {
            assert(value * 10 + d <= max) by (nonlinear_arith)
                requires
                    value <= (max - d) / 10,
                    d <= max,
            ;
        }
        value = value * 10 + d;
        i = i + 1;
    }
    assert(body.take(cs@.len() - from) =~= body);
    Some(value)
}

/// Parses an unsigned decimal no larger than `max` (std's `str::parse`
/// rule for unsigned integers).
fn parse_unsigned_chars(cs: &[char], max: usize) -> (r: Option<usize>)
    requires
        max >= 9,
    ensures
        match r {
            Some(v) => parse_unsigned(cs@, max as int) == Some(v as int),
            None => parse_unsigned(cs@, max as int).is_none(),
        },
{
    let from: usize = if cs.len() > 1 && cs[0] == '+' {
        1
    } else {
        0
    };
    let ghost body = if cs@.len() > 1 && cs@[0] == '+' {
        cs@.drop_first()
    } else {
        cs@
    };
    assert(body =~= cs@.skip(from as int));
    let r = parse_digits(cs, from, max);
    r
}

/// Parses a decimal count such as a rate-limit header (std's
/// `str::parse::<usize>`).
pub fn parse_usize(s: &str) -> (r: Option<usize>)
    ensures
        match r {
            Some(v) => parse_unsigned(s@, usize::MAX as int) == Some(v as int),
            None => parse_unsigned(s@, usize::MAX as int).is_none(),
        },
{
    let cs = chars_of(s);
    parse_unsigned_chars(cs.as_slice(), usize::MAX)
}

/// The words of a string: its runs of characters other than white space.
pub open spec fn words(s: Seq<char>) -> Seq<Seq<char>> {
    split_where(s, |c: char| is_separator(Separator::Whitespace, c)).filter(
        |w: Seq<char>| w.len() > 0,
    )
}

/// Every word is a decimal number up to 255.
pub open spec fn all_bytes(ws: Seq<Seq<char>>) -> bool {
    forall|i: int| 0 <= i < ws.len() ==> parse_unsigned(#[trigger] ws[i], 255).is_some()
}

/// The bytes a key written as white-space separated decimal numbers
/// spells; `None` when a word is not a number up to 255.
pub open spec fn key_bytes(s: Seq<char>) -> Option<Seq<u8>> {
    let ws = words(s);
    if all_bytes(ws) {
        Some(Seq::new(ws.len(), |i: int| parse_unsigned(ws[i], 255).unwrap() as u8))
    } else {
        None
    }
}

/// Reads a key written as white-space separated decimal bytes.
pub fn parse_key(key: &str) -> (r: Option<Vec<u8>>)
    ensures
        match r {
            Some(v) => key_bytes(key@) == Some(v@),
            None => key_bytes(key@).is_none(),
        },
{
    let cs = chars_of(key);
    let pieces = split_chars(cs.as_slice(), Separator::Whitespace);
    let ghost ps = pieces.deep_view();
    let ghost nonempty = |w: Seq<char>| w.len() > 0;
    let ghost ws = words(key@);
    assert(ps.filter(nonempty) == ws);
    let mut out: Vec<u8> = Vec::new();
    let mut i: usize = 0;
    while i < pieces.len()
        invariant
            i <= ps.len(),
            ps == pieces.deep_view(),
            nonempty == (|w: Seq<char>| w.len() > 0),
            ps.filter(nonempty) == ws,
            ws == words(key@),
            out@.len() == ps.take(i as int).filter(nonempty).len(),
            forall|k: int|
                0 <= k < out@.len() ==> parse_unsigned(ps.take(i as int).filter(nonempty)[k], 255)
                    == Some(out@[k] as int),
        decreases ps.len() - i,
    {
        let piece = &pieces[i];
        assert(ps[i as int] == piece.deep_view());
        assert(piece.deep_view() =~= piece@);
        let ghost prev = ps.take(i as int).filter(nonempty);
        proof {
            reveal_with_fuel(Seq::filter, 1);
            assert(ps.take(i + 1).drop_last() =~= ps.take(i as int));
            assert(ps.take(i + 1).last() == piece@);
            if piece@.len() > 0 {
                assert(ps.take(i + 1).filter(nonempty) == prev.push(piece@));
            } else {
                assert(ps.take(i + 1).filter(nonempty) == prev);
            }
        }
        if piece.len() == 0 {
            proof {
                assert(ps.take(i + 1).filter(nonempty) == prev);
            }
        } else {
            match parse_unsigned_chars(piece.as_slice(), 255) {
                Some(b) => {
                    assert(b <= 255);
                    let ghost before = out@;
                    out.push(b as u8);
                    proof {
                        let f = ps.take(i + 1).filter(nonempty);
                        assert(f == prev.push(piece@));
                        assert forall|k: int| 0 <= k < out@.len() implies parse_unsigned(
                            f[k],
                            255,
                        ) == Some(out@[k] as int) by {
                            if k < before.len() {
                                assert(f[k] == prev[k]);
                            }
                        }
                    }
                },
                None => {
                    proof {
                        let f = ps.take(i + 1).filter(nonempty);
                        assert(f == prev.push(piece@));
                        assert(f[prev.len() as int] == piece@);
                        ps.lemma_filter_contains(nonempty, i as int);
                        assert(ws.contains(piece@));
                        let k = choose|k: int| 0 <= k < ws.len() && ws[k] == piece@;
                        assert(parse_unsigned(ws[k], 255).is_none());
                        assert(!all_bytes(ws));
                    }
                    return None;
                },
            }
        }
        i = i + 1;
    }
    assert(ps.take(ps.len() as int) =~= ps);
    assert(all_bytes(ws)) by {
        assert forall|k: int| 0 <= k < ws.len() implies parse_unsigned(#[trigger] ws[k], 255).is_some() by {
            assert(parse_unsigned(ws[k], 255) == Some(out@[k] as int));
        }
    }
    assert forall|k: int| 0 <= k < ws.len() implies out@[k] == parse_unsigned(ws[k], 255).unwrap() as u8 by {
        assert(parse_unsigned(ws[k], 255) == Some(out@[k] as int));
    }
    assert(out@ =~= Seq::new(ws.len(), |k: int| parse_unsigned(ws[k], 255).unwrap() as u8));
    Some(out)
}

/// The first sixteen bytes of `src`, as a key.
pub fn to_slice(src: &Vec<u8>) -> (r: [u8; 16])
    requires
        src@.len() >= 16,
    ensures
        r@ == src@.take(16),
{
    let mut result = [0u8; 16];
    let mut n: usize = 0;
    while n < 16
        invariant
            n <= 16,
            src@.len() >= 16,
            result@.len() == 16,
            forall|j: int| 0 <= j < n ==> result@[j] == src@[j],
        decreases 16 - n,
    {
        result[n] = src[n];
        n = n + 1;
    }
    assert(result@ =~= src@.take(16));
    result
}

} // verus!

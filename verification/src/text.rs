//! Character-level helpers on strings, stated over `Seq<char>`.

use vstd::prelude::*;

verus! {

/// The characters of `s`, in order.
pub fn chars_of(s: &str) -> (r: Vec<char>)
    ensures
        r@ == s@,
{
    let mut r: Vec<char> = Vec::new();
    for c in it: s.chars()
        invariant
            r@ == it.seq().take(it.index() as int),
            it.seq() == s@,
    {
        r.push(c);
    }
    r
}

/// Appends one character (std's `String::push`).
#[verifier::external_body]
fn push_char(s: &mut String, c: char)
    ensures
        final(s)@ == old(s)@.push(c),
{
    s.push(c);
}

/// A string holding exactly the characters of `cs`.
pub fn string_from_chars(cs: &[char]) -> (r: String)
    ensures
        r@ == cs@,
{
    let mut r = String::new();
    let mut i: usize = 0;
    while i < cs.len()
        invariant
            i <= cs@.len(),
            r@ == cs@.take(i as int),
        decreases cs@.len() - i,
    {
        push_char(&mut r, cs[i]);
        i = i + 1;
        assert(r@ =~= cs@.take(i as int));
    }
    assert(cs@.take(cs@.len() as int) =~= cs@);
    r
}

} // verus!

verus! {

/// `n` occurs in `h` starting at position `i`.
pub open spec fn occurs_at(h: Seq<char>, n: Seq<char>, i: int) -> bool {
    0 <= i && i + n.len() <= h.len() && h.subrange(i, i + n.len()) == n
}

/// `n` is a substring of `h` (the empty string is a substring of every string).
pub open spec fn contains_str(h: Seq<char>, n: Seq<char>) -> bool {
    exists|i: int| occurs_at(h, n, i)
}

/// Whether `a` and `b` hold the same characters.
pub fn chars_equal(a: &[char], b: &[char]) -> (r: bool)
    ensures
        r == (a@ == b@),
{
    if a.len() != b.len() {
        return false;
    }
    let mut i: usize = 0;
    while i < a.len()
        invariant
            i <= a@.len(),
            a@.len() == b@.len(),
            forall|j: int| 0 <= j < i ==> a@[j] == b@[j],
        decreases a@.len() - i,
    {
        if a[i] != b[i] {
            return false;
        }
        i = i + 1;
    }
    assert(a@ =~= b@);
    true
}

/// Whether `n` occurs in `h` at position `i`.
fn occurs_at_exec(h: &[char], n: &[char], i: usize) -> (r: bool)
    requires
        i + n@.len() <= h@.len(),
    ensures
        r == occurs_at(h@, n@, i as int),
{
    let mut j: usize = 0;
    while j < n.len()
        invariant
            j <= n@.len(),
            i + n@.len() <= h@.len(),
            forall|k: int| 0 <= k < j ==> h@[i + k] == n@[k],
        decreases n@.len() - j,
    {
        let hl = h.len();
        assert(i + j < hl);
        if h[i + j] != n[j] {
            assert(h@.subrange(i as int, i + n@.len())[j as int] != n@[j as int]);
            return false;
        }
        j = j + 1;
    }
    assert(h@.subrange(i as int, i + n@.len()) =~= n@);
    true
}

/// Whether `n` is a substring of `h`.
pub fn contains_chars(h: &[char], n: &[char]) -> (r: bool)
    ensures
        r == contains_str(h@, n@),
{
    if n.len() > h.len() {
        return false;
    }
    if n.len() == 0 {
        assert(h@.subrange(0, 0) =~= n@);
        assert(occurs_at(h@, n@, 0));
        return true;
    }
    let end = h.len() - n.len() + 1;
    let mut i: usize = 0;
    while i < end
        invariant
            end == h@.len() - n@.len() + 1,
            i <= end,
            forall|k: int| 0 <= k < i ==> !occurs_at(h@, n@, k),
        decreases end - i,
    {
        if occurs_at_exec(h, n, i) {
            return true;
        }
        i = i + 1;
    }
    false
}

/// Whether the string `n` is a substring of `h` (std's `str::contains`).
pub fn str_contains(h: &str, n: &str) -> (r: bool)
    ensures
        r == contains_str(h@, n@),
{
    let hc = chars_of(h);
    let nc = chars_of(n);
    contains_chars(hc.as_slice(), nc.as_slice())
}

/// ASCII punctuation: `! " # $ % & ' ( ) * + , - . /`, `: ; < = > ? @`,
/// `[ \ ] ^ _ `` ` and `{ | } ~`.
pub open spec fn is_ascii_punct(c: char) -> bool {
    let u = c as u32;
    (33 <= u <= 47) || (58 <= u <= 64) || (91 <= u <= 96) || (123 <= u <= 126)
}

/// Classification of characters used when building display names.
pub trait ModChar {
    /// Whether `ch` is ASCII punctuation.
    fn is_punct(ch: char) -> (r: bool)
        ensures
            r == is_ascii_punct(ch),
    ;
}

impl ModChar for char {
    fn is_punct(ch: char) -> (r: bool) {
        let u = ch as u32;
        (33 <= u && u <= 47) || (58 <= u && u <= 64) || (91 <= u && u <= 96) || (123 <= u && u
            <= 126)
    }
}

/// `s` with its ASCII punctuation removed.
pub open spec fn strip_punct(s: Seq<char>) -> Seq<char> {
    s.filter(|c: char| !is_ascii_punct(c))
}

/// `s` with its ASCII punctuation removed: what joining the pieces of `s`
/// split at punctuation gives.
pub fn without_punct(s: &str) -> (r: String)
    ensures
        r@ == strip_punct(s@),
        forall|i: int| 0 <= i < r@.len() ==> !is_ascii_punct(#[trigger] r@[i]),
{
    let cs = chars_of(s);
    let mut out: Vec<char> = Vec::new();
    let ghost pred = |c: char| !is_ascii_punct(c);
    let mut i: usize = 0;
    while i < cs.len()
        invariant
            i <= cs@.len(),
            cs@ == s@,
            pred == (|c: char| !is_ascii_punct(c)),
            out@ == cs@.take(i as int).filter(pred),
        decreases cs@.len() - i,
    {
        let c = cs[i];
        if !<char as ModChar>::is_punct(c) {
            out.push(c);
        }
        proof {
            reveal_with_fuel(Seq::filter, 1);
            assert(cs@.take(i + 1).drop_last() =~= cs@.take(i as int));
        }
        i = i + 1;
    }
    assert(cs@.take(cs@.len() as int) =~= cs@);
    proof {
        assert forall|i: int| 0 <= i < out@.len() implies !is_ascii_punct(#[trigger] out@[i]) by {
            cs@.lemma_filter_pred(pred, i);
        }
    }
    string_from_chars(out.as_slice())
}

/// What std's `char::to_uppercase` yields for `c`, collected into a string.
pub uninterp spec fn char_to_uppercase(c: char) -> Seq<char>;

/// The upper-case form of `c` (std's `char::to_uppercase`, collected).
/// Unicode case mapping is named, not stated; what is stated is that
/// there is at least one character, and the ASCII cases: `a`..`z` map to
/// `A`..`Z` and every other ASCII character maps to itself.
#[verifier::external_body]
fn uppercase_of(c: char) -> (r: String)
    ensures
        r@ == char_to_uppercase(c),
        r@.len() >= 1,
        97 <= c as u32 <= 122 ==> r@ == seq![((c as u32) - 32) as char],
        (c as u32) < 128 && !(97 <= c as u32 <= 122) ==> r@ == seq![c],
{
    c.to_uppercase().collect::<String>()
}

/// `s` with its first character upper-cased.
pub open spec fn capitalized(s: Seq<char>) -> Seq<char> {
    if s.len() == 0 {
        s
    } else {
        char_to_uppercase(s[0]) + s.drop_first()
    }
}

/// `s` is empty or starts with an ASCII character.
pub open spec fn first_is_ascii(s: Seq<char>) -> bool {
    s.len() == 0 || (s[0] as u32) < 128
}

/// The ASCII upper-case form of `c`: `a`..`z` become `A`..`Z`, every other
/// character stays.
pub open spec fn ascii_upper(c: char) -> char {
    if 97 <= c as u32 <= 122 {
        ((c as u32) - 32) as char
    } else {
        c
    }
}

/// `s` with its first character upper-cased by the ASCII rule.
pub open spec fn ascii_capitalized(s: Seq<char>) -> Seq<char> {
    if s.len() == 0 {
        s
    } else {
        seq![ascii_upper(s[0])] + s.drop_first()
    }
}

/// `s1` with its first character upper-cased; the empty string stays empty.
/// When the first character is ASCII, a lower-case letter becomes its
/// capital and any other character stays.
pub fn capitalize(s1: String) -> (r: String)
    ensures
        r@ == capitalized(s1@),
        first_is_ascii(s1@) ==> r@ == ascii_capitalized(s1@),
{
    let cs = chars_of(s1.as_str());
    if cs.len() == 0 {
        return String::new();
    }
    let mut head = uppercase_of(cs[0]);
    let mut i: usize = 1;
    while i < cs.len()
        invariant
            1 <= i <= cs@.len(),
            cs@ == s1@,
            head@ == char_to_uppercase(cs@[0]) + cs@.subrange(1, i as int),
        decreases cs@.len() - i,
    {
        push_char(&mut head, cs[i]);
        i = i + 1;
        assert(head@ =~= char_to_uppercase(cs@[0]) + cs@.subrange(1, i as int));
    }
    assert(cs@.subrange(1, cs@.len() as int) =~= cs@.drop_first());
    head
}

/// Capitalizing a string that starts with an ASCII character keeps its
/// length, leaves it starting with an ASCII character, and capitalizing it
/// again changes nothing.
pub proof fn lemma_capitalize_ascii_idempotent(s: Seq<char>)
    requires
        first_is_ascii(s),
    ensures
        ascii_capitalized(s).len() == s.len(),
        first_is_ascii(ascii_capitalized(s)),
        ascii_capitalized(ascii_capitalized(s)) == ascii_capitalized(s),
{
    if s.len() > 0 {
        let c = s[0];
        let t = ascii_capitalized(s);
        assert(t[0] == ascii_upper(c));
        if 97 <= c as u32 <= 122 {
            assert((ascii_upper(c) as u32) == (c as u32) - 32);
        }
        assert(ascii_upper(ascii_upper(c)) == ascii_upper(c));
        assert(t.drop_first() =~= s.drop_first());
        assert(ascii_capitalized(t) =~= t);
    }
}

/// `s` without the leading characters that belong to `set`.
pub open spec fn trim_start(s: Seq<char>, set: Seq<char>) -> Seq<char>
    decreases s.len(),
{
    if s.len() > 0 && set.contains(s[0]) {
        trim_start(s.drop_first(), set)
    } else {
        s
    }
}

/// `s` without the trailing characters that belong to `set`.
pub open spec fn trim_end(s: Seq<char>, set: Seq<char>) -> Seq<char>
    decreases s.len(),
{
    if s.len() > 0 && set.contains(s.last()) {
        trim_end(s.drop_last(), set)
    } else {
        s
    }
}

fn in_set(set: &[char], c: char) -> (r: bool)
    ensures
        r == set@.contains(c),
{
    let mut i: usize = 0;
    while i < set.len()
        invariant
            i <= set@.len(),
            forall|j: int| 0 <= j < i ==> set@[j] != c,
        decreases set@.len() - i,
    {
        if set[i] == c {
            return true;
        }
        i = i + 1;
    }
    false
}

pub proof fn lemma_trim_start_skip(s: Seq<char>, set: Seq<char>, k: int)
    requires
        0 <= k <= s.len(),
        forall|j: int| 0 <= j < k ==> set.contains(s[j]),
    ensures
        trim_start(s, set) == trim_start(s.skip(k), set),
    decreases k,
{
    if k > 0 {
        assert(s.skip(1) =~= s.drop_first());
        lemma_trim_start_skip(s.drop_first(), set, k - 1);
        assert(s.drop_first().skip(k - 1) =~= s.skip(k));
    } else {
        assert(s.skip(0) =~= s);
    }
}

pub proof fn lemma_trim_end_take(s: Seq<char>, set: Seq<char>, k: int)
    requires
        0 <= k <= s.len(),
        forall|j: int| k <= j < s.len() ==> set.contains(s[j]),
    ensures
        trim_end(s, set) == trim_end(s.take(k), set),
    decreases s.len() - k,
{
    if k < s.len() {
        assert(s.take(s.len() - 1) =~= s.drop_last());
        lemma_trim_end_take(s.drop_last(), set, k);
        assert(s.drop_last().take(k) =~= s.take(k));
    } else {
        assert(s.take(k) =~= s);
    }
}

/// `cs` without leading characters of `start_set` and trailing characters
/// of `end_set` (std's `trim_start_matches` then `trim_end_matches`).
pub fn trim_both(cs: &[char], start_set: &[char], end_set: &[char]) -> (r: Vec<char>)
    ensures
        r@ == trim_end(trim_start(cs@, start_set@), end_set@),
{
    let mut a: usize = 0;
    while a < cs.len() && in_set(start_set, cs[a])
        invariant
            a <= cs@.len(),
            forall|j: int| 0 <= j < a ==> start_set@.contains(cs@[j]),
        decreases cs@.len() - a,
    {
        a = a + 1;
    }
    proof {
        lemma_trim_start_skip(cs@, start_set@, a as int);
        let t = cs@.skip(a as int);
        if t.len() > 0 {
            assert(t[0] == cs@[a as int]);
        }
        assert(trim_start(t, start_set@) == t);
    }
    let mut b: usize = cs.len();
    while b > a && in_set(end_set, cs[b - 1])
        invariant
            a <= b <= cs@.len(),
            forall|j: int| b <= j < cs@.len() ==> end_set@.contains(cs@[j]),
        decreases b,
    {
        b = b - 1;
    }
    let ghost t = cs@.skip(a as int);
    proof {
        assert forall|j: int| b - a <= j < t.len() implies end_set@.contains(t[j]) by {
            assert(t[j] == cs@[a + j]);
        }
        lemma_trim_end_take(t, end_set@, b - a);
        let u = t.take(b - a);
        if u.len() > 0 {
            assert(u.last() == cs@[b - 1]);
        }
        assert(trim_end(u, end_set@) == u);
    }
    let mut r: Vec<char> = Vec::new();
    let mut i: usize = a;
    while i < b
        invariant
            a <= i <= b <= cs@.len(),
            r@ == cs@.subrange(a as int, i as int),
        decreases b - i,
    {
        r.push(cs[i]);
        i = i + 1;
        assert(r@ =~= cs@.subrange(a as int, i as int));
    }
    assert(r@ =~= t.take(b - a));
    r
}

} // verus!

verus! {

/// Unicode `White_Space` (what std's `char::is_whitespace` tests).
pub open spec fn is_unicode_whitespace(c: char) -> bool {
    let u = c as u32;
    (9 <= u <= 13) || u == 32 || u == 0x85 || u == 0xA0 || u == 0x1680 || (0x2000 <= u
        <= 0x200A) || u == 0x2028 || u == 0x2029 || u == 0x202F || u == 0x205F || u == 0x3000
}

/// The characters a string is split at.
pub enum Separator {
    /// `,` and `;`, the delimiters of an HTTP `Link` header.
    LinkDelimiter,
    /// `/`, the path separator.
    Slash,
    /// Unicode white space.
    Whitespace,
}

pub open spec fn is_separator(sep: Separator, c: char) -> bool {
    match sep {
        Separator::LinkDelimiter => c == ',' || c == ';',
        Separator::Slash => c == '/',
        Separator::Whitespace => is_unicode_whitespace(c),
    }
}

fn is_separator_exec(sep: &Separator, c: char) -> (r: bool)
    ensures
        r == is_separator(*sep, c),
{
    match sep {
        Separator::LinkDelimiter => c == ',' || c == ';',
        Separator::Slash => c == '/',
        Separator::Whitespace => {
            let u = c as u32;
            (9 <= u && u <= 13) || u == 32 || u == 0x85 || u == 0xA0 || u == 0x1680 || (0x2000
                <= u && u <= 0x200A) || u == 0x2028 || u == 0x2029 || u == 0x202F || u == 0x205F
                || u == 0x3000
        },
    }
}

/// The pieces of `s` between the characters satisfying `p`, empty pieces
/// included, as std's `str::split` yields them: one piece more than there
/// are separators.
pub open spec fn split_where(s: Seq<char>, p: spec_fn(char) -> bool) -> Seq<Seq<char>>
    decreases s.len(),
{
    if s.len() == 0 {
        seq![Seq::<char>::empty()]
    } else {
        let r = split_where(s.drop_last(), p);
        if p(s.last()) {
            r.push(Seq::<char>::empty())
        } else {
            r.update(r.len() - 1, r.last().push(s.last()))
        }
    }
}

pub proof fn lemma_split_where_nonempty(s: Seq<char>, p: spec_fn(char) -> bool)
    ensures
        split_where(s, p).len() >= 1,
    decreases s.len(),
{
    if s.len() > 0 {
        lemma_split_where_nonempty(s.drop_last(), p);
    }
}

proof fn lemma_chars_deep_view(v: Vec<char>)
    ensures
        v.deep_view() == v@,
{
    assert(v.deep_view() =~= v@);
}

proof fn lemma_push_piece(before: Vec<Vec<char>>, after: Vec<Vec<char>>, x: Vec<char>)
    requires
        after@ == before@.push(x),
    ensures
        after.deep_view() == before.deep_view().push(x@),
{
    lemma_chars_deep_view(x);
    assert forall|j: int| 0 <= j < after@.len() implies #[trigger] after.deep_view()[j]
        == before.deep_view().push(x@)[j] by {
        if j < before@.len() {
            assert(after@[j] == before@[j]);
        }
    }
    assert(after.deep_view() =~= before.deep_view().push(x@));
}

/// The pieces of `cs` between separators.
pub fn split_chars(cs: &[char], sep: Separator) -> (r: Vec<Vec<char>>)
    ensures
        r.deep_view() == split_where(cs@, |c: char| is_separator(sep, c)),
{
    let ghost p = |c: char| is_separator(sep, c);
    let mut done: Vec<Vec<char>> = Vec::new();
    let mut cur: Vec<char> = Vec::new();
    let mut i: usize = 0;
    while i < cs.len()
        invariant
            i <= cs@.len(),
            p == (|c: char| is_separator(sep, c)),
            split_where(cs@.take(i as int), p) == done.deep_view().push(cur@),
        decreases cs@.len() - i,
    {
        let c = cs[i];
        let ghost prev_done = done.deep_view();
        let ghost prev_vec = done;
        let ghost prev_cur = cur@;
        proof {
            assert(cs@.take(i + 1).drop_last() =~= cs@.take(i as int));
            assert(cs@.take(i + 1).last() == c);
        }
        if is_separator_exec(&sep, c) {
            let piece = cur;
            let ghost piece_g = piece;
            done.push(piece);
            cur = Vec::new();
            proof {
                lemma_push_piece(prev_vec, done, piece_g);
                assert(split_where(cs@.take(i + 1), p) =~= done.deep_view().push(cur@));
            }
        } else {
            cur.push(c);
            proof {
                assert(split_where(cs@.take(i + 1), p) =~= done.deep_view().push(cur@));
            }
        }
        i = i + 1;
    }
    assert(cs@.take(cs@.len() as int) =~= cs@);
    let ghost before = done;
    let ghost last = cur;
    done.push(cur);
    proof {
        lemma_push_piece(before, done, last);
    }
    done
}

} // verus!

verus! {

/// A string without separators is a single piece.
pub proof fn lemma_split_without_separators(x: Seq<char>, p: spec_fn(char) -> bool)
    requires
        forall|i: int| 0 <= i < x.len() ==> !p(x[i]),
    ensures
        split_where(x, p) == seq![x],
    decreases x.len(),
{
    if x.len() > 0 {
        lemma_split_without_separators(x.drop_last(), p);
        assert(x.drop_last().push(x.last()) =~= x);
        assert(split_where(x, p) =~= seq![x]);
    } else {
        assert(x =~= Seq::<char>::empty());
    }
}

/// Splitting at a separator splits the two sides apart.
pub proof fn lemma_split_at_separator(x: Seq<char>, c: char, y: Seq<char>, p: spec_fn(char) -> bool)
    requires
        p(c),
    ensures
        split_where(x + seq![c] + y, p) == split_where(x, p) + split_where(y, p),
    decreases y.len(),
{
    let xc = x + seq![c];
    if y.len() == 0 {
        assert(xc + y =~= xc);
        assert(xc.drop_last() =~= x);
        assert(split_where(x, p) + split_where(y, p) =~= split_where(x, p).push(
            Seq::<char>::empty(),
        ));
    } else {
        let y0 = y.drop_last();
        lemma_split_at_separator(x, c, y0, p);
        lemma_split_where_nonempty(y0, p);
        assert((xc + y).drop_last() =~= xc + y0);
        assert((xc + y).last() == y.last());
        let a = split_where(x, p);
        let b = split_where(y0, p);
        if p(y.last()) {
            assert((a + b).push(Seq::<char>::empty()) =~= a + b.push(Seq::<char>::empty()));
        } else {
            assert((a + b).last() == b.last());
            assert((a + b).update((a + b).len() - 1, (a + b).last().push(y.last())) =~= a
                + b.update(b.len() - 1, b.last().push(y.last())));
        }
    }
}

/// Every piece of a split occurs in the split text, and the last piece
/// ends it.
pub proof fn lemma_split_pieces_occur(s: Seq<char>, p: spec_fn(char) -> bool)
    ensures
        forall|k: int|
            0 <= k < split_where(s, p).len() ==> contains_str(s, #[trigger] split_where(s, p)[k]),
        occurs_at(s, split_where(s, p).last(), s.len() - split_where(s, p).last().len()),
    decreases s.len(),
{
    lemma_split_where_nonempty(s, p);
    if s.len() == 0 {
        assert(occurs_at(s, Seq::<char>::empty(), 0)) by {
            assert(s.subrange(0, 0) =~= Seq::<char>::empty());
        }
    } else {
        let s0 = s.drop_last();
        lemma_split_pieces_occur(s0, p);
        lemma_split_where_nonempty(s0, p);
        let r = split_where(s0, p);
        let t = split_where(s, p);
        assert forall|k: int| 0 <= k < r.len() - 1 implies contains_str(s, #[trigger] r[k]) by {
            assert(contains_str(s0, r[k]));
            let i = choose|i: int| occurs_at(s0, r[k], i);
            assert(s.subrange(i, i + r[k].len()) =~= s0.subrange(i, i + r[k].len()));
            assert(occurs_at(s, r[k], i));
        }
        if p(s.last()) {
            let l = r.last();
            assert(contains_str(s, l)) by {
                let i = s0.len() - l.len();
                assert(s.subrange(i, i + l.len()) =~= s0.subrange(i, i + l.len()));
                assert(occurs_at(s, l, i));
            }
            assert(occurs_at(s, Seq::<char>::empty(), s.len() as int)) by {
                assert(s.subrange(s.len() as int, s.len() as int) =~= Seq::<char>::empty());
            }
            assert forall|k: int| 0 <= k < t.len() implies contains_str(s, #[trigger] t[k]) by {
                if k < r.len() - 1 {
                    assert(t[k] == r[k]);
                } else if k == r.len() - 1 {
                    assert(t[k] == l);
                } else {
                    assert(t[k] == Seq::<char>::empty());
                }
            }
        } else {
            let l = r.last();
            let nl = l.push(s.last());
            let i = s.len() - nl.len();
            assert(s.subrange(i, s.len() as int) =~= s0.subrange(i, s0.len() as int).push(
                s.last(),
            ));
            assert(occurs_at(s, nl, i));
            assert forall|k: int| 0 <= k < t.len() implies contains_str(s, #[trigger] t[k]) by {
                if k < r.len() - 1 {
                    assert(t[k] == r[k]);
                } else {
                    assert(t[k] == nl);
                }
            }
        }
    }
}

/// Appending text without separators extends the last piece.
pub proof fn lemma_split_extend_last(x: Seq<char>, y: Seq<char>, p: spec_fn(char) -> bool)
    requires
        forall|i: int| 0 <= i < y.len() ==> !p(y[i]),
    ensures
        split_where(x + y, p) == split_where(x, p).update(
            split_where(x, p).len() - 1,
            split_where(x, p).last() + y,
        ),
    decreases y.len(),
{
    lemma_split_where_nonempty(x, p);
    if y.len() == 0 {
        assert(x + y =~= x);
        assert(split_where(x, p).last() + y =~= split_where(x, p).last());
        assert(split_where(x, p).update(split_where(x, p).len() - 1, split_where(x, p).last() + y)
            =~= split_where(x, p));
    } else {
        let y0 = y.drop_last();
        lemma_split_extend_last(x, y0, p);
        assert((x + y).drop_last() =~= x + y0);
        assert((x + y).last() == y.last());
        let r = split_where(x, p);
        assert(r.last() + y0 + seq![y.last()] =~= r.last() + y);
        assert(r.update(r.len() - 1, r.last() + y0).last().push(y.last()) =~= r.last() + y);
        assert(split_where(x + y, p) =~= r.update(r.len() - 1, r.last() + y));
    }
}

} // verus!

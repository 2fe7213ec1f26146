//! The HTTP `Link` header of a paged search: picking out the address of a
//! neighbouring page.

use vstd::prelude::*;
use crate::text::{
    contains_str, lemma_split_at_separator, lemma_split_pieces_occur, lemma_trim_end_take,
    lemma_trim_start_skip, occurs_at,
    lemma_split_extend_last, lemma_split_without_separators, chars_equal, chars_of, is_separator, split_chars, split_where, string_from_chars, trim_both,
    trim_end, trim_start, Separator,
};

verus! {

/// The parameter that names a relation `which` in a `Link` header piece:
/// ` rel="which"`.
pub open spec fn rel_param(which: Seq<char>) -> Seq<char> {
    seq![' ', 'r', 'e', 'l', '=', '"'] + which + seq!['"']
}

/// The relation name of the next page.
pub open spec fn next_rel() -> Seq<char> {
    seq!['n', 'e', 'x', 't']
}

/// The pieces of a `Link` header between `,` and `;`, last piece first.
pub open spec fn link_pieces(links: Seq<char>) -> Seq<Seq<char>> {
    split_where(links, |c: char| is_separator(Separator::LinkDelimiter, c)).reverse()
}

/// `p` is the first position of `x` in `s`.
pub open spec fn is_first_position(s: Seq<Seq<char>>, x: Seq<char>, p: int) -> bool {
    0 <= p < s.len() && s[p] == x && forall|j: int| 0 <= j < p ==> s[j] != x
}

/// The address a `Link` header gives when asked for relation `which`:
/// empty when no piece is exactly ` rel="which"`; otherwise the piece that
/// follows, in the reversed order, the first ` rel="next"` piece (whatever
/// relation was asked for), stripped of leading `<` and spaces and of
/// trailing `>` and spaces. `None` where there is no ` rel="next"` piece,
/// or nothing follows it.
pub open spec fn link_lookup(links: Seq<char>, which: Seq<char>) -> Option<Seq<char>> {
    let pieces = link_pieces(links);
    if !pieces.contains(rel_param(which)) {
        Some(Seq::<char>::empty())
    } else if exists|p: int| is_first_position(pieces, rel_param(next_rel()), p) {
        let p = choose|p: int| is_first_position(pieces, rel_param(next_rel()), p);
        if p + 1 < pieces.len() {
            Some(
                trim_end(
                    trim_start(pieces[p + 1], seq!['<', ' ']),
                    seq!['>', ' '],
                ),
            )
        } else {
            None
        }
    } else {
        None
    }
}

fn rel_param_chars(which: &[char]) -> (r: Vec<char>)
    ensures
        r@ == rel_param(which@),
{
    let mut r: Vec<char> = vec![' ', 'r', 'e', 'l', '=', '"'];
    let mut i: usize = 0;
    while i < which.len()
        invariant
            i <= which@.len(),
            r@ == seq![' ', 'r', 'e', 'l', '=', '"'] + which@.take(i as int),
        decreases which@.len() - i,
    {
        r.push(which[i]);
        i = i + 1;
        assert(r@ =~= seq![' ', 'r', 'e', 'l', '=', '"'] + which@.take(i as int));
    }
    r.push('"');
    assert(which@.take(which@.len() as int) =~= which@);
    assert(r@ =~= rel_param(which@));
    r
}

/// The address a `Link` header gives for relation `which`, or `None` where
/// the header has no usable ` rel="next"` piece though it names `which`.
pub fn find_link(links: &str, which: &str) -> (r: Option<String>)
    ensures
        match r {
            Some(s) => link_lookup(links@, which@) == Some(s@),
            None => link_lookup(links@, which@).is_none(),
        },
{
    let cs = chars_of(links);
    let wc = chars_of(which);
    let pieces = split_chars(cs.as_slice(), Separator::LinkDelimiter);
    let ghost ps = split_where(cs@, |c: char| is_separator(Separator::LinkDelimiter, c));
    let ghost rev = ps.reverse();
    assert(pieces.deep_view() == ps);
    let n = pieces.len();
    let tag = rel_param_chars(wc.as_slice());
    let next = ['n', 'e', 'x', 't'];
    assert(next@ =~= next_rel());
    let next_tag = rel_param_chars(next.as_slice());
    // Whether some piece is the asked relation.
    let mut named = false;
    let mut i: usize = 0;
    while i < n
        invariant
            i <= n,
            n == ps.len(),
            pieces.deep_view() == ps,
            tag@ == rel_param(wc@),
            named <==> exists|j: int| 0 <= j < i && ps[j] == tag@,
        decreases n - i,
    {
        let piece = &pieces[i];
        assert(ps[i as int] == piece.deep_view());
        assert(piece.deep_view() =~= piece@);
        if chars_equal(piece.as_slice(), tag.as_slice()) {
            named = true;
        }
        i = i + 1;
    }
    proof {
        if named {
            let j = choose|j: int| 0 <= j < n && ps[j] == tag@;
            assert(rev[n - 1 - j] == ps[j]);
            assert(rev.contains(rel_param(which@)));
        }
        if rev.contains(rel_param(which@)) {
            let k = choose|k: int| 0 <= k < rev.len() && rev[k] == rel_param(which@);
            assert(rev[k] == ps[n - 1 - k]);
        }
    }
    if !named {
        return Some(String::new());
    }
    // The first ` rel="next"` piece in reversed order is the last one in
    // header order.
    let mut q: usize = n;
    while q > 0 && !chars_equal(pieces[q - 1].as_slice(), next_tag.as_slice())
        invariant
            q <= n,
            n == ps.len(),
            pieces.deep_view() == ps,
            next_tag@ == rel_param(next_rel()),
            forall|j: int| q <= j < n ==> ps[j] != next_tag@,
        decreases q,
    {
        assert(ps[q - 1] == pieces[q - 1].deep_view());
        assert(pieces[q - 1].deep_view() =~= pieces[q - 1]@);
        q = q - 1;
    }
    if q == 0 {
        proof {
            assert forall|p: int| !is_first_position(rev, rel_param(next_rel()), p) by {
                if 0 <= p < rev.len() {
                    assert(rev[p] == ps[n - 1 - p]);
                }
            }
        }
        return None;
    }
    let found = q - 1;
    proof {
        assert(ps[found as int] == pieces[found as int].deep_view());
        assert(pieces[found as int].deep_view() =~= pieces[found as int]@);
        let p = n - 1 - found;
        assert(rev[p] == ps[found as int]);
        assert forall|j: int| 0 <= j < p implies rev[j] != rel_param(next_rel()) by {
            assert(rev[j] == ps[n - 1 - j]);
        }
        assert(is_first_position(rev, rel_param(next_rel()), p));
        let c = choose|c: int| is_first_position(rev, rel_param(next_rel()), c);
        assert(c == p);
    }
    if found == 0 {
        return None;
    }
    let target = &pieces[found - 1];
    proof {
        let p = n - 1 - found;
        assert(rev[p + 1] == ps[found - 1]);
        assert(ps[found - 1] == target.deep_view());
        assert(target.deep_view() =~= target@);
    }
    let lt = ['<', ' '];
    let gt = ['>', ' '];
    assert(lt@ =~= seq!['<', ' ']);
    assert(gt@ =~= seq!['>', ' ']);
    let trimmed = trim_both(target.as_slice(), lt.as_slice(), gt.as_slice());
    Some(string_from_chars(trimmed.as_slice()))
}

/// A header naming one next page, `<address>; rel="next"`, gives that
/// address back when asked for the next page, whenever the address holds
/// no `,` or `;`, and neither starts with `<` or a space nor ends with `>`
/// or a space.
pub proof fn lemma_next_link_read_back(u: Seq<char>)
    requires
        forall|i: int| 0 <= i < u.len() ==> u[i] != ',' && u[i] != ';',
        u.len() > 0 ==> u[0] != '<' && u[0] != ' ' && u.last() != '>' && u.last() != ' ',
    ensures
        link_lookup(seq!['<'] + u + seq!['>', ';'] + rel_param(next_rel()), next_rel()) == Some(u),
{
    let p = |c: char| is_separator(Separator::LinkDelimiter, c);
    let a = seq!['<'] + u + seq!['>'];
    let b = rel_param(next_rel());
    let s = seq!['<'] + u + seq!['>', ';'] + b;
    assert(s =~= a.push(';') + b);
    assert forall|i: int| 0 <= i < a.len() implies !p(a[i]) by {
        if 1 <= i < a.len() - 1 {
            assert(a[i] == u[i - 1]);
        }
    }
    assert forall|i: int| 0 <= i < b.len() implies !p(b[i]) by {
        assert(b =~= seq![' ', 'r', 'e', 'l', '=', '"', 'n', 'e', 'x', 't', '"']);
    }
    lemma_split_without_separators(a, p);
    assert(a.push(';').drop_last() =~= a);
    assert(split_where(a.push(';'), p) =~= seq![a, Seq::<char>::empty()]);
    lemma_split_extend_last(a.push(';'), b, p);
    assert(Seq::<char>::empty() + b =~= b);
    assert(split_where(s, p) =~= seq![a, b]);
    let pieces = link_pieces(s);
    assert(pieces =~= seq![b, a]);
    assert(pieces.contains(b)) by {
        assert(pieces[0] == b);
    }
    assert(is_first_position(pieces, b, 0));
    let q = choose|q: int| is_first_position(pieces, b, q);
    assert(q == 0);
    let lt = seq!['<', ' '];
    let gt = seq!['>', ' '];
    assert(a.drop_first() =~= u + seq!['>']);
    assert(lt.contains(a[0])) by {
        assert(lt[0] == '<');
    }
    let v = u + seq!['>'];
    assert(!lt.contains(v[0])) by {
        if u.len() > 0 {
            assert(v[0] == u[0]);
        }
    }
    assert(trim_start(v, lt) == v);
    assert(trim_start(a, lt) == v);
    assert(gt.contains(v.last())) by {
        assert(gt[0] == '>');
    }
    assert(v.drop_last() =~= u);
    assert(trim_end(u, gt) == u) by {
        if u.len() > 0 {
            assert(!gt.contains(u.last()));
        }
    }
    assert(trim_end(v, gt) == u);
}

/// The piece `<u>` of a link, after spaces, trims to the address `u`.
proof fn lemma_link_piece_trims(sp: Seq<char>, u: Seq<char>)
    requires
        forall|i: int| 0 <= i < sp.len() ==> sp[i] == ' ',
        u.len() > 0 ==> u[0] != '<' && u[0] != ' ' && u.last() != '>' && u.last() != ' ',
    ensures
        trim_end(trim_start(sp + seq!['<'] + u + seq!['>'], seq!['<', ' ']), seq!['>', ' '])
            == u,
{
    let a = sp + seq!['<'] + u + seq!['>'];
    let lt = seq!['<', ' '];
    let gt = seq!['>', ' '];
    assert forall|j: int| 0 <= j < sp.len() + 1 implies lt.contains(a[j]) by {
        if j < sp.len() {
            assert(a[j] == sp[j]);
            assert(lt[1] == ' ');
        } else {
            assert(lt[0] == '<');
        }
    }
    lemma_trim_start_skip(a, lt, sp.len() + 1int);
    let v = u + seq!['>'];
    assert(a.skip(sp.len() + 1int) =~= v);
    assert(!lt.contains(v[0])) by {
        if u.len() > 0 {
            assert(v[0] == u[0]);
        }
    }
    assert(trim_start(v, lt) == v);
    assert forall|j: int| u.len() <= j < v.len() implies gt.contains(v[j]) by {
        assert(gt[0] == '>');
    }
    lemma_trim_end_take(v, gt, u.len() as int);
    assert(v.take(u.len() as int) =~= u);
    assert(trim_end(u, gt) == u) by {
        if u.len() > 0 {
            assert(!gt.contains(u.last()));
        }
    }
}

/// The pieces of ` rel="next"` followed by links that never write
/// ` rel="next"`: that parameter, then pieces none of which is it.
proof fn lemma_pieces_after_rel_next(post: Seq<char>) -> (w: Seq<Seq<char>>)
    requires
        post.len() == 0 || post[0] == ',',
        !contains_str(post, rel_param(next_rel())),
    ensures
        split_where(
            rel_param(next_rel()) + post,
            |c: char| is_separator(Separator::LinkDelimiter, c),
        ) == seq![rel_param(next_rel())] + w,
        forall|k: int| 0 <= k < w.len() ==> #[trigger] w[k] != rel_param(next_rel()),
{
    let p = |c: char| is_separator(Separator::LinkDelimiter, c);
    let r = rel_param(next_rel());
    assert(r =~= seq![' ', 'r', 'e', 'l', '=', '"', 'n', 'e', 'x', 't', '"']);
    assert forall|i: int| 0 <= i < r.len() implies !p(r[i]) by {}
    lemma_split_without_separators(r, p);
    let rp = r + post;
    if post.len() == 0 {
        assert(rp =~= r);
        Seq::<Seq<char>>::empty()
    } else {
        let post1 = post.drop_first();
        let w = split_where(post1, p);
        assert(rp =~= r + seq![','] + post1);
        lemma_split_at_separator(r, ',', post1, p);
        lemma_split_pieces_occur(post1, p);
        assert forall|k: int| 0 <= k < w.len() implies #[trigger] w[k] != r by {
            assert(contains_str(post1, w[k]));
            let i = choose|i: int| occurs_at(post1, w[k], i);
            assert(post.subrange(i + 1, i + 1 + w[k].len()) =~= post1.subrange(
                i,
                i + w[k].len(),
            ));
            assert(occurs_at(post, w[k], i + 1));
        }
        w
    }
}

/// In a header where the address `u` is written just before the only
/// ` rel="next"` parameter, whatever links come before it and whatever
/// links without ` rel="next"` come after, asking for the next page gives
/// `u`. The link starts the header or follows a `,` and spaces, and the
/// address holds no `,` or `;`, and neither starts with `<` or a space nor
/// ends with `>` or a space.
pub proof fn lemma_next_link_is_the_one_before_rel_next(
    pre: Seq<char>,
    sp: Seq<char>,
    u: Seq<char>,
    post: Seq<char>,
)
    requires
        pre.len() == 0 || pre.last() == ',',
        forall|i: int| 0 <= i < sp.len() ==> sp[i] == ' ',
        forall|i: int| 0 <= i < u.len() ==> u[i] != ',' && u[i] != ';',
        u.len() > 0 ==> u[0] != '<' && u[0] != ' ' && u.last() != '>' && u.last() != ' ',
        post.len() == 0 || post[0] == ',',
        !contains_str(post, rel_param(next_rel())),
    ensures
        link_lookup(
            pre + sp + seq!['<'] + u + seq!['>', ';'] + rel_param(next_rel()) + post,
            next_rel(),
        ) == Some(u),
{
    let p = |c: char| is_separator(Separator::LinkDelimiter, c);
    let r = rel_param(next_rel());
    let a = sp + seq!['<'] + u + seq!['>'];
    let h = pre + sp + seq!['<'] + u + seq!['>', ';'] + r + post;
    assert forall|i: int| 0 <= i < a.len() implies !p(a[i]) by {
        if i < sp.len() {
            assert(a[i] == sp[i]);
        } else if sp.len() + 1 <= i < sp.len() + 1 + u.len() {
            assert(a[i] == u[i - sp.len() - 1]);
        }
    }
    lemma_split_without_separators(a, p);
    let w = lemma_pieces_after_rel_next(post);
    let rp = r + post;
    let t = a + seq![';'] + rp;
    lemma_split_at_separator(a, ';', rp, p);
    assert(split_where(t, p) =~= seq![a, r] + w);
    let q = if pre.len() == 0 {
        Seq::<Seq<char>>::empty()
    } else {
        split_where(pre.drop_last(), p)
    };
    if pre.len() == 0 {
        assert(h =~= t);
    } else {
        assert(h =~= pre.drop_last() + seq![','] + t);
        lemma_split_at_separator(pre.drop_last(), ',', t, p);
    }
    let ps = split_where(h, p);
    assert(ps =~= q + seq![a, r] + w);
    let pieces = link_pieces(h);
    let k = w.len() as int;
    assert(pieces[k] == r);
    assert(pieces[k + 1] == a);
    assert forall|j: int| 0 <= j < k implies #[trigger] pieces[j] != r by {
        assert(pieces[j] == w[k - 1 - j]);
    }
    assert(pieces.contains(rel_param(next_rel())));
    assert(is_first_position(pieces, r, k));
    let c = choose|c: int| is_first_position(pieces, r, c);
    assert(c == k) by {
        if c < k {
            assert(pieces[c] != r);
        } else if c > k {
            assert(pieces[k] != r);
        }
    }
    lemma_link_piece_trims(sp, u);
}

/// The address a `Link` header gives for relation `which` (see
/// `link_lookup`).
pub fn get_link(links: &str, which: &str) -> (r: String)
    requires
        link_lookup(links@, which@).is_some(),
    ensures
        link_lookup(links@, which@) == Some(r@),
{
    match find_link(links, which) {
        Some(s) => s,
        None => String::new(),
    }
}

} // verus!

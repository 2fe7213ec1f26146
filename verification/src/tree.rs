//! Git trees: which entries are source files the service maps, judged by
//! their type and by the extension of their path.

use vstd::prelude::*;
use crate::model::{Blob, BlobView, BlobKind, Tree};
use crate::text::{
    chars_of, contains_chars, contains_str, split_chars, split_where, is_separator, Separator,
};

verus! {

/// A path segment that names something: neither empty nor `.`.
pub open spec fn is_named_segment(seg: Seq<char>) -> bool {
    seg.len() > 0 && seg != seq!['.']
}

/// The segments of a `/`-separated path that name something.
pub open spec fn named_segments(path: Seq<char>) -> Seq<Seq<char>> {
    split_where(path, |c: char| is_separator(Separator::Slash, c)).filter(
        |seg: Seq<char>| is_named_segment(seg),
    )
}

/// The final component of a path, as std's `Path::file_name` gives it on
/// Unix: the last segment that is neither empty nor `.`, unless that
/// segment is `..` or there is none.
pub open spec fn path_file_name(path: Seq<char>) -> Option<Seq<char>> {
    let segs = named_segments(path);
    if segs.len() == 0 || segs.last() == seq!['.', '.'] {
        None
    } else {
        Some(segs.last())
    }
}

/// `k` is the position of the last `.` in `name`.
pub open spec fn is_last_dot(name: Seq<char>, k: int) -> bool {
    0 <= k < name.len() && name[k] == '.' && forall|j: int| k < j < name.len() ==> name[j] != '.'
}

/// The extension of a file name, as std's `Path::extension` gives it:
/// what follows the last `.`, unless there is no `.` or the only one
/// opens the name.
pub open spec fn file_extension(name: Seq<char>) -> Option<Seq<char>> {
    if exists|k: int| is_last_dot(name, k) {
        let k = choose|k: int| is_last_dot(name, k);
        if k == 0 {
            None
        } else {
            Some(name.skip(k + 1))
        }
    } else {
        None
    }
}

/// The extension of a path's file name.
pub open spec fn path_extension(path: Seq<char>) -> Option<Seq<char>> {
    match path_file_name(path) {
        Some(name) => file_extension(name),
        None => None,
    }
}

/// The kind a name parses to: `js` and `ts` name JavaScript, `Unknown`
/// names the unknown kind, nothing else parses.
pub open spec fn parse_blob_kind(s: Seq<char>) -> Option<BlobKind> {
    if s == seq!['j', 's'] || s == seq!['t', 's'] {
        Some(BlobKind::JavaScript)
    } else if s == seq!['U', 'n', 'k', 'n', 'o', 'w', 'n'] {
        Some(BlobKind::Unknown)
    } else {
        None
    }
}

/// The kind of a path: that of its extension, unknown where there is none
/// or it does not parse.
pub open spec fn path_kind(path: Seq<char>) -> BlobKind {
    let ext = match path_extension(path) {
        Some(e) => e,
        None => Seq::<char>::empty(),
    };
    match parse_blob_kind(ext) {
        Some(k) => k,
        None => BlobKind::Unknown,
    }
}

/// A tree entry the service maps: a blob whose path has a known kind.
pub open spec fn is_source_blob(b: BlobView) -> bool {
    contains_str(b.kind, seq!['b', 'l', 'o', 'b']) && path_kind(b.path) != BlobKind::Unknown
}

/// A kind name parses to JavaScript exactly when it is `js` or `ts`, and to
/// the unknown kind exactly when it is `Unknown`.
pub proof fn lemma_kind_names(s: Seq<char>)
    ensures
        parse_blob_kind(s) == Some(BlobKind::JavaScript) <==> (s == seq!['j', 's'] || s
            == seq!['t', 's']),
        parse_blob_kind(s) == Some(BlobKind::Unknown) <==> s == seq![
            'U',
            'n',
            'k',
            'n',
            'o',
            'w',
            'n',
        ],
{
}

/// A blob is a source blob exactly when its kind names a blob and its
/// path's extension is `js` or `ts`: every other file (`package.json`,
/// `README.md`, a file without extension) is left out.
pub proof fn lemma_source_blobs_are_js_or_ts(b: BlobView)
    ensures
        is_source_blob(b) <==> contains_str(b.kind, seq!['b', 'l', 'o', 'b']) && (path_extension(
            b.path,
        ) == Some(seq!['j', 's']) || path_extension(b.path) == Some(seq!['t', 's'])),
{
    let ext = match path_extension(b.path) {
        Some(e) => e,
        None => Seq::<char>::empty(),
    };
    lemma_kind_names(ext);
    if path_extension(b.path) is None {
        assert(ext.len() == 0);
        assert(ext != seq!['j', 's']);
        assert(ext != seq!['t', 's']);
    }
}

fn chars_are(cs: &[char], lit: &[char]) -> (r: bool)
    ensures
        r == (cs@ == lit@),
{
    crate::text::chars_equal(cs, lit)
}

impl BlobKind {
    /// Parses a kind name (`js`, `ts` or `Unknown`).
    pub fn parse(s: &str) -> (r: Option<BlobKind>)
        ensures
            r == parse_blob_kind(s@),
    {
        let cs = chars_of(s);
        Self::parse_chars(cs.as_slice())
    }

    fn parse_chars(cs: &[char]) -> (r: Option<BlobKind>)
        ensures
            r == parse_blob_kind(cs@),
    {
        let js = ['j', 's'];
        let ts = ['t', 's'];
        let unknown = ['U', 'n', 'k', 'n', 'o', 'w', 'n'];
        assert(js@ =~= seq!['j', 's']);
        assert(ts@ =~= seq!['t', 's']);
        assert(unknown@ =~= seq!['U', 'n', 'k', 'n', 'o', 'w', 'n']);
        if chars_are(cs, js.as_slice()) || chars_are(cs, ts.as_slice()) {
            Some(BlobKind::JavaScript)
        } else if chars_are(cs, unknown.as_slice()) {
            Some(BlobKind::Unknown)
        } else {
            None
        }
    }

    /// The name the kind is displayed under.
    pub fn display_name(&self) -> (r: String)
        ensures
            *self == BlobKind::JavaScript ==> r@ == "JavaScript"@,
            *self == BlobKind::Unknown ==> r@ == "Unknown"@,
    {
        match self {
            BlobKind::JavaScript => String::from_str("JavaScript"),
            BlobKind::Unknown => String::from_str("Unknown"),
        }
    }
}

impl Default for BlobKind {
    fn default() -> (r: Self)
        ensures
            r == BlobKind::Unknown,
    {
        BlobKind::Unknown
    }
}

/// The last named segment of a path, if any (before the `..` check).
fn last_named_segment(segs: &Vec<Vec<char>>) -> (r: Option<usize>)
    ensures
        match r {
            Some(k) => {
                &&& k < segs@.len()
                &&& segs.deep_view().filter(|seg: Seq<char>| is_named_segment(seg)).len() > 0
                &&& segs.deep_view().filter(|seg: Seq<char>| is_named_segment(seg)).last()
                    == segs.deep_view()[k as int]
            },
            None => segs.deep_view().filter(|seg: Seq<char>| is_named_segment(seg)).len() == 0,
        },
{
    let ghost m = |seg: Seq<char>| is_named_segment(seg);
    let ghost dv = segs.deep_view();
    let mut found: Option<usize> = None;
    let mut i: usize = 0;
    while i < segs.len()
        invariant
            i <= segs@.len(),
            dv == segs.deep_view(),
            m == (|seg: Seq<char>| is_named_segment(seg)),
            match found {
                Some(k) => {
                    &&& k < i
                    &&& dv.take(i as int).filter(m).len() > 0
                    &&& dv.take(i as int).filter(m).last() == dv[k as int]
                },
                None => dv.take(i as int).filter(m).len() == 0,
            },
        decreases segs@.len() - i,
    {
        let seg = &segs[i];
        proof {
            reveal_with_fuel(Seq::filter, 1);
            assert(dv.take(i + 1).drop_last() =~= dv.take(i as int));
            assert(dv[i as int] == seg.deep_view());
            assert(seg.deep_view() =~= seg@);
        }
        let dot = ['.'];
        assert(dot@ =~= seq!['.']);
        if seg.len() > 0 && !chars_are(seg.as_slice(), dot.as_slice()) {
            found = Some(i);
        }
        i = i + 1;
    }
    assert(dv.take(segs@.len() as int) =~= dv);
    found
}

/// The final component of `path` (std's `Path::file_name`, Unix rules).
pub fn file_name_of(path: &[char]) -> (r: Option<Vec<char>>)
    ensures
        r.deep_view() == path_file_name(path@),
{
    let segs = split_chars(path, Separator::Slash);
    match last_named_segment(&segs) {
        None => None,
        Some(k) => {
            let seg = &segs[k];
            proof {
                assert(seg.deep_view() =~= seg@);
            }
            let dotdot = ['.', '.'];
            assert(dotdot@ =~= seq!['.', '.']);
            if chars_are(seg.as_slice(), dotdot.as_slice()) {
                None
            } else {
                let mut out: Vec<char> = Vec::new();
                let mut i: usize = 0;
                while i < seg.len()
                    invariant
                        i <= seg@.len(),
                        out@ == seg@.take(i as int),
                    decreases seg@.len() - i,
                {
                    out.push(seg[i]);
                    i = i + 1;
                    assert(out@ =~= seg@.take(i as int));
                }
                assert(seg@.take(seg@.len() as int) =~= seg@);
                assert(out.deep_view() =~= out@);
                Some(out)
            }
        },
    }
}

/// The extension of a file name (std's `Path::extension` rule).
pub fn extension_of(name: &[char]) -> (r: Option<Vec<char>>)
    ensures
        r.deep_view() == file_extension(name@),
{
    let mut k: usize = name.len();
    while k > 0 && name[k - 1] != '.'
        invariant
            k <= name@.len(),
            forall|j: int| k <= j < name@.len() ==> name@[j] != '.',
        decreases k,
    {
        k = k - 1;
    }
    if k == 0 {
        assert(!exists|d: int| is_last_dot(name@, d));
        return None;
    }
    let d = k - 1;
    assert(is_last_dot(name@, d as int));
    proof {
        let c = choose|c: int| is_last_dot(name@, c);
        assert(c == d as int);
    }
    if d == 0 {
        return None;
    }
    let mut out: Vec<char> = Vec::new();
    let mut i: usize = k;
    while i < name.len()
        invariant
            k <= i <= name@.len(),
            out@ == name@.subrange(k as int, i as int),
        decreases name@.len() - i,
    {
        out.push(name[i]);
        i = i + 1;
        assert(out@ =~= name@.subrange(k as int, i as int));
    }
    assert(out@ =~= name@.skip(k as int));
    assert(out.deep_view() =~= out@);
    Some(out)
}

/// Whether a tree entry is a source file the service maps.
pub fn blob_is_source(b: &Blob) -> (r: bool)
    ensures
        r == is_source_blob(b@),
{
    let kind = chars_of(b.kind.as_str());
    let blob = ['b', 'l', 'o', 'b'];
    assert(blob@ =~= seq!['b', 'l', 'o', 'b']);
    if !contains_chars(kind.as_slice(), blob.as_slice()) {
        return false;
    }
    let path = chars_of(b.path.as_str());
    let ghost e = match path_extension(b.path@) {
        Some(e) => e,
        None => Seq::<char>::empty(),
    };
    let fname = file_name_of(path.as_slice());
    let ext: Vec<char> = match fname {
        Some(name) => {
            assert(name.deep_view() =~= name@);
            let x = extension_of(name.as_slice());
            match x {
                Some(v) => {
                    assert(v.deep_view() =~= v@);
                    v
                },
                None => Vec::new(),
            }
        },
        None => Vec::new(),
    };
    assert(ext@ =~= e);
    let kind = BlobKind::parse_chars(ext.as_slice());
    match kind {
        Some(BlobKind::JavaScript) => true,
        _ => false,
    }
}

/// The source files of a tree, in their order.
pub fn source_blobs(tree: &Tree) -> (r: Tree)
    ensures
        r.tree.deep_view() == tree.tree.deep_view().filter(|b: BlobView| is_source_blob(b)),
{
    let ghost p = |b: BlobView| is_source_blob(b);
    let ghost dv = tree.tree.deep_view();
    let mut kept: Vec<Blob> = Vec::new();
    let mut i: usize = 0;
    while i < tree.tree.len()
        invariant
            i <= tree.tree@.len(),
            dv == tree.tree.deep_view(),
            p == (|b: BlobView| is_source_blob(b)),
            kept.deep_view() == dv.take(i as int).filter(p),
        decreases tree.tree@.len() - i,
    {
        let b = &tree.tree[i];
        let keep = blob_is_source(b);
        let ghost before = kept.deep_view();
        let ghost before_v = kept@;
        let ghost bv = b@;
        if keep {
            let c = b.clone();
            kept.push(c);
            proof {
                assert forall|j: int| 0 <= j < kept@.len() implies #[trigger] kept.deep_view()[j]
                    == before.push(bv)[j] by {
                    if j < before_v.len() {
                        assert(kept@[j] == before_v[j]);
                    }
                }
                assert(kept.deep_view() =~= before.push(bv));
            }
        }
        proof {
            reveal_with_fuel(Seq::filter, 1);
            assert(dv.take(i + 1).drop_last() =~= dv.take(i as int));
            assert(dv.take(i + 1).last() == bv);
        }
        i = i + 1;
    }
    assert(dv.take(tree.tree@.len() as int) =~= dv);
    Tree { tree: kept }
}

} // verus!

//! The per-user state: search results and their paging, the dashboard's
//! repositories, and a buffer of at most four repositories being mapped,
//! each holding one of the four slot numbers 0 to 3.

use vstd::prelude::*;
use std::collections::VecDeque;
use crate::clock::unix_now;
use crate::error::Error;
use crate::model::{
    Blob, BlobView, Link, LinkView, Node, NodeView, Repo, RepoTree, RepoView, ScanStat,
    ScanStatView, Tree, clone_links, clone_repos,
};
use crate::text::{contains_str, occurs_at};
use crate::tree::{is_source_blob, source_blobs};
use crate::views::{lemma_deque_drop_first_deep, lemma_deque_push_deep, lemma_vec_push_deep};

verus! {

/// Everything the service remembers about one user.
#[derive(Debug)]
pub struct Database {
    pub search_repos: Vec<Repo>,
    pub dash_repos: Vec<Repo>,
    pub nodes_items: VecDeque<Node>,
    pub scan_stats: Vec<ScanStat>,
    pub slots: Vec<usize>,
    pub has_repos: bool,
    pub ratelimit_count: usize,
    pub search_link: String,
    pub search_current: usize,
    pub username: String,
}

pub struct DatabaseView {
    pub search_repos: Seq<RepoView>,
    pub dash_repos: Seq<RepoView>,
    pub nodes_items: Seq<NodeView>,
    pub scan_stats: Seq<ScanStatView>,
    pub slots: Seq<usize>,
    pub has_repos: bool,
    pub ratelimit_count: usize,
    pub search_link: Seq<char>,
    pub search_current: usize,
    pub username: Seq<char>,
}

impl View for Database {
    type V = DatabaseView;

    open spec fn view(&self) -> DatabaseView {
        DatabaseView {
            search_repos: self.search_repos.deep_view(),
            dash_repos: self.dash_repos.deep_view(),
            nodes_items: self.nodes_items.deep_view(),
            scan_stats: self.scan_stats.deep_view(),
            slots: self.slots@,
            has_repos: self.has_repos,
            ratelimit_count: self.ratelimit_count,
            search_link: self.search_link@,
            search_current: self.search_current,
            username: self.username@,
        }
    }
}

/// The number of repositories the buffer holds at most.
pub open spec fn buffer_capacity() -> nat {
    4
}

/// The slot numbers of the buffered repositories, in buffer order.
pub open spec fn node_ids(nodes: Seq<NodeView>) -> Seq<usize> {
    nodes.map_values(|n: NodeView| n.id)
}

/// The buffer and the free slots share out the slot numbers 0 to 3: each
/// number is either held by exactly one buffered repository or free, and
/// never both.
pub open spec fn slots_consistent(db: DatabaseView) -> bool {
    let ids = node_ids(db.nodes_items) + db.slots;
    &&& db.nodes_items.len() <= buffer_capacity()
    &&& ids.len() == buffer_capacity()
    &&& ids.no_duplicates()
    &&& forall|i: int| 0 <= i < ids.len() ==> ids[i] < buffer_capacity()
}

/// A buffered repository's name contains `name`.
pub open spec fn in_buffer(db: DatabaseView, name: Seq<char>) -> bool {
    exists|i: int| 0 <= i < db.nodes_items.len() && contains_str(db.nodes_items[i].name, name)
}

/// The state once room is made for a new repository: a full buffer drops
/// its oldest repository, forgets that repository's scan notes and frees
/// its slot; a buffer with room is left as it is.
pub open spec fn after_eviction(db: DatabaseView) -> DatabaseView {
    if db.nodes_items.len() == buffer_capacity() {
        let front = db.nodes_items[0];
        DatabaseView {
            nodes_items: db.nodes_items.drop_first(),
            scan_stats: db.scan_stats.filter(|s: ScanStatView| s.name != front.name),
            slots: db.slots.push(front.id),
            ..db
        }
    } else {
        db
    }
}

/// The note left for a registered tree: how many entries were skipped.
pub open spec fn skipped_note(name: Seq<char>, total: nat, kept: nat) -> ScanStatView {
    ScanStatView { task: "skipped (files)"@, name, value: (total - kept) as usize }
}

/// The state once the tree of repository `name` is registered at time
/// `now`: after eviction, the first free slot goes to a new buffered
/// repository without links, and a note of the skipped entries is added.
pub open spec fn after_registration(
    db: DatabaseView,
    name: Seq<char>,
    tree: Seq<BlobView>,
    now: i64,
) -> DatabaseView {
    let e = after_eviction(db);
    let kept = tree.filter(|b: BlobView| is_source_blob(b));
    DatabaseView {
        nodes_items: e.nodes_items.push(
            NodeView { name, links: None, last_modified: Some(now), id: e.slots[0] },
        ),
        slots: e.slots.drop_first(),
        scan_stats: e.scan_stats.push(skipped_note(name, tree.len(), kept.len())),
        ..e
    }
}

/// Making room in a full buffer forgets every scan note of the repository
/// it evicts, and only those: no note left names it, each note of another
/// repository is kept, and no note is made up.
pub proof fn lemma_eviction_forgets_the_evicted_notes(db: DatabaseView)
    requires
        db.nodes_items.len() == buffer_capacity(),
    ensures
        forall|i: int|
            0 <= i < after_eviction(db).scan_stats.len() ==> (#[trigger] after_eviction(
                db,
            ).scan_stats[i]).name != db.nodes_items[0].name,
        forall|s: ScanStatView|
            db.scan_stats.contains(s) && s.name != db.nodes_items[0].name ==> #[trigger] after_eviction(
                db,
            ).scan_stats.contains(s),
        forall|s: ScanStatView|
            #[trigger] after_eviction(db).scan_stats.contains(s) ==> db.scan_stats.contains(s),
{
    let front = db.nodes_items[0];
    let pred = |s: ScanStatView| s.name != front.name;
    let kept = db.scan_stats.filter(pred);
    assert(after_eviction(db).scan_stats == kept);
    assert forall|i: int| 0 <= i < kept.len() implies (#[trigger] kept[i]).name != front.name by {
        db.scan_stats.lemma_filter_pred(pred, i);
    }
    assert forall|s: ScanStatView| db.scan_stats.contains(s) && s.name != front.name implies #[trigger] kept.contains(s) by {
        let i = choose|i: int| 0 <= i < db.scan_stats.len() && db.scan_stats[i] == s;
        db.scan_stats.lemma_filter_contains(pred, i);
    }
    assert forall|s: ScanStatView| #[trigger] kept.contains(s) implies db.scan_stats.contains(s) by {
        db.scan_stats.lemma_filter_contains_rev(pred, s);
    }
}

/// How making room in a full buffer treats the scan notes, one note at a
/// time: with no notes none are left; a note added last of another
/// repository is still there, last, after the eviction; a note added last
/// of the evicted repository is gone. So the notes kept are those of the
/// other repositories, in the order they were taken.
pub proof fn lemma_eviction_keeps_other_notes_in_order(db: DatabaseView, note: ScanStatView)
    requires
        db.nodes_items.len() == buffer_capacity(),
    ensures
        db.scan_stats.len() == 0 ==> after_eviction(db).scan_stats.len() == 0,
        note.name != db.nodes_items[0].name ==> after_eviction(
            DatabaseView { scan_stats: db.scan_stats.push(note), ..db },
        ).scan_stats == after_eviction(db).scan_stats.push(note),
        note.name == db.nodes_items[0].name ==> after_eviction(
            DatabaseView { scan_stats: db.scan_stats.push(note), ..db },
        ).scan_stats == after_eviction(db).scan_stats,
{
    let front = db.nodes_items[0];
    let pred = |s: ScanStatView| s.name != front.name;
    reveal_with_fuel(Seq::filter, 1);
    assert(db.scan_stats.push(note).drop_last() =~= db.scan_stats);
    if db.scan_stats.len() == 0 {
        assert(db.scan_stats.filter(pred).len() == 0);
    }
}

/// Registering a new repository in a full buffer leaves no scan note of
/// the repository it evicted.
pub proof fn lemma_registration_forgets_the_evicted(
    db: DatabaseView,
    name: Seq<char>,
    tree: Seq<BlobView>,
    now: i64,
)
    requires
        db.nodes_items.len() == buffer_capacity(),
        !in_buffer(db, name),
    ensures
        forall|i: int|
            0 <= i < after_registration(db, name, tree, now).scan_stats.len() ==> (
            #[trigger] after_registration(db, name, tree, now).scan_stats[i]).name
                != db.nodes_items[0].name,
{
    let front = db.nodes_items[0];
    lemma_eviction_forgets_the_evicted_notes(db);
    assert(occurs_at(front.name, front.name, 0)) by {
        assert(front.name.subrange(0, front.name.len() as int) =~= front.name);
    }
    assert(name != front.name);
    let e = after_eviction(db).scan_stats;
    let r = after_registration(db, name, tree, now).scan_stats;
    assert forall|i: int| 0 <= i < r.len() implies (#[trigger] r[i]).name != front.name by {
        if i < e.len() {
            assert(r[i] == e[i]);
        }
    }
}

/// Making room keeps the slot numbers shared out, and leaves the buffer
/// with room and at least one free slot.
pub proof fn lemma_eviction_keeps_slots(db: DatabaseView)
    requires
        slots_consistent(db),
    ensures
        slots_consistent(after_eviction(db)),
        after_eviction(db).nodes_items.len() < buffer_capacity(),
        after_eviction(db).slots.len() > 0,
{
    let ids = node_ids(db.nodes_items) + db.slots;
    assert(node_ids(db.nodes_items).len() == db.nodes_items.len());
    if db.nodes_items.len() == buffer_capacity() {
        let e = after_eviction(db);
        let front = db.nodes_items[0];
        let new_ids = node_ids(e.nodes_items) + e.slots;
        assert(db.slots.len() == 0);
        assert(ids[0] == front.id);
        assert(new_ids =~= ids.drop_first().push(ids[0]));
        assert forall|i: int, j: int|
            0 <= i < new_ids.len() && 0 <= j < new_ids.len() && i != j implies new_ids[i]
            != new_ids[j] by {
            let oi = if i == new_ids.len() - 1 {
                0
            } else {
                i + 1
            };
            let oj = if j == new_ids.len() - 1 {
                0
            } else {
                j + 1
            };
            assert(new_ids[i] == ids[oi]);
            assert(new_ids[j] == ids[oj]);
        }
        assert forall|i: int| 0 <= i < new_ids.len() implies new_ids[i] < buffer_capacity() by {
            if i == new_ids.len() - 1 {
                assert(new_ids[i] == ids[0]);
            } else {
                assert(new_ids[i] == ids[i + 1]);
            }
        }
        assert(node_ids(e.nodes_items).len() == e.nodes_items.len());
    }
}

/// Registering a repository that is not yet buffered, in a state whose
/// slot numbers are shared out, always finds a free slot, hands out a slot
/// no buffered repository holds, and keeps the slot numbers shared out:
/// at most four repositories are ever buffered and no two share a slot.
pub proof fn lemma_registration_keeps_slots(
    db: DatabaseView,
    name: Seq<char>,
    tree: Seq<BlobView>,
    now: i64,
)
    requires
        slots_consistent(db),
    ensures
        after_eviction(db).slots.len() > 0,
        slots_consistent(after_registration(db, name, tree, now)),
        forall|i: int|
            0 <= i < after_eviction(db).nodes_items.len() ==> after_eviction(db).nodes_items[i].id
                != after_eviction(db).slots[0],
{
    lemma_eviction_keeps_slots(db);
    let e = after_eviction(db);
    let r = after_registration(db, name, tree, now);
    let ids = node_ids(e.nodes_items) + e.slots;
    let new_ids = node_ids(r.nodes_items) + r.slots;
    assert(node_ids(e.nodes_items).len() == e.nodes_items.len());
    assert(node_ids(r.nodes_items).len() == r.nodes_items.len());
    assert(new_ids =~= ids);
    assert forall|i: int| 0 <= i < e.nodes_items.len() implies e.nodes_items[i].id != e.slots[0] by {
        assert(ids[i] == e.nodes_items[i].id);
        assert(ids[e.nodes_items.len() as int] == e.slots[0]);
    }
}

/// The scan notes whose repository is not `name`.
fn stats_without(stats: &Vec<ScanStat>, name: &String) -> (r: Vec<ScanStat>)
    ensures
        r.deep_view() == stats.deep_view().filter(|s: ScanStatView| s.name != name@),
{
    let ghost p = |s: ScanStatView| s.name != name@;
    let ghost dv = stats.deep_view();
    let mut kept: Vec<ScanStat> = Vec::new();
    let mut i: usize = 0;
    while i < stats.len()
        invariant
            i <= stats@.len(),
            dv == stats.deep_view(),
            p == (|s: ScanStatView| s.name != name@),
            kept.deep_view() == dv.take(i as int).filter(p),
        decreases stats@.len() - i,
    {
        let s = &stats[i];
        let ghost before = kept;
        if !(s.name == *name) {
            let c = s.clone();
            kept.push(c);
            proof {
                lemma_vec_push_deep(before, kept, c);
            }
        }
        proof {
            reveal_with_fuel(Seq::filter, 1);
            assert(dv.take(i + 1).drop_last() =~= dv.take(i as int));
            assert(dv.take(i + 1).last() == s@);
        }
        i = i + 1;
    }
    assert(dv.take(stats@.len() as int) =~= dv);
    kept
}

impl Database {
    /// The state of a new user: nothing searched or buffered, the four
    /// slots free, repositories still to be fetched.
    pub fn new() -> (r: Database)
        ensures
            r@.search_repos.len() == 0,
            r@.dash_repos.len() == 0,
            r@.nodes_items.len() == 0,
            r@.scan_stats.len() == 0,
            r@.slots == seq![0usize, 1, 2, 3],
            r@.has_repos,
            r@.ratelimit_count == 0,
            r@.search_link.len() == 0,
            r@.search_current == 0,
            r@.username.len() == 0,
            slots_consistent(r@),
    {
        let r = Database {
            username: String::new(),
            search_link: String::new(),
            dash_repos: Vec::new(),
            search_repos: Vec::new(),
            scan_stats: Vec::new(),
            has_repos: true,
            ratelimit_count: 0,
            search_current: 0,
            nodes_items: VecDeque::new(),
            slots: vec![0, 1, 2, 3],
        };
        proof {
            let ids = node_ids(r@.nodes_items) + r@.slots;
            assert(r@.slots =~= seq![0usize, 1, 2, 3]);
            assert(ids =~= seq![0usize, 1, 2, 3]);
        }
        r
    }

    /// Whether a buffered repository's name contains `name`.
    pub fn buffers(&self, name: &String) -> (r: bool)
        ensures
            r == in_buffer(self@, name@),
    {
        let mut i: usize = 0;
        while i < self.nodes_items.len()
            invariant
                i <= self.nodes_items@.len(),
                forall|j: int| 0 <= j < i ==> !contains_str(self@.nodes_items[j].name, name@),
            decreases self.nodes_items@.len() - i,
        {
            if self.nodes_items[i].contains(name) {
                assert(self@.nodes_items[i as int] == self.nodes_items@[i as int]@);
                return true;
            }
            i = i + 1;
        }
        false
    }

    /// Registers the fetched tree of repository `full_name` at time `now`.
    /// A repository already buffered is refused with `BadRequest` and
    /// nothing changes. Otherwise room is made, and when no slot is free
    /// after that, `None` comes back with only the eviction done; else the
    /// repository takes the first free slot and its source files come back
    /// with that slot.
    pub fn register_tree_at(&mut self, full_name: String, tree: Tree, now: i64) -> (r: Option<
        Result<RepoTree, Error>,
    >)
        ensures
            in_buffer(old(self)@, full_name@) ==> r == Some(
                Err::<RepoTree, Error>(Error::BadRequest),
            ) && final(self)@ == old(self)@,
            !in_buffer(old(self)@, full_name@) && after_eviction(old(self)@).slots.len() == 0
                ==> r.is_none() && final(self)@ == after_eviction(old(self)@),
            !in_buffer(old(self)@, full_name@) && after_eviction(old(self)@).slots.len() > 0
                ==> match r {
                Some(Ok(t)) => {
                    &&& t.id == after_eviction(old(self)@).slots[0]
                    &&& t.tree.tree.deep_view() == tree.tree.deep_view().filter(
                        |b: BlobView| is_source_blob(b),
                    )
                    &&& final(self)@ == after_registration(
                        old(self)@,
                        full_name@,
                        tree.tree.deep_view(),
                        now,
                    )
                },
                _ => false,
            },
    {
        if self.buffers(&full_name) {
            return Some(Err(Error::BadRequest));
        }
        let ghost start = self@;
        if self.nodes_items.len() == 4 {
            let ghost q0 = self.nodes_items;
            let front = self.nodes_items.pop_front().unwrap();
            proof {
                lemma_deque_drop_first_deep(q0, self.nodes_items);
                assert(front@ == start.nodes_items[0]);
            }
            let kept = stats_without(&self.scan_stats, &front.name);
            self.scan_stats = kept;
            self.slots.push(front.id);
            assert(self@ == after_eviction(start));
        }
        assert(self@ == after_eviction(start));
        if self.slots.len() == 0 {
            return None;
        }
        let ghost evicted = self@;
        let id = self.slots.remove(0);
        assert(self.slots@ =~= evicted.slots.drop_first());
        let node = Node { name: full_name.clone(), links: None, last_modified: Some(now), id };
        let ghost q1 = self.nodes_items;
        self.nodes_items.push_back(node);
        proof {
            lemma_deque_push_deep(q1, self.nodes_items, node);
        }
        let total = tree.tree.len();
        let kept = source_blobs(&tree);
        proof {
            tree.tree.deep_view().lemma_filter_len(|b: BlobView| is_source_blob(b));
        }
        let value = total - kept.tree.len();
        let note = ScanStat { task: String::from_str("skipped (files)"), name: full_name, value };
        let ghost v1 = self.scan_stats;
        self.scan_stats.push(note);
        proof {
            lemma_vec_push_deep(v1, self.scan_stats, note);
        }
        assert(self@ == after_registration(start, note.name@, tree.tree.deep_view(), now));
        Some(Ok(RepoTree { tree: kept, id }))
    }

    /// Registers the fetched tree of repository `full_name` now: as
    /// `register_tree_at`, at the time the clock reads.
    pub fn register_tree(&mut self, full_name: String, tree: Tree) -> (r: Option<
        Result<RepoTree, Error>,
    >)
        ensures
            in_buffer(old(self)@, full_name@) ==> r == Some(
                Err::<RepoTree, Error>(Error::BadRequest),
            ) && final(self)@ == old(self)@,
            !in_buffer(old(self)@, full_name@) && after_eviction(old(self)@).slots.len() == 0
                ==> r.is_none() && final(self)@ == after_eviction(old(self)@),
            !in_buffer(old(self)@, full_name@) && after_eviction(old(self)@).slots.len() > 0
                ==> match r {
                Some(Ok(t)) => {
                    &&& t.id == after_eviction(old(self)@).slots[0]
                    &&& t.tree.tree.deep_view() == tree.tree.deep_view().filter(
                        |b: BlobView| is_source_blob(b),
                    )
                    &&& exists|now: i64|
                        final(self)@ == after_registration(
                            old(self)@,
                            full_name@,
                            tree.tree.deep_view(),
                            now,
                        )
                },
                _ => false,
            },
    {
        let now = unix_now();
        self.register_tree_at(full_name, tree, now)
    }
}

} // verus!

verus! {

fn clone_nodes(v: &VecDeque<Node>) -> (r: VecDeque<Node>)
    ensures
        r.deep_view() == v.deep_view(),
{
    let mut r: VecDeque<Node> = VecDeque::new();
    let mut i: usize = 0;
    while i < v.len()
        invariant
            i <= v@.len(),
            r@.len() == i,
            r.deep_view() == v.deep_view().take(i as int),
        decreases v@.len() - i,
    {
        let ghost before = r;
        let c = v[i].clone();
        r.push_back(c);
        proof {
            lemma_deque_push_deep(before, r, c);
            assert(r.deep_view() =~= v.deep_view().take(i + 1));
        }
        i = i + 1;
    }
    assert(v.deep_view().take(v@.len() as int) =~= v.deep_view());
    r
}

fn clone_stats(v: &Vec<ScanStat>) -> (r: Vec<ScanStat>)
    ensures
        r.deep_view() == v.deep_view(),
{
    let mut r: Vec<ScanStat> = Vec::new();
    let mut i: usize = 0;
    while i < v.len()
        invariant
            i <= v@.len(),
            r@.len() == i,
            r.deep_view() == v.deep_view().take(i as int),
        decreases v@.len() - i,
    {
        let ghost before = r;
        let c = v[i].clone();
        r.push(c);
        proof {
            lemma_vec_push_deep(before, r, c);
            assert(r.deep_view() =~= v.deep_view().take(i + 1));
        }
        i = i + 1;
    }
    assert(v.deep_view().take(v@.len() as int) =~= v.deep_view());
    r
}

fn clone_slots(v: &Vec<usize>) -> (r: Vec<usize>)
    ensures
        r@ == v@,
{
    let mut r: Vec<usize> = Vec::new();
    let mut i: usize = 0;
    while i < v.len()
        invariant
            i <= v@.len(),
            r@ == v@.take(i as int),
        decreases v@.len() - i,
    {
        r.push(v[i]);
        i = i + 1;
        assert(r@ =~= v@.take(i as int));
    }
    assert(v@.take(v@.len() as int) =~= v@);
    r
}

impl Clone for Database {
    fn clone(&self) -> (r: Self)
        ensures
            r@ == self@,
    {
        Database {
            search_repos: clone_repos(&self.search_repos),
            dash_repos: clone_repos(&self.dash_repos),
            nodes_items: clone_nodes(&self.nodes_items),
            scan_stats: clone_stats(&self.scan_stats),
            slots: clone_slots(&self.slots),
            has_repos: self.has_repos,
            ratelimit_count: self.ratelimit_count,
            search_link: self.search_link.clone(),
            search_current: self.search_current,
            username: self.username.clone(),
        }
    }
}

/// Overwrites `dest` with a stored state, when there is one.
pub fn copy_db(source: &Option<Database>, dest: &mut Database)
    ensures
        match source {
            Some(db) => final(dest)@ == db@,
            None => final(dest)@ == old(dest)@,
        },
{
    if let Some(db) = source {
        dest.username = db.username.clone();
        dest.ratelimit_count = db.ratelimit_count;
        dest.nodes_items = clone_nodes(&db.nodes_items);
        dest.scan_stats = clone_stats(&db.scan_stats);
        dest.slots = clone_slots(&db.slots);
        dest.search_current = db.search_current;
        dest.search_repos = clone_repos(&db.search_repos);
        dest.search_link = db.search_link.clone();
        dest.has_repos = db.has_repos;
        dest.dash_repos = clone_repos(&db.dash_repos);
    }
}

} // verus!

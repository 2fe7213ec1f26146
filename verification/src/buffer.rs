//! The buffer of repositories being mapped: admitting a repository,
//! storing and reading back its import links, and reporting scans.

use vstd::prelude::*;
use std::collections::VecDeque;
use crate::clock::unix_now;
use crate::error::Error;
use crate::model::{
    Link, LinkView, Node, NodeView, Repo, RepoView, Scan, ScanStat, ScanStatView, ScanView,
    clone_links, clone_opt_links,
};
use crate::state::{Database, DatabaseView, in_buffer, slots_consistent, node_ids};
use crate::text::{contains_str, is_ascii_punct, strip_punct, without_punct};
use crate::views::{lemma_deque_push_deep, lemma_vec_push_deep};

verus! {

/// Why a repository is not taken into the buffer.
#[derive(Debug, Clone, Copy, PartialEq, Eq, Structural)]
pub enum RepoRefusal {
    /// Four buffered repositories still wait for their links.
    UnprocessedLimit,
    /// The repository is buffered with its links already.
    AlreadyProcessed,
    /// Its tree is too large to map here.
    TooLarge,
}

impl RepoRefusal {
    /// The message the user is shown.
    pub fn message(&self) -> (r: &'static str)
        ensures
            *self == RepoRefusal::UnprocessedLimit ==> r@
                == "Unprocessed repo limit reached, try again in a few"@,
            *self == RepoRefusal::AlreadyProcessed ==> r@
                == "Repo already processed and exist in buffer"@,
            *self == RepoRefusal::TooLarge ==> r@ == "Too big of a response, try using rtree-cli"@,
    {
        match self {
            RepoRefusal::UnprocessedLimit => "Unprocessed repo limit reached, try again in a few",
            RepoRefusal::AlreadyProcessed => "Repo already processed and exist in buffer",
            RepoRefusal::TooLarge => "Too big of a response, try using rtree-cli",
        }
    }
}

/// The buffered repositories still waiting for their links.
pub open spec fn pending(nodes: Seq<NodeView>) -> Seq<NodeView> {
    nodes.filter(|n: NodeView| n.links.is_none())
}

/// The buffered repositories whose name contains `name` and whose links
/// are there.
pub open spec fn processed_matching(nodes: Seq<NodeView>, name: Seq<char>) -> Seq<NodeView> {
    nodes.filter(|n: NodeView| contains_str(n.name, name) && n.links.is_some())
}

/// Why a request to map repository `name` is refused before its tree is
/// fetched: four repositories waiting, or `name` already mapped.
pub open spec fn repo_refusal(db: DatabaseView, name: Seq<char>) -> Option<RepoRefusal> {
    if pending(db.nodes_items).len() >= 4 {
        Some(RepoRefusal::UnprocessedLimit)
    } else if processed_matching(db.nodes_items, name).len() >= 1 {
        Some(RepoRefusal::AlreadyProcessed)
    } else {
        None
    }
}

/// The largest tree response, in bytes, that is refused.
pub open spec fn tree_size_limit() -> u64 {
    1_500_000
}

/// Whether a tree response of `content_length` bytes is refused: from
/// 1 500 000 bytes on.
pub fn tree_refusal(content_length: u64) -> (r: Option<RepoRefusal>)
    ensures
        r == (if content_length >= tree_size_limit() {
            Some(RepoRefusal::TooLarge)
        } else {
            None
        }),
{
    if content_length >= 1_500_000 {
        Some(RepoRefusal::TooLarge)
    } else {
        None
    }
}

/// `i` is the first position of `all` holding a repository named `name`.
pub open spec fn is_first_repo_named(all: Seq<RepoView>, name: Seq<char>, i: int) -> bool {
    0 <= i < all.len() && all[i].full_name == name && forall|j: int|
        0 <= j < i ==> all[j].full_name != name
}

/// `i` is the first position of `nodes` whose name contains `name`.
pub open spec fn is_first_node_matching(nodes: Seq<NodeView>, name: Seq<char>, i: int) -> bool {
    0 <= i < nodes.len() && contains_str(nodes[i].name, name) && forall|j: int|
        0 <= j < i ==> !contains_str(nodes[j].name, name)
}

/// The links of the first buffered repository whose name contains `name`;
/// `None` when there is no such repository or its links are not there.
pub open spec fn links_of(db: DatabaseView, name: Seq<char>) -> Option<Seq<LinkView>> {
    if exists|i: int| is_first_node_matching(db.nodes_items, name, i) {
        let i = choose|i: int| is_first_node_matching(db.nodes_items, name, i);
        db.nodes_items[i].links
    } else {
        None
    }
}

/// The buffer once links are stored at time `now`: every repository whose
/// name contains `name` gets `links`, and every repository is stamped.
pub open spec fn with_links(nodes: Seq<NodeView>, name: Seq<char>, links: Seq<LinkView>, now: i64) -> Seq<
    NodeView,
> {
    nodes.map_values(
        |n: NodeView|
            NodeView {
                links: if contains_str(n.name, name) {
                    Some(links)
                } else {
                    n.links
                },
                last_modified: Some(now),
                ..n
            },
    )
}

/// What a scan of a buffered repository reports.
pub open spec fn scan_of(n: NodeView) -> ScanView {
    ScanView {
        name: n.name,
        class_name: strip_punct(n.name),
        is_done: n.links.is_some(),
        is_error: false,
        id: n.id,
    }
}

/// How the dashboard shows a buffered repository: done when its links are
/// there, in error otherwise.
pub open spec fn dashboard_scan_of(n: NodeView) -> ScanView {
    ScanView {
        name: n.name,
        class_name: strip_punct(n.name),
        is_done: n.links.is_some(),
        is_error: n.links.is_none(),
        id: n.id,
    }
}

/// A scan, on the dashboard or asked for by slot, names its repository
/// exactly and carries its slot; it is done exactly when the links are
/// there (and on the dashboard in error exactly when they are not); only
/// the class name differs from the name, and it holds no ASCII punctuation.
pub proof fn lemma_scans_name_their_repository(n: NodeView)
    ensures
        dashboard_scan_of(n).name == n.name,
        dashboard_scan_of(n).id == n.id,
        dashboard_scan_of(n).is_done == n.links.is_some(),
        dashboard_scan_of(n).is_error == n.links.is_none(),
        scan_of(n).name == n.name,
        scan_of(n).id == n.id,
        scan_of(n).is_done == n.links.is_some(),
        !scan_of(n).is_error,
        scan_of(n).class_name == dashboard_scan_of(n).class_name,
        forall|i: int|
            0 <= i < scan_of(n).class_name.len() ==> !is_ascii_punct(
                #[trigger] scan_of(n).class_name[i],
            ),
{
    let pred = |c: char| !is_ascii_punct(c);
    assert forall|i: int| 0 <= i < scan_of(n).class_name.len() implies !is_ascii_punct(
        #[trigger] scan_of(n).class_name[i],
    ) by {
        n.name.lemma_filter_pred(pred, i);
    }
}

/// The buffered repositories holding slot `id`.
pub open spec fn holding(nodes: Seq<NodeView>, id: usize) -> Seq<NodeView> {
    nodes.filter(|n: NodeView| n.id == id)
}

/// The scan of slot `id`: refused with `BadRequest` unless exactly one
/// buffered repository holds the slot.
pub open spec fn scan_result(db: DatabaseView, id: usize) -> Result<ScanView, Error> {
    let h = holding(db.nodes_items, id);
    if h.len() == 1 {
        Ok(scan_of(h[0]))
    } else {
        Err(Error::BadRequest)
    }
}

/// The view of a scan result.
pub open spec fn scan_result_view(r: Result<Scan, Error>) -> Result<ScanView, Error> {
    match r {
        Ok(s) => Ok(s@),
        Err(e) => Err(e),
    }
}

fn make_scan(n: &Node, is_error: bool) -> (r: Scan)
    ensures
        r@ == (ScanView {
            name: n.name@,
            class_name: strip_punct(n.name@),
            is_done: n.links.is_some(),
            is_error,
            id: n.id,
        }),
{
    Scan {
        name: n.name.clone(),
        class_name: without_punct(n.name.as_str()),
        is_done: n.is_some(),
        is_error,
        id: n.id,
    }
}

impl Database {
    /// Why a request to map `full_name` is refused, if it is.
    pub fn repo_request_refusal(&self, full_name: &String) -> (r: Option<RepoRefusal>)
        ensures
            r == repo_refusal(self@, full_name@),
    {
        let ghost dv = self@.nodes_items;
        let ghost pp = |n: NodeView| n.links.is_none();
        let ghost pm = |n: NodeView| contains_str(n.name, full_name@) && n.links.is_some();
        let mut unprocessed: usize = 0;
        let mut processed: usize = 0;
        let mut i: usize = 0;
        while i < self.nodes_items.len()
            invariant
                i <= dv.len(),
                dv == self@.nodes_items,
                pp == (|n: NodeView| n.links.is_none()),
                pm == (|n: NodeView| contains_str(n.name, full_name@) && n.links.is_some()),
                unprocessed == dv.take(i as int).filter(pp).len(),
                processed == dv.take(i as int).filter(pm).len(),
            decreases dv.len() - i,
        {
            let n = &self.nodes_items[i];
            proof {
                reveal_with_fuel(Seq::filter, 1);
                assert(dv.take(i + 1).drop_last() =~= dv.take(i as int));
                assert(dv.take(i + 1).last() == n@);
                dv.take(i as int).lemma_filter_len(pp);
                dv.take(i as int).lemma_filter_len(pm);
            }
            if n.is_none() {
                unprocessed = unprocessed + 1;
            }
            if n.contains(full_name) && n.is_some() {
                processed = processed + 1;
            }
            i = i + 1;
        }
        assert(dv.take(dv.len() as int) =~= dv);
        if unprocessed >= 4 {
            Some(RepoRefusal::UnprocessedLimit)
        } else if processed >= 1 {
            Some(RepoRefusal::AlreadyProcessed)
        } else {
            None
        }
    }

    /// The first repository named `full_name` among the search results and
    /// then the dashboard's repositories.
    pub fn find_repo(&self, full_name: &String) -> (r: Option<Repo>)
        ensures
            match r {
                Some(rep) => exists|i: int|
                    is_first_repo_named(self@.search_repos + self@.dash_repos, full_name@, i)
                        && rep@ == (self@.search_repos + self@.dash_repos)[i],
                None => forall|i: int|
                    0 <= i < (self@.search_repos + self@.dash_repos).len() ==> (self@.search_repos
                        + self@.dash_repos)[i].full_name != full_name@,
            },
    {
        let ghost all = self@.search_repos + self@.dash_repos;
        let ns = self.search_repos.len();
        let mut i: usize = 0;
        while i < ns
            invariant
                i <= ns,
                ns == self@.search_repos.len(),
                all == self@.search_repos + self@.dash_repos,
                forall|j: int| 0 <= j < i ==> all[j].full_name != full_name@,
            decreases ns - i,
        {
            if self.search_repos[i].full_name == *full_name {
                let rep = self.search_repos[i].clone();
                assert(is_first_repo_named(all, full_name@, i as int));
                return Some(rep);
            }
            i = i + 1;
        }
        let mut k: usize = 0;
        while k < self.dash_repos.len()
            invariant
                k <= self@.dash_repos.len(),
                ns == self@.search_repos.len(),
                all == self@.search_repos + self@.dash_repos,
                forall|j: int| 0 <= j < ns + k ==> all[j].full_name != full_name@,
            decreases self@.dash_repos.len() - k,
        {
            if self.dash_repos[k].full_name == *full_name {
                let rep = self.dash_repos[k].clone();
                assert(all[ns + k] == self@.dash_repos[k as int]);
                assert(is_first_repo_named(all, full_name@, ns + k));
                return Some(rep);
            }
            assert(all[ns + k] == self@.dash_repos[k as int]);
            k = k + 1;
        }
        None
    }

    /// Stores `links` at time `now` for every buffered repository whose
    /// name contains `repo_name`, and stamps every buffered repository.
    pub fn put_links_at(&mut self, repo_name: &String, links: &Vec<Link>, now: i64)
        ensures
            final(self)@ == (DatabaseView {
                nodes_items: with_links(old(self)@.nodes_items, repo_name@, links.deep_view(), now),
                ..old(self)@
            }),
    {
        let ghost target = with_links(self@.nodes_items, repo_name@, links.deep_view(), now);
        let mut out: VecDeque<Node> = VecDeque::new();
        let mut i: usize = 0;
        while i < self.nodes_items.len()
            invariant
                i <= self@.nodes_items.len(),
                target == with_links(self@.nodes_items, repo_name@, links.deep_view(), now),
                out.deep_view() == target.take(i as int),
            decreases self@.nodes_items.len() - i,
        {
            let n = &self.nodes_items[i];
            let new_links = if n.contains(repo_name) {
                Some(clone_links(links))
            } else {
                clone_opt_links(&n.links)
            };
            let node = Node {
                name: n.name.clone(),
                links: new_links,
                last_modified: Some(now),
                id: n.id,
            };
            let ghost before = out;
            out.push_back(node);
            proof {
                lemma_deque_push_deep(before, out, node);
                assert(self@.nodes_items[i as int] == n@);
                assert(out.deep_view() =~= target.take(i + 1));
            }
            i = i + 1;
        }
        assert(target.take(target.len() as int) =~= target);
        self.nodes_items = out;
    }

    /// Stores `links` now for the buffered repositories whose name contains
    /// `repo_name`: as `put_links_at`, at the time the clock reads.
    pub fn put_links(&mut self, repo_name: &String, links: &Vec<Link>)
        ensures
            exists|now: i64|
                final(self)@ == (DatabaseView {
                    nodes_items: #[trigger] with_links(
                        old(self)@.nodes_items,
                        repo_name@,
                        links.deep_view(),
                        now,
                    ),
                    ..old(self)@
                }),
    {
        let now = unix_now();
        self.put_links_at(repo_name, links, now);
    }

    /// The links of the first buffered repository whose name contains
    /// `repo_name`; `None` when there is none or its links are not there.
    pub fn get_links(&self, repo_name: &String) -> (r: Option<Vec<Link>>)
        ensures
            r.deep_view() == links_of(self@, repo_name@),
    {
        let ghost nodes = self@.nodes_items;
        let mut i: usize = 0;
        while i < self.nodes_items.len()
            invariant
                i <= nodes.len(),
                nodes == self@.nodes_items,
                forall|j: int| 0 <= j < i ==> !contains_str(nodes[j].name, repo_name@),
            decreases nodes.len() - i,
        {
            let n = &self.nodes_items[i];
            assert(nodes[i as int] == n@);
            if n.contains(repo_name) {
                assert(is_first_node_matching(nodes, repo_name@, i as int));
                proof {
                    let c = choose|c: int| is_first_node_matching(nodes, repo_name@, c);
                    assert(c == i as int);
                }
                return clone_opt_links(&n.links);
            }
            i = i + 1;
        }
        None
    }

    /// Adds a scan note; the notes come back, the new one last.
    pub fn put_stat(&mut self, stat: ScanStat) -> (r: &Vec<ScanStat>)
        ensures
            final(self)@ == (DatabaseView {
                scan_stats: old(self)@.scan_stats.push(stat@),
                ..old(self)@
            }),
            r.deep_view() == old(self)@.scan_stats.push(stat@),
    {
        let ghost before = self.scan_stats;
        let ghost sv = stat;
        self.scan_stats.push(stat);
        proof {
            lemma_vec_push_deep(before, self.scan_stats, sv);
        }
        &self.scan_stats
    }

    /// The scan notes, oldest first.
    pub fn get_stats(&self) -> (r: &Vec<ScanStat>)
        ensures
            r.deep_view() == self@.scan_stats,
    {
        &self.scan_stats
    }

    /// The scan of slot `id`.
    pub fn scan_for(&self, id: usize) -> (r: Result<Scan, Error>)
        ensures
            scan_result_view(r) == scan_result(self@, id),
    {
        let ghost nodes = self@.nodes_items;
        let ghost p = |n: NodeView| n.id == id;
        let mut count: usize = 0;
        let mut found: usize = 0;
        let mut i: usize = 0;
        while i < self.nodes_items.len()
            invariant
                i <= nodes.len(),
                nodes == self@.nodes_items,
                p == (|n: NodeView| n.id == id),
                count == nodes.take(i as int).filter(p).len(),
                count > 0 ==> found < i && nodes.take(i as int).filter(p)[0] == nodes[found as int],
            decreases nodes.len() - i,
        {
            let ghost before = nodes.take(i as int).filter(p);
            proof {
                reveal_with_fuel(Seq::filter, 1);
                assert(nodes.take(i + 1).drop_last() =~= nodes.take(i as int));
                assert(nodes.take(i + 1).last() == nodes[i as int]);
                nodes.take(i as int).lemma_filter_len(p);
            }
            assert(nodes[i as int] == self.nodes_items@[i as int]@);
            if self.nodes_items[i].id == id {
                if count == 0 {
                    found = i;
                }
                count = count + 1;
            }
            i = i + 1;
        }
        assert(nodes.take(nodes.len() as int) =~= nodes);
        if count != 1 {
            return Err(Error::BadRequest);
        }
        Ok(make_scan(&self.nodes_items[found], false))
    }

    /// What the dashboard shows of the buffer: one entry per buffered
    /// repository, in buffer order, then one empty entry per free slot.
    pub fn dashboard_scans(&self) -> (r: Vec<Option<Scan>>)
        ensures
            r@.len() == self@.nodes_items.len() + self@.slots.len(),
            forall|i: int|
                0 <= i < self@.nodes_items.len() ==> match #[trigger] r@[i] {
                    Some(s) => s@ == dashboard_scan_of(self@.nodes_items[i]),
                    None => false,
                },
            forall|i: int|
                self@.nodes_items.len() <= i < r@.len() ==> (#[trigger] r@[i]).is_none(),
    {
        let mut r: Vec<Option<Scan>> = Vec::new();
        let mut i: usize = 0;
        while i < self.nodes_items.len()
            invariant
                i <= self@.nodes_items.len(),
                r@.len() == i,
                forall|j: int|
                    0 <= j < i ==> match #[trigger] r@[j] {
                        Some(s) => s@ == dashboard_scan_of(self@.nodes_items[j]),
                        None => false,
                    },
            decreases self@.nodes_items.len() - i,
        {
            let n = &self.nodes_items[i];
            assert(self@.nodes_items[i as int] == n@);
            let s = make_scan(n, n.is_none());
            r.push(Some(s));
            i = i + 1;
        }
        let mut k: usize = 0;
        while k < self.slots.len()
            invariant
                k <= self@.slots.len(),
                r@.len() == self@.nodes_items.len() + k,
                forall|j: int|
                    0 <= j < self@.nodes_items.len() ==> match #[trigger] r@[j] {
                        Some(s) => s@ == dashboard_scan_of(self@.nodes_items[j]),
                        None => false,
                    },
                forall|j: int| self@.nodes_items.len() <= j < r@.len() ==> (#[trigger] r@[j]).is_none(),
            decreases self@.slots.len() - k,
        {
            r.push(None);
            k = k + 1;
        }
        r
    }
}

proof fn lemma_first_match_exists(nodes: Seq<NodeView>, name: Seq<char>, k: int)
    requires
        0 <= k < nodes.len(),
        contains_str(nodes[k].name, name),
    ensures
        exists|i: int| is_first_node_matching(nodes, name, i),
    decreases k,
{
    if exists|j: int| 0 <= j < k && contains_str(nodes[j].name, name) {
        let j = choose|j: int| 0 <= j < k && contains_str(nodes[j].name, name);
        lemma_first_match_exists(nodes, name, j);
    } else {
        assert(is_first_node_matching(nodes, name, k));
    }
}

/// Reading the links of a repository back after storing them gives what
/// was stored, whenever some buffered repository's name contains the name
/// they were stored under.
pub proof fn lemma_links_read_back(
    db: DatabaseView,
    name: Seq<char>,
    links: Seq<LinkView>,
    now: i64,
)
    requires
        in_buffer(db, name),
    ensures
        links_of(
            DatabaseView { nodes_items: with_links(db.nodes_items, name, links, now), ..db },
            name,
        ) == Some(links),
{
    let nodes = db.nodes_items;
    let after = with_links(nodes, name, links, now);
    let k = choose|k: int| 0 <= k < nodes.len() && contains_str(nodes[k].name, name);
    assert(after[k].name == nodes[k].name);
    lemma_first_match_exists(after, name, k);
    let i = choose|i: int| is_first_node_matching(after, name, i);
    assert(after[i].name == nodes[i].name);
}

/// Once links are stored for a buffered repository, a new request to map
/// it is refused: as already mapped, or because four repositories wait.
pub proof fn lemma_stored_repo_is_refused(
    db: DatabaseView,
    name: Seq<char>,
    links: Seq<LinkView>,
    now: i64,
)
    requires
        in_buffer(db, name),
    ensures
        repo_refusal(
            DatabaseView { nodes_items: with_links(db.nodes_items, name, links, now), ..db },
            name,
        ) is Some,
{
    let nodes = db.nodes_items;
    let after = with_links(nodes, name, links, now);
    let k = choose|k: int| 0 <= k < nodes.len() && contains_str(nodes[k].name, name);
    assert(after[k].name == nodes[k].name);
    assert(after[k].links == Some(links));
    let pred = |n: NodeView| contains_str(n.name, name) && n.links.is_some();
    after.lemma_filter_contains(pred, k);
    assert(processed_matching(after, name).contains(after[k]));
}

/// Storing links changes no slot: with the slot numbers shared out before,
/// they stay shared out.
pub proof fn lemma_links_keep_slots(db: DatabaseView, name: Seq<char>, links: Seq<LinkView>, now: i64)
    requires
        slots_consistent(db),
    ensures
        slots_consistent(
            DatabaseView { nodes_items: with_links(db.nodes_items, name, links, now), ..db },
        ),
{
    assert(node_ids(with_links(db.nodes_items, name, links, now)) =~= node_ids(db.nodes_items));
}

/// With the slot numbers shared out, the dashboard always shows four
/// entries, one per slot.
pub proof fn lemma_dashboard_shows_every_slot(db: DatabaseView)
    requires
        slots_consistent(db),
    ensures
        db.nodes_items.len() + db.slots.len() == 4,
{
    assert(node_ids(db.nodes_items).len() == db.nodes_items.len());
}

} // verus!

//! The dashboard: who is signed in, the repositories shown, and the
//! interests read off their languages and topics.

use vstd::prelude::*;
use crate::model::{Repo, RepoView, User, clone_opt_string, clone_repos};
use crate::state::{Database, DatabaseView};
use crate::text::{capitalize, capitalized};
use crate::views::lemma_vec_push_deep;

verus! {

/// The number of repositories the dashboard shows.
pub open spec fn dashboard_repo_count() -> nat {
    4
}

/// Whether the dashboard still has to fetch the user's repositories: the
/// user has some and fewer or more than four are shown.
pub open spec fn wants_user_repos(db: DatabaseView) -> bool {
    db.has_repos && db.dash_repos.len() != dashboard_repo_count()
}

/// The repositories the dashboard keeps of a fetched list: the first
/// four, or all of them when there are fewer.
pub open spec fn shown_repos(repos: Seq<RepoView>) -> Seq<RepoView> {
    if repos.len() >= dashboard_repo_count() {
        repos.take(dashboard_repo_count() as int)
    } else {
        repos
    }
}

/// The dashboard shows the first repositories of the fetched list, in the
/// order they were fetched: the first four, or all of them when fewer were
/// fetched.
pub proof fn lemma_shown_repos_are_the_first_four(repos: Seq<RepoView>)
    ensures
        shown_repos(repos).len() == (if repos.len() < 4 {
            repos.len()
        } else {
            4
        }),
        forall|i: int| 0 <= i < shown_repos(repos).len() ==> shown_repos(repos)[i] == repos[i],
{
}

/// The name the dashboard greets the user by: the profile name with its
/// first letter upper-cased, or the login when there is no profile name.
pub open spec fn greeting_name(login: Seq<char>, name: Option<Seq<char>>) -> Seq<char> {
    match name {
        Some(n) => capitalized(n),
        None => login,
    }
}

/// What a repository suggests as interests: its language (empty when it
/// has none), then its topics.
pub open spec fn repo_interests(r: RepoView) -> Seq<Seq<char>> {
    seq![
        match r.language {
            Some(l) => l,
            None => Seq::<char>::empty(),
        },
    ] + r.topics
}

/// `x` is a non-empty language or topic of one of `repos`.
pub open spec fn is_interest(repos: Seq<RepoView>, x: Seq<char>) -> bool {
    x.len() > 0 && exists|i: int, j: int|
        0 <= i < repos.len() && 0 <= j < repo_interests(repos[i]).len() && repo_interests(
            repos[i],
        )[j] == x
}

/// The greeting name of a user.
pub fn display_name(user: &User) -> (r: String)
    ensures
        r@ == greeting_name(user.login@, user.name.deep_view()),
{
    match &user.name {
        Some(n) => capitalize(n.clone()),
        None => user.login.clone(),
    }
}

fn holds_string(v: &Vec<String>, s: &String) -> (r: bool)
    ensures
        r == v.deep_view().contains(s@),
{
    let mut i: usize = 0;
    while i < v.len()
        invariant
            i <= v@.len(),
            forall|j: int| 0 <= j < i ==> v.deep_view()[j] != s@,
        decreases v@.len() - i,
    {
        if v[i] == *s {
            assert(v.deep_view()[i as int] == s@);
            return true;
        }
        i = i + 1;
    }
    false
}

fn interests_of(r: &Repo) -> (c: Vec<String>)
    ensures
        c.deep_view() == repo_interests(r@),
{
    let lang = match &r.language {
        Some(l) => l.clone(),
        None => String::new(),
    };
    let mut c: Vec<String> = Vec::new();
    c.push(lang);
    let mut i: usize = 0;
    while i < r.topics.len()
        invariant
            i <= r.topics@.len(),
            c@.len() == i + 1,
            c.deep_view() == repo_interests(r@).take(i + 1),
        decreases r.topics@.len() - i,
    {
        let ghost before = c;
        let t = r.topics[i].clone();
        c.push(t);
        proof {
            lemma_vec_push_deep(before, c, t);
            assert(c.deep_view() =~= repo_interests(r@).take(i + 2));
        }
        i = i + 1;
    }
    assert(repo_interests(r@).take(r.topics@.len() + 1int) =~= repo_interests(r@));
    c
}

/// The interests of the shown repositories: every non-empty language and
/// topic among them, each once, in no promised order.
pub fn dashboard_interests(repos: &Vec<Repo>) -> (r: Vec<String>)
    ensures
        r.deep_view().no_duplicates(),
        forall|x: Seq<char>| r.deep_view().contains(x) <==> is_interest(repos.deep_view(), x),
{
    let ghost rs = repos.deep_view();
    let mut out: Vec<String> = Vec::new();
    let mut i: usize = 0;
    while i < repos.len()
        invariant
            i <= rs.len(),
            rs == repos.deep_view(),
            out.deep_view().no_duplicates(),
            forall|x: Seq<char>|
                out.deep_view().contains(x) <==> (x.len() > 0 && exists|a: int, b: int|
                    0 <= a < i && 0 <= b < repo_interests(rs[a]).len() && repo_interests(
                        rs[a],
                    )[b] == x),
        decreases rs.len() - i,
    {
        let cands = interests_of(&repos[i]);
        assert(rs[i as int] == repos@[i as int]@);
        let mut j: usize = 0;
        while j < cands.len()
            invariant
                i < rs.len(),
                j <= cands@.len(),
                rs == repos.deep_view(),
                cands.deep_view() == repo_interests(rs[i as int]),
                out.deep_view().no_duplicates(),
                forall|x: Seq<char>|
                    out.deep_view().contains(x) <==> (x.len() > 0 && ((exists|a: int, b: int|
                        0 <= a < i && 0 <= b < repo_interests(rs[a]).len() && repo_interests(
                            rs[a],
                        )[b] == x) || (exists|b: int|
                        0 <= b < j && repo_interests(rs[i as int])[b] == x))),
            decreases cands@.len() - j,
        {
            let c = &cands[j];
            assert(cands.deep_view()[j as int] == c@);
            let ghost before = out;
            let ghost bdv = out.deep_view();
            if !c.as_str().is_empty() && !holds_string(&out, c) {
                let cc = c.clone();
                out.push(cc);
                proof {
                    lemma_vec_push_deep(before, out, cc);
                    assert forall|p: int, q: int|
                        0 <= p < out.deep_view().len() && 0 <= q < out.deep_view().len() && p
                            != q implies out.deep_view()[p] != out.deep_view()[q] by {
                        if p < bdv.len() && q < bdv.len() {
                            assert(out.deep_view()[p] == bdv[p]);
                            assert(out.deep_view()[q] == bdv[q]);
                        } else if p < bdv.len() {
                            assert(out.deep_view()[p] == bdv[p]);
                        } else if q < bdv.len() {
                            assert(out.deep_view()[q] == bdv[q]);
                        }
                    }
                    assert forall|x: Seq<char>|
                        out.deep_view().contains(x) <==> (x.len() > 0 && ((exists|a: int, b: int|
                            0 <= a < i && 0 <= b < repo_interests(rs[a]).len()
                                && repo_interests(rs[a])[b] == x) || (exists|b: int|
                            0 <= b < j + 1 && repo_interests(rs[i as int])[b] == x))) by {
                        if out.deep_view().contains(x) {
                            let k = choose|k: int|
                                0 <= k < out.deep_view().len() && out.deep_view()[k] == x;
                            if k < bdv.len() {
                                assert(bdv[k] == x);
                                assert(bdv.contains(x));
                            }
                        }
                        if x == c@ {
                            assert(out.deep_view()[bdv.len() as int] == x);
                        } else if bdv.contains(x) {
                            let k = choose|k: int| 0 <= k < bdv.len() && bdv[k] == x;
                            assert(out.deep_view()[k] == x);
                        }
                    }
                }
            } else {
                proof {
                    assert forall|x: Seq<char>|
                        out.deep_view().contains(x) <==> (x.len() > 0 && ((exists|a: int, b: int|
                            0 <= a < i && 0 <= b < repo_interests(rs[a]).len()
                                && repo_interests(rs[a])[b] == x) || (exists|b: int|
                            0 <= b < j + 1 && repo_interests(rs[i as int])[b] == x))) by {
                        if x == c@ && x.len() > 0 {
                            assert(out.deep_view().contains(x));
                        }
                    }
                }
            }
            j = j + 1;
        }
        proof {
            assert forall|x: Seq<char>|
                out.deep_view().contains(x) <==> (x.len() > 0 && exists|a: int, b: int|
                    0 <= a < i + 1 && 0 <= b < repo_interests(rs[a]).len() && repo_interests(
                        rs[a],
                    )[b] == x) by {
                if x.len() > 0 && exists|a: int, b: int|
                    0 <= a < i + 1 && 0 <= b < repo_interests(rs[a]).len() && repo_interests(
                        rs[a],
                    )[b] == x {
                    let (a, b) = choose|a: int, b: int|
                        0 <= a < i + 1 && 0 <= b < repo_interests(rs[a]).len() && repo_interests(
                            rs[a],
                        )[b] == x;
                    if a == i {
                        assert(exists|b: int|
                            0 <= b < j && repo_interests(rs[i as int])[b] == x);
                    }
                }
            }
        }
        i = i + 1;
    }
    out
}

impl Database {
    /// Records who signed in and how many API calls they have left.
    pub fn sign_in(&mut self, login: String, ratelimit: usize)
        ensures
            final(self)@ == (DatabaseView {
                username: login@,
                ratelimit_count: ratelimit,
                ..old(self)@
            }),
    {
        self.username = login;
        self.ratelimit_count = ratelimit;
    }

    /// Records how many API calls the user has left, as a response's rate
    /// limit header reported it; nothing else changes.
    pub fn record_rate_limit(&mut self, remaining: usize)
        ensures
            final(self)@ == (DatabaseView { ratelimit_count: remaining, ..old(self)@ }),
    {
        self.ratelimit_count = remaining;
    }

    /// Whether the user's repositories still have to be fetched.
    pub fn needs_user_repos(&self) -> (r: bool)
        ensures
            r == wants_user_repos(self@),
    {
        self.has_repos && self.dash_repos.len() != 4
    }

    /// Records the outcome of fetching the user's repositories: the first
    /// four are shown; a failed fetch means the user has none to show.
    pub fn record_user_repos(&mut self, fetched: Option<Vec<Repo>>)
        ensures
            match fetched {
                Some(v) => final(self)@ == (DatabaseView {
                    dash_repos: shown_repos(v.deep_view()),
                    ..old(self)@
                }),
                None => final(self)@ == (DatabaseView { has_repos: false, ..old(self)@ }),
            },
    {
        match fetched {
            Some(mut v) => {
                let ghost orig = v;
                if v.len() >= 4 {
                    v.truncate(4);
                    assert(v.deep_view() =~= orig.deep_view().take(4));
                }
                self.dash_repos = v;
            },
            None => {
                self.has_repos = false;
            },
        }
    }
}

} // verus!

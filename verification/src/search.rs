//! Repository search: remembering results, and paging through them ten
//! at a time within a window of three pages that moves as further result
//! pages are fetched.

use vstd::prelude::*;
use crate::model::{Repo, RepoView, clone_repos};
use crate::state::{Database, DatabaseView};

verus! {

/// Results shown per page.
pub open spec fn page_size() -> int {
    10
}

/// Where page `page` starts within the fetched results: the fetched list
/// holds three pages.
pub open spec fn page_offset(page: int) -> int {
    (page_size() * page) % 30
}

/// What serving a page takes.
#[derive(Debug, Clone, Copy, PartialEq, Eq, Structural)]
pub enum PagePlan {
    /// The page is too far from the fetched window.
    Reject,
    /// The page is in the fetched results, from `start` up to `end`.
    Serve { start: usize, end: usize },
    /// The previous result page has to be fetched first.
    FetchPrevious,
    /// The next result page has to be fetched first.
    FetchNext,
}

/// How page `page` is served while result page `current` (counted from 1)
/// of `len` results is fetched: that result page holds pages
/// `3 * current - 3` to `3 * current - 1`. A page two or more pages away
/// from them is refused; one of them whose ten results are fetched is
/// served; any other page needs the neighbouring result page, the
/// previous one for a page before the window and the next one otherwise.
pub open spec fn page_plan(page: int, current: int, len: int) -> PagePlan {
    let items = page_offset(page);
    let first = 3 * current - 3;
    let last = 3 * current - 1;
    let in_window = first <= page <= last;
    if !in_window && ((page < first && first - page >= 2) || (page > last && page - last >= 2)) {
        PagePlan::Reject
    } else if in_window && items + page_size() <= len {
        PagePlan::Serve { start: items as usize, end: (items + page_size()) as usize }
    } else if page < first {
        PagePlan::FetchPrevious
    } else {
        PagePlan::FetchNext
    }
}

/// How to serve page `page` of the fetched results.
pub fn plan_page(page: usize, current: usize, len: usize) -> (r: PagePlan)
    requires
        1 <= current,
        3 * current <= isize::MAX,
        10 * page <= usize::MAX,
    ensures
        r == page_plan(page as int, current as int, len as int),
        r matches PagePlan::Serve { start, end } ==> start + page_size() == end && end <= len,
{
    let items_per_page: usize = 10;
    let items = (items_per_page * page) % 30;
    let first = current * 3 - 3;
    let last = current * 3 - 1;
    let in_window = first <= page && page <= last;
    if !in_window {
        if page < first && first - page >= 2 {
            return PagePlan::Reject;
        } else if page > last && page - last >= 2 {
            return PagePlan::Reject;
        }
    }
    if in_window && items + items_per_page <= len {
        PagePlan::Serve { start: items, end: items + items_per_page }
    } else if page < first {
        PagePlan::FetchPrevious
    } else {
        PagePlan::FetchNext
    }
}

/// Where page `page` starts within the fetched results.
pub fn page_start(page: usize) -> (r: usize)
    requires
        10 * page <= usize::MAX,
    ensures
        r == page_offset(page as int),
        r < 30,
{
    (10 * page) % 30
}

/// The results of page `page` once a neighbouring result page of `len`
/// results has been fetched: up to ten from the page's offset, cut at the
/// end of the list; `None` when the offset lies past the end.
pub fn window_after_fetch(page: usize, len: usize) -> (r: Option<(usize, usize)>)
    requires
        10 * page <= usize::MAX,
    ensures
        page_offset(page as int) > len ==> r.is_none(),
        page_offset(page as int) <= len ==> r == Some(
            (
                page_offset(page as int) as usize,
                (if page_offset(page as int) + page_size() < len {
                    page_offset(page as int) + page_size()
                } else {
                    len as int
                }) as usize,
            ),
        ),
        r matches Some((start, end)) ==> start <= end <= len && end - start <= page_size(),
{
    let items = page_start(page);
    if items > len {
        return None;
    }
    if items + 10 < len {
        Some((items, items + 10))
    } else {
        Some((items, len))
    }
}

/// The first page of search results: at most the first ten.
pub fn first_page(items: &Vec<Repo>) -> (r: Vec<Repo>)
    ensures
        r.deep_view() == items.deep_view().take(
            if items@.len() < page_size() {
                items@.len() as int
            } else {
                page_size()
            },
        ),
{
    let n: usize = if items.len() < 10 {
        items.len()
    } else {
        10
    };
    let mut r: Vec<Repo> = Vec::new();
    let mut i: usize = 0;
    while i < n
        invariant
            i <= n <= items@.len(),
            r@.len() == i,
            r.deep_view() == items.deep_view().take(i as int),
        decreases n - i,
    {
        let ghost before = r;
        let c = items[i].clone();
        r.push(c);
        proof {
            crate::views::lemma_vec_push_deep(before, r, c);
            assert(r.deep_view() =~= items.deep_view().take(i + 1));
        }
        i = i + 1;
    }
    r
}

/// The search text as the results page quotes it.
pub fn quoted(q: &str) -> (r: String)
    ensures
        r@ == "\""@ + q@ + "\""@,
{
    let r = String::from_str("\"");
    let r = r.concat(q);
    r.concat("\"")
}

impl Database {
    /// Remembers a first page of search results: the window goes back to
    /// result page 1, and the `Link` header, when there is one, is kept
    /// for fetching the neighbouring pages.
    pub fn record_search(&mut self, items: Vec<Repo>, link: Option<String>)
        ensures
            final(self)@ == (DatabaseView {
                search_repos: items.deep_view(),
                search_current: 1,
                search_link: match link {
                    Some(l) => l@,
                    None => old(self)@.search_link,
                },
                ..old(self)@
            }),
    {
        self.search_repos = items;
        self.search_current = 1;
        if let Some(l) = link {
            self.search_link = l;
        }
    }

    /// Remembers a fetched neighbouring result page: its results, its
    /// `Link` header when there is one, and the window one result page
    /// further on (`forward`) or back.
    pub fn record_page_fetch(&mut self, items: Vec<Repo>, link: Option<String>, forward: bool)
        requires
            forward ==> old(self).search_current < usize::MAX,
            !forward ==> old(self).search_current >= 1,
        ensures
            final(self)@ == (DatabaseView {
                search_repos: items.deep_view(),
                search_current: if forward {
                    (old(self)@.search_current + 1) as usize
                } else {
                    (old(self)@.search_current - 1) as usize
                },
                search_link: match link {
                    Some(l) => l@,
                    None => old(self)@.search_link,
                },
                ..old(self)@
            }),
    {
        if let Some(l) = link {
            self.search_link = l;
        }
        self.search_repos = items;
        if forward {
            self.search_current = self.search_current + 1;
        } else {
            self.search_current = self.search_current - 1;
        }
    }

    /// The fetched results from `start` up to `end`.
    pub fn search_page(&self, start: usize, end: usize) -> (r: Vec<Repo>)
        requires
            start <= end <= self@.search_repos.len(),
        ensures
            r.deep_view() == self@.search_repos.subrange(start as int, end as int),
    {
        let mut r: Vec<Repo> = Vec::new();
        let mut i: usize = start;
        while i < end
            invariant
                start <= i <= end <= self@.search_repos.len(),
                r@.len() == i - start,
                r.deep_view() == self@.search_repos.subrange(start as int, i as int),
            decreases end - i,
        {
            let ghost before = r;
            let c = self.search_repos[i].clone();
            r.push(c);
            proof {
                crate::views::lemma_vec_push_deep(before, r, c);
                assert(r.deep_view() =~= self@.search_repos.subrange(start as int, i + 1));
            }
            i = i + 1;
        }
        r
    }
}

} // verus!

//! Finding the configuration: which directory holds it by default, and the
//! search for one that lies nearby.
//!
//! The search walks a chain of directories, nearest first and the root
//! last, and asks of one at a time whether the file is there. Asking is the
//! caller's part; what is asked next, and when the search is over, is
//! decided here.

use vstd::prelude::*;

verus! {

/// The directory that holds the configuration where none is given: the one
/// that the environment names wins, else the platform's own.
pub fn default_config_dir<T>(named: Option<T>, platform: Option<T>) -> (r: Option<T>)
    ensures
        r == match named {
            Some(dir) => Some(dir),
            None => platform,
        },
{
    match named {
        Some(dir) => Some(dir),
        None => platform,
    }
}

/// What the search does next. Places count the directories of the chain
/// from 0, the nearest.
#[derive(Clone, Copy, Debug, PartialEq, Eq)]
pub enum SearchMove {
    /// Ask whether the file is at this place.
    Probe(usize),
    /// The file is at this place; the search is over.
    Found(usize),
    /// The file is nowhere on the chain; the search is over.
    NotFound,
}

/// The first move of a search over `levels` directories.
pub open spec fn search_start_spec(levels: int) -> SearchMove {
    if levels > 0 {
        SearchMove::Probe(0)
    } else {
        SearchMove::NotFound
    }
}

/// The move that follows the answer for place `at`: a file that is there
/// ends the search; else the next place is asked, if there is one.
pub open spec fn search_step_spec(levels: int, at: int, exists: bool) -> SearchMove {
    if exists {
        SearchMove::Found(at as usize)
    } else if at + 1 < levels {
        SearchMove::Probe((at + 1) as usize)
    } else {
        SearchMove::NotFound
    }
}

/// Starts a search over `levels` directories.
pub fn search_start(levels: usize) -> (r: SearchMove)
    ensures
        r == search_start_spec(levels as int),
{
    if levels > 0 {
        SearchMove::Probe(0)
    } else {
        SearchMove::NotFound
    }
}

/// Decides what follows the answer for place `at`.
pub fn search_step(levels: usize, at: usize, exists: bool) -> (r: SearchMove)
    requires
        at < levels,
    ensures
        r == search_step_spec(levels as int, at as int, exists),
{
    if exists {
        SearchMove::Found(at)
    } else if at + 1 < levels {
        SearchMove::Probe(at + 1)
    } else {
        SearchMove::NotFound
    }
}

/// The first place at or after `at` that holds the file.
pub open spec fn nearest_from(exists: Seq<bool>, at: int) -> Option<int>
    decreases exists.len() - at,
{
    if at < 0 || at >= exists.len() {
        None
    } else if exists[at] {
        Some(at)
    } else {
        nearest_from(exists, at + 1)
    }
}

/// The nearest place that holds the file.
pub open spec fn nearest(exists: Seq<bool>) -> Option<int> {
    nearest_from(exists, 0)
}

/// The move that ends the search which asks place `at` next, where
/// `exists` says of every place whether the file is there.
pub open spec fn search_from(exists: Seq<bool>, at: int) -> SearchMove
    decreases exists.len() - at,
    when exists.len() <= usize::MAX
{
    if at < 0 || at >= exists.len() {
        SearchMove::NotFound
    } else {
        match search_step_spec(exists.len() as int, at, exists[at]) {
            SearchMove::Probe(next) => search_from(exists, next as int),
            done => done,
        }
    }
}

/// The move that ends a whole search.
pub open spec fn search_spec(exists: Seq<bool>) -> SearchMove {
    match search_start_spec(exists.len() as int) {
        SearchMove::Probe(first) => search_from(exists, first as int),
        done => done,
    }
}

/// The places that the search asks from `at` on, in the order in which it
/// asks them.
pub open spec fn probed_from(exists: Seq<bool>, at: int) -> Seq<int>
    decreases exists.len() - at,
    when exists.len() <= usize::MAX
{
    if at < 0 || at >= exists.len() {
        Seq::empty()
    } else {
        match search_step_spec(exists.len() as int, at, exists[at]) {
            SearchMove::Probe(next) => seq![at] + probed_from(exists, next as int),
            _ => seq![at],
        }
    }
}

/// The last place that a search from `at` on asks: the first that holds
/// the file, else the root.
pub open spec fn last_probed(exists: Seq<bool>, at: int) -> int {
    match nearest_from(exists, at) {
        Some(k) => k,
        None => exists.len() - 1,
    }
}

/// What the nearest place is: it holds the file and none before it does;
/// there is none exactly where no place holds the file.
pub proof fn lemma_nearest_from(exists: Seq<bool>, at: int)
    requires
        0 <= at,
    ensures
        match nearest_from(exists, at) {
            Some(k) => at <= k < exists.len() && exists[k] && forall|j: int|
                at <= j < k ==> !exists[j],
            None => forall|j: int| at <= j < exists.len() ==> !exists[j],
        },
    decreases exists.len() - at,
{
    if at < exists.len() && !exists[at] {
        lemma_nearest_from(exists, at + 1);
    }
}

/// The steps find the nearest file: a search that asks place `at` next
/// ends with the first place from there on that holds the file, and with
/// `NotFound` exactly where none does.
pub proof fn lemma_steps_find_nearest(exists: Seq<bool>, at: int)
    requires
        0 <= at < exists.len() <= usize::MAX,
    ensures
        search_from(exists, at) == match nearest_from(exists, at) {
            Some(k) => SearchMove::Found(k as usize),
            None => SearchMove::NotFound,
        },
    decreases exists.len() - at,
{
    if !exists[at] {
        if at + 1 < exists.len() {
            lemma_steps_find_nearest(exists, at + 1);
            assert(((at + 1) as usize) as int == at + 1);
        } else {
            assert(nearest_from(exists, at + 1) is None);
        }
    }
}

/// A whole search ends at the nearest place that holds the file, the root
/// included, and with `NotFound` exactly where no place on the chain holds
/// it.
pub proof fn lemma_search_finds_nearest(exists: Seq<bool>)
    requires
        exists.len() <= usize::MAX,
    ensures
        search_spec(exists) == match nearest(exists) {
            Some(k) => SearchMove::Found(k as usize),
            None => SearchMove::NotFound,
        },
        nearest(exists) is None <==> forall|j: int| 0 <= j < exists.len() ==> !exists[j],
        nearest(exists) is Some ==> {
            let k = nearest(exists)->Some_0;
            0 <= k < exists.len() && exists[k] && forall|j: int| 0 <= j < k ==> !exists[j]
        },
{
    lemma_nearest_from(exists, 0);
    if exists.len() > 0 {
        lemma_steps_find_nearest(exists, 0);
    }
}

/// The search asks each place at most once and in order: from `at` on it
/// asks `at`, `at + 1` and so on, and stops behind the first place that
/// holds the file, or behind the root where none does.
pub proof fn lemma_probes_in_order(exists: Seq<bool>, at: int)
    requires
        0 <= at < exists.len() <= usize::MAX,
    ensures
        probed_from(exists, at) == Seq::new(
            (last_probed(exists, at) - at + 1) as nat,
            |i: int| at + i,
        ),
    decreases exists.len() - at,
{
    lemma_nearest_from(exists, at);
    let want = Seq::new((last_probed(exists, at) - at + 1) as nat, |i: int| at + i);
    if !exists[at] && at + 1 < exists.len() {
        lemma_probes_in_order(exists, at + 1);
        lemma_nearest_from(exists, at + 1);
        assert(((at + 1) as usize) as int == at + 1);
        assert(seq![at] + probed_from(exists, at + 1) =~= want);
    } else {
        if !exists[at] {
            assert(nearest_from(exists, at + 1) is None);
        }
        assert(seq![at] =~= want);
    }
}

} // verus!

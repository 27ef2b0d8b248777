//! Game search over the Steam AppID list.
use vstd::prelude::*;
use crate::steam::{get_header_image_url, header_url_of};
use crate::text::{
    chars_of, contains_chars, decimal, decimal_string, has_substring, lowercase, to_lowercase,
};

verus! {

/// One application of the AppID list.
#[derive(Debug, Clone)]
pub struct AppEntry {
    pub appid: u64,
    pub name: String,
}

/// A game found by a search.
#[derive(Debug, Clone)]
pub struct SearchResult {
    pub appid: String,
    pub name: String,
    pub header_url: String,
}

/// A name matches a query when its lower-cased form contains the lower-cased query.
pub open spec fn name_matches(name: Seq<char>, query: Seq<char>) -> bool {
    has_substring(lowercase(name), lowercase(query))
}

/// The entries whose names match `query`, in list order.
pub open spec fn matching_apps(apps: Seq<AppEntry>, query: Seq<char>) -> Seq<AppEntry>
    decreases apps.len(),
{
    if apps.len() == 0 {
        seq![]
    } else {
        let prev = matching_apps(apps.drop_last(), query);
        if name_matches(apps.last().name@, query) {
            prev.push(apps.last())
        } else {
            prev
        }
    }
}

/// `r` is the search result for `app`.
pub open spec fn is_result_for(r: SearchResult, app: AppEntry) -> bool {
    &&& r.appid@ == decimal(app.appid as nat)
    &&& r.name@ == app.name@
    &&& r.header_url@ == header_url_of(decimal(app.appid as nat))
}

/// Searches the list for games whose name contains `query` (case-insensitively):
/// the first `limit` matches, in list order, with their header image URLs.
pub fn search_games(apps: &[AppEntry], query: &str, limit: usize) -> (r: Vec<SearchResult>)
    ensures
        r.len() == if matching_apps(apps@, query@).len() <= limit {
            matching_apps(apps@, query@).len() as int
        } else {
            limit as int
        },
        forall|i: int|
            0 <= i < r.len() ==> is_result_for(#[trigger] r@[i], matching_apps(apps@, query@)[i]),
{
    let query_lower_s = to_lowercase(query);
    let query_lower = chars_of(query_lower_s.as_str());
    let mut results: Vec<SearchResult> = Vec::new();
    let mut i: usize = 0;
    while i < apps.len() && results.len() < limit
        invariant
            i <= apps.len(),
            query_lower@ == lowercase(query@),
            results.len() <= limit,
            results.len() == matching_apps(apps@.take(i as int), query@).len(),
            forall|j: int|
                0 <= j < results.len() ==> is_result_for(
                    #[trigger] results@[j],
                    matching_apps(apps@.take(i as int), query@)[j],
                ),
        decreases apps.len() - i,
    {
        let app = &apps[i];
        let lower_s = to_lowercase(app.name.as_str());
        let lower = chars_of(lower_s.as_str());
        proof {
            assert(apps@.take(i + 1).drop_last() =~= apps@.take(i as int));
            assert(apps@.take(i + 1).last() == apps@[i as int]);
        }
        if contains_chars(&lower, &query_lower) {
            let id = decimal_string(app.appid);
            let header_url = get_header_image_url(id.as_str());
            results.push(SearchResult { appid: id, name: app.name.clone(), header_url });
        }
        i += 1;
    }
    proof {
        lemma_matching_prefix_len(apps@, query@, i as int);
        if results.len() < limit {
            assert(apps@.take(i as int) =~= apps@);
        }
        assert forall|j: int| 0 <= j < results.len() implies is_result_for(
            #[trigger] results@[j],
            matching_apps(apps@, query@)[j],
        ) by {
            lemma_matching_prefix(apps@, query@, i as int, j);
        }
    }
    results
}

/// Matches within a prefix of the list are a prefix of all matches.
proof fn lemma_matching_prefix(apps: Seq<AppEntry>, query: Seq<char>, n: int, j: int)
    requires
        0 <= n <= apps.len(),
        0 <= j < matching_apps(apps.take(n), query).len(),
    ensures
        j < matching_apps(apps, query).len(),
        matching_apps(apps.take(n), query)[j] == matching_apps(apps, query)[j],
    decreases apps.len() - n,
{
    if n < apps.len() {
        let m = apps.take(n + 1);
        assert(m.drop_last() =~= apps.take(n));
        lemma_matching_prefix(apps, query, n + 1, j);
    } else {
        assert(apps.take(n) =~= apps);
    }
}

/// A prefix of the list has no more matches than the whole list.
proof fn lemma_matching_prefix_len(apps: Seq<AppEntry>, query: Seq<char>, n: int)
    requires
        0 <= n <= apps.len(),
    ensures
        matching_apps(apps.take(n), query).len() <= matching_apps(apps, query).len(),
    decreases apps.len() - n,
{
    if n < apps.len() {
        let m = apps.take(n + 1);
        assert(m.drop_last() =~= apps.take(n));
        lemma_matching_prefix_len(apps, query, n + 1);
    } else {
        assert(apps.take(n) =~= apps);
    }
}

/// Every game a search finds has a name containing the query (ignoring case),
/// and is one of the listed apps.
pub proof fn law_search_results_match(apps: Seq<AppEntry>, query: Seq<char>)
    ensures
        forall|i: int|
            0 <= i < matching_apps(apps, query).len() ==> name_matches(
                (#[trigger] matching_apps(apps, query)[i]).name@,
                query,
            ) && apps.contains(matching_apps(apps, query)[i]),
        matching_apps(apps, query).len() <= apps.len(),
    decreases apps.len(),
{
    if apps.len() > 0 {
        let init = apps.drop_last();
        law_search_results_match(init, query);
        let prev = matching_apps(init, query);
        let cur = matching_apps(apps, query);
        assert forall|i: int| 0 <= i < cur.len() implies name_matches(
            (#[trigger] cur[i]).name@,
            query,
        ) && apps.contains(cur[i]) by {
            if i < prev.len() {
                assert(cur[i] == prev[i]);
                assert(init.contains(prev[i]));
                let j = choose|j: int| 0 <= j < init.len() && init[j] == prev[i];
                assert(apps[j] == init[j]);
            } else {
                assert(cur[i] == apps.last());
                assert(apps[apps.len() - 1] == apps.last());
            }
        }
    }
}

/// The search keeps exactly the apps whose lower-cased name contains the
/// lower-cased query, in list order: every such app is found, and no other.
pub proof fn law_search_finds_every_match(apps: Seq<AppEntry>, query: Seq<char>)
    ensures
        matching_apps(apps, query) == apps.filter(
            |a: AppEntry| has_substring(lowercase(a.name@), lowercase(query)),
        ),
        forall|i: int|
            0 <= i < apps.len() && has_substring(lowercase((#[trigger] apps[i]).name@), lowercase(query))
                ==> matching_apps(apps, query).contains(apps[i]),
    decreases apps.len(),
{
    reveal(Seq::filter);
    let pred = |a: AppEntry| has_substring(lowercase(a.name@), lowercase(query));
    if apps.len() > 0 {
        law_search_finds_every_match(apps.drop_last(), query);
    }
    assert(matching_apps(apps, query) == apps.filter(pred));
    assert forall|i: int|
        0 <= i < apps.len() && has_substring(lowercase((#[trigger] apps[i]).name@), lowercase(query))
            implies matching_apps(apps, query).contains(apps[i]) by {
        apps.lemma_filter_contains(pred, i);
    }
}

} // verus!

//! The application's commands: greeting, runtime check, game search and the
//! staging state that carries a prepared download between commands.
use vstd::prelude::*;
use crate::appid::{matching_apps, search_games as appid_search, AppEntry};
use crate::steam::header_url_of;
use crate::download::DepotInfo;
use crate::text::{concat3, decimal, has_substring, replace_char, str_contains, str_replace_char};

verus! {

broadcast use vstd::string::group_string_axioms;

/// The greeting for `name`.
pub fn greet(name: &str) -> (r: String)
    ensures
        r@ == "Hello, "@ + name@ + "!"@,
{
    concat3("Hello, ", name, "!")
}

/// Whether the output of `dotnet --list-runtimes` lists a .NET 9 runtime.
pub fn lists_dotnet9_runtime(runtimes_output: &str) -> (r: bool)
    ensures
        r == has_substring(runtimes_output@, "Microsoft.NETCore.App 9."@),
{
    str_contains(runtimes_output, "Microsoft.NETCore.App 9.")
}

/// How many results a search from the app shows.
pub const SEARCH_LIMIT: usize = 20;

/// A game search result as the app shows it.
#[derive(Debug, Clone)]
pub struct GameSearchResult {
    pub appid: String,
    pub name: String,
    pub header_url: String,
}

/// The search from the app: up to twenty games of the loaded AppID list whose
/// names contain `query` (case-insensitively); nothing when the list could not
/// be loaded.
pub fn search_games(db: Result<Vec<AppEntry>, String>, query: &str) -> (r: Vec<GameSearchResult>)
    ensures
        match db {
            Err(_) => r.len() == 0,
            Ok(apps) => {
                let m = matching_apps(apps@, query@);
                &&& r.len() == if m.len() <= 20 {
                    m.len() as int
                } else {
                    20
                }
                &&& forall|i: int|
                    0 <= i < r.len() ==> {
                        &&& (#[trigger] r@[i]).appid@ == decimal(m[i].appid as nat)
                        &&& r@[i].name@ == m[i].name@
                        &&& r@[i].header_url@ == header_url_of(decimal(m[i].appid as nat))
                    }
            },
        },
{
    match db {
        Err(_) => Vec::new(),
        Ok(apps) => {
            let found = appid_search(apps.as_slice(), query, SEARCH_LIMIT);
            let mut out: Vec<GameSearchResult> = Vec::new();
            let mut i: usize = 0;
            while i < found.len()
                invariant
                    i <= found.len(),
                    out.len() == i,
                    forall|j: int|
                        0 <= j < i ==> {
                            &&& (#[trigger] out@[j]).appid@ == found@[j].appid@
                            &&& out@[j].name@ == found@[j].name@
                            &&& out@[j].header_url@ == found@[j].header_url@
                        },
                decreases found.len() - i,
            {
                let f = &found[i];
                out.push(
                    GameSearchResult {
                        appid: f.appid.clone(),
                        name: f.name.clone(),
                        header_url: f.header_url.clone(),
                    },
                );
                i += 1;
            }
            out
        },
    }
}

/// A path with `/` separators turned into `\` for Windows Explorer.
pub fn explorer_path(path: &str) -> (r: String)
    ensures
        r@ == replace_char(path@, '/', '\\'),
{
    str_replace_char(path, '/', '\\')
}

// ---------------------------------------------------------------------------
// Staging state.
// ---------------------------------------------------------------------------

/// The characters of each string.
pub open spec fn strings_view(v: Seq<String>) -> Seq<Seq<char>> {
    v.map_values(|s: String| s@)
}

/// Whether `depot` is one of the selected depot ids.
pub open spec fn is_selected(depot: DepotInfo, ids: Seq<Seq<char>>) -> bool {
    ids.contains(depot.depot_id@)
}

/// The depots whose ids are selected, in their original order.
pub open spec fn selected_depots(depots: Seq<DepotInfo>, ids: Seq<Seq<char>>) -> Seq<DepotInfo>
    decreases depots.len(),
{
    if depots.len() == 0 {
        seq![]
    } else {
        let prev = selected_depots(depots.drop_last(), ids);
        if is_selected(depots.last(), ids) {
            prev.push(depots.last())
        } else {
            prev
        }
    }
}

/// Whether `id` is among `ids`.
fn contains_id(ids: &[String], id: &String) -> (r: bool)
    ensures
        r == strings_view(ids@).contains(id@),
{
    let mut i: usize = 0;
    while i < ids.len()
        invariant
            i <= ids.len(),
            forall|j: int| 0 <= j < i ==> ids@[j]@ != id@,
        decreases ids.len() - i,
    {
        if ids[i] == *id {
            proof {
                assert(strings_view(ids@)[i as int] == id@);
            }
            return true;
        }
        i += 1;
    }
    proof {
        if strings_view(ids@).contains(id@) {
            let k = choose|k: int| 0 <= k < strings_view(ids@).len() && strings_view(ids@)[k] == id@;
            assert(ids@[k]@ == id@);
        }
    }
    false
}

/// The depots of `all` whose ids are in `selected_ids`, keeping their order.
pub fn select_depots(all: &[DepotInfo], selected_ids: &[String]) -> (r: Vec<DepotInfo>)
    ensures
        r@ == selected_depots(all@, strings_view(selected_ids@)),
{
    let mut out: Vec<DepotInfo> = Vec::new();
    let mut i: usize = 0;
    while i < all.len()
        invariant
            i <= all.len(),
            out@ == selected_depots(all@.take(i as int), strings_view(selected_ids@)),
        decreases all.len() - i,
    {
        proof {
            assert(all@.take(i + 1).drop_last() =~= all@.take(i as int));
        }
        if contains_id(selected_ids, &all[i].depot_id) {
            out.push(all[i].duplicate());
        }
        i += 1;
    }
    proof {
        assert(all@.take(all.len() as int) =~= all@);
    }
    out
}

/// What a prepared download carries between the prepare and execute commands.
#[derive(Debug)]
pub struct StagingState {
    pub staging_dir: Option<String>,
    pub app_id: String,
    pub target_dir: String,
    pub depots: Vec<DepotInfo>,
}

/// The staging state as values.
pub struct StagingView {
    pub staging_dir: Option<Seq<char>>,
    pub app_id: Seq<char>,
    pub target_dir: Seq<char>,
    pub depots: Seq<DepotInfo>,
}

impl View for StagingState {
    type V = StagingView;

    open spec fn view(&self) -> StagingView {
        StagingView {
            staging_dir: match self.staging_dir {
                Some(d) => Some(d@),
                None => None,
            },
            app_id: self.app_id@,
            target_dir: self.target_dir@,
            depots: self.depots@,
        }
    }
}

/// Nothing staged.
pub open spec fn empty_staging() -> StagingView {
    StagingView { staging_dir: None, app_id: seq![], target_dir: seq![], depots: seq![] }
}

/// A prepared download, ready to execute.
#[derive(Debug)]
pub struct StagedDownload {
    pub staging_dir: String,
    pub app_id: String,
    pub target_dir: String,
    pub depots: Vec<DepotInfo>,
}

/// The error when a download is executed before one was prepared.
pub open spec fn not_prepared_message() -> Seq<char> {
    "No staging directory. Call prepare first."@
}

/// What executing the staged download with the selected depot ids starts from:
/// the staged folder, app and target with the selected depots, or an error when
/// nothing is staged.
pub open spec fn selection_outcome(s: StagingView, ids: Seq<Seq<char>>) -> Result<
    (Seq<char>, Seq<char>, Seq<char>, Seq<DepotInfo>),
    Seq<char>,
> {
    match s.staging_dir {
        None => Err(not_prepared_message()),
        Some(dir) => Ok((dir, s.app_id, s.target_dir, selected_depots(s.depots, ids))),
    }
}

impl Default for StagingState {
    fn default() -> (r: StagingState)
        ensures
            r@ == empty_staging(),
    {
        StagingState {
            staging_dir: None,
            app_id: String::new(),
            target_dir: String::new(),
            depots: Vec::new(),
        }
    }
}

impl StagingState {
    /// Records a prepared download (after the prepare commands).
    pub fn stage(&mut self, staging_dir: String, app_id: String, target_dir: String, depots: Vec<DepotInfo>)
        ensures
            final(self)@ == (StagingView {
                staging_dir: Some(staging_dir@),
                app_id: app_id@,
                target_dir: target_dir@,
                depots: depots@,
            }),
    {
        self.staging_dir = Some(staging_dir);
        self.app_id = app_id;
        self.target_dir = target_dir;
        self.depots = depots;
    }

    /// Forgets the prepared download (after executing or cancelling it).
    pub fn clear(&mut self)
        ensures
            final(self)@ == empty_staging(),
    {
        *self = StagingState::default();
    }

    /// What to execute for the selected depot ids.
    pub fn selection(&self, selected_ids: &[String]) -> (r: Result<StagedDownload, String>)
        ensures
            match selection_outcome(self@, strings_view(selected_ids@)) {
                Err(e) => r matches Err(m) && m@ == e,
                Ok((dir, app, target, depots)) => r matches Ok(d) && d.staging_dir@ == dir
                    && d.app_id@ == app && d.target_dir@ == target && d.depots@ == depots,
            },
    {
        match &self.staging_dir {
            None => Err("No staging directory. Call prepare first.".to_string()),
            Some(dir) => Ok(
                StagedDownload {
                    staging_dir: dir.clone(),
                    app_id: self.app_id.clone(),
                    target_dir: self.target_dir.clone(),
                    depots: select_depots(self.depots.as_slice(), selected_ids),
                },
            ),
        }
    }
}

/// Staging a download and then selecting depots gives back what was staged,
/// with exactly the selected depots in their staged order.
pub proof fn law_selection_after_stage(
    dir: Seq<char>,
    app_id: Seq<char>,
    target_dir: Seq<char>,
    depots: Seq<DepotInfo>,
    ids: Seq<Seq<char>>,
)
    ensures
        selection_outcome(
            StagingView { staging_dir: Some(dir), app_id, target_dir, depots },
            ids,
        ) == Ok::<_, Seq<char>>((dir, app_id, target_dir, selected_depots(depots, ids))),
{
}

/// After the staging state is cleared, executing is refused until a new
/// download is prepared.
pub proof fn law_cleared_staging_refuses(ids: Seq<Seq<char>>)
    ensures
        selection_outcome(empty_staging(), ids) == Err::<
            (Seq<char>, Seq<char>, Seq<char>, Seq<DepotInfo>),
            Seq<char>,
        >(not_prepared_message()),
{
}

/// The selected depots are exactly the staged depots whose ids were selected,
/// in their staged order, each once.
pub proof fn law_selected_depots(depots: Seq<DepotInfo>, ids: Seq<Seq<char>>)
    ensures
        forall|d: DepotInfo| selected_depots(depots, ids).contains(d) <==> (depots.contains(d)
            && is_selected(d, ids)),
        selected_depots(depots, ids).len() <= depots.len(),
    decreases depots.len(),
{
    if depots.len() > 0 {
        let init = depots.drop_last();
        let last = depots.last();
        law_selected_depots(init, ids);
        let prev = selected_depots(init, ids);
        let cur = selected_depots(depots, ids);
        assert forall|d: DepotInfo| cur.contains(d) implies depots.contains(d) && is_selected(
            d,
            ids,
        ) by {
            let k = choose|k: int| 0 <= k < cur.len() && cur[k] == d;
            if k < prev.len() {
                assert(prev[k] == d);
                assert(prev.contains(d));
                assert(init.contains(d));
                let j = choose|j: int| 0 <= j < init.len() && init[j] == d;
                assert(depots[j] == d);
            } else {
                assert(d == last);
                assert(depots[depots.len() - 1] == d);
            }
        }
        assert forall|d: DepotInfo| depots.contains(d) && is_selected(d, ids) implies cur.contains(
            d,
        ) by {
            let k = choose|k: int| 0 <= k < depots.len() && depots[k] == d;
            if k < depots.len() - 1 {
                assert(init[k] == d);
                assert(init.contains(d));
                assert(prev.contains(d));
                let j = choose|j: int| 0 <= j < prev.len() && prev[j] == d;
                assert(cur[j] == d);
            } else {
                assert(cur[cur.len() - 1] == d);
            }
        }
    }
}

} // verus!

//! Depot discovery and download planning: manifest file names, depot keys from
//! Lua scripts, output folder names and DepotDownloader arguments.
use vstd::prelude::*;
use crate::manifest::ManifestSummary;
use crate::text::{
    chars_of, concat, has_substring, is_alphanumeric, occurs_at, owned, string_from_chars, trim,
    trim_chars, unicode_alphanumeric,
};

verus! {

broadcast use vstd::string::group_string_axioms;

// ---------------------------------------------------------------------------
// Regular expressions (the `regex` crate).
// ---------------------------------------------------------------------------

#[verifier::external_type_specification]
#[verifier::external_body]
pub struct ExRegex(regex::Regex);

/// Whether the `regex` crate accepts `pattern`.
pub uninterp spec fn regex_valid(pattern: Seq<char>) -> bool;

/// The capture groups (group 0 is the whole match) of the leftmost match of
/// `pattern` in `text`, if there is a match.
pub uninterp spec fn regex_captures(pattern: Seq<char>, text: Seq<char>) -> Option<
    Seq<Option<Seq<char>>>,
>;

/// The capture groups of each successive non-overlapping match of `pattern` in `text`.
pub uninterp spec fn regex_captures_all(pattern: Seq<char>, text: Seq<char>) -> Seq<
    Seq<Option<Seq<char>>>,
>;

/// A compiled regular expression with its source pattern.
struct Pattern {
    re: regex::Regex,
    source: Ghost<Seq<char>>,
}

/// The characters of each captured group.
pub open spec fn groups_view(g: Seq<Option<String>>) -> Seq<Option<Seq<char>>> {
    g.map_values(
        |o: Option<String>|
            match o {
                Some(s) => Some(s@),
                None => None,
            },
    )
}

/// Compiles a regular expression.
///
/// Calls `regex::Regex::new`; the contract claims that it succeeds exactly on
/// patterns the crate accepts (named `regex_valid`).
#[verifier::external_body]
fn compile_pattern(pattern: &str) -> (r: Option<Pattern>)
    ensures
        r.is_some() == regex_valid(pattern@),
        r matches Some(p) ==> p.source@ == pattern@,
{
    match regex::Regex::new(pattern) {
        Ok(re) => Some(Pattern { re, source: Ghost(pattern@) }),
        Err(_) => None,
    }
}

/// The capture groups of the leftmost match.
///
/// Calls `regex::Regex::captures`; the contract names its result (`regex_captures`).
#[verifier::external_body]
fn first_captures(p: &Pattern, text: &str) -> (r: Option<Vec<Option<String>>>)
    ensures
        match r {
            Some(g) => regex_captures(p.source@, text@) == Some(groups_view(g@)),
            None => regex_captures(p.source@, text@) is None,
        },
{
    p.re.captures(text).map(
        |c| c.iter().map(|m| m.map(|m| m.as_str().to_string())).collect::<Vec<Option<String>>>(),
    )
}

/// The capture groups of every match.
///
/// Calls `regex::Regex::captures_iter`; the contract names its result
/// (`regex_captures_all`).
#[verifier::external_body]
fn all_captures(p: &Pattern, text: &str) -> (r: Vec<Vec<Option<String>>>)
    ensures
        r@.map_values(|g: Vec<Option<String>>| groups_view(g@)) == regex_captures_all(
            p.source@,
            text@,
        ),
{
    p.re.captures_iter(text).map(
        |c| c.iter().map(|m| m.map(|m| m.as_str().to_string())).collect::<Vec<Option<String>>>(),
    ).collect()
}

// ---------------------------------------------------------------------------
// Depots found in a staging folder.
// ---------------------------------------------------------------------------

/// A depot available for download.
#[derive(Debug, Clone)]
pub struct DepotInfo {
    pub depot_id: String,
    pub manifest_id: String,
    pub file_path: String,
    pub file_count: u64,
    pub total_size: u64,
    pub os: String,
}

impl DepotInfo {
    /// A field-by-field copy.
    pub fn duplicate(&self) -> (r: DepotInfo)
        ensures
            r == *self,
    {
        DepotInfo {
            depot_id: self.depot_id.clone(),
            manifest_id: self.manifest_id.clone(),
            file_path: self.file_path.clone(),
            file_count: self.file_count,
            total_size: self.total_size,
            os: self.os.clone(),
        }
    }
}

/// The file names of depot manifests: `<depot id>_<manifest id>.manifest`.
pub open spec fn manifest_name_pattern() -> Seq<char> {
    "(\\d+)_(\\d+)\\.manifest$"@
}

/// The (depot id, manifest id) in a manifest file name, if it has the form
/// `<digits>_<digits>.manifest`.
pub open spec fn manifest_ids(file_name: Seq<char>) -> Option<(Seq<char>, Seq<char>)> {
    if !regex_valid(manifest_name_pattern()) {
        None
    } else {
        match regex_captures(manifest_name_pattern(), file_name) {
            Some(g) => if g.len() > 2 && g[1] is Some && g[2] is Some {
                Some((g[1]->0, g[2]->0))
            } else {
                None
            },
            None => None,
        }
    }
}

/// The depot described by manifest file `file_name` at `file_path`, with the
/// counts and platform of its manifest (zero and "Unknown" when the manifest
/// could not be read); `None` when the name is not a manifest name.
pub fn depot_info_for_file(file_name: &str, file_path: &str, summary: Option<ManifestSummary>) -> (r:
    Option<DepotInfo>)
    ensures
        match manifest_ids(file_name@) {
            None => r is None,
            Some((depot, manifest)) => r matches Some(d) && {
                &&& d.depot_id@ == depot
                &&& d.manifest_id@ == manifest
                &&& d.file_path@ == file_path@
                &&& match summary {
                    Some(s) => d.file_count == s.file_count && d.total_size == s.total_size
                        && d.os@ == s.os@,
                    None => d.file_count == 0 && d.total_size == 0 && d.os@ == "Unknown"@,
                }
            },
        },
{
    let pattern = match compile_pattern("(\\d+)_(\\d+)\\.manifest$") {
        Some(p) => p,
        None => return None,
    };
    let groups = match first_captures(&pattern, file_name) {
        Some(g) => g,
        None => return None,
    };
    proof {
        assert(groups_view(groups@).len() == groups@.len());
    }
    if groups.len() <= 2 {
        return None;
    }
    let depot_id = match &groups[1] {
        Some(s) => s.clone(),
        None => return None,
    };
    let manifest_id = match &groups[2] {
        Some(s) => s.clone(),
        None => return None,
    };
    let (file_count, total_size, os) = match summary {
        Some(s) => (s.file_count, s.total_size, s.os),
        None => (0, 0, "Unknown".to_string()),
    };
    Some(
        DepotInfo {
            depot_id,
            manifest_id,
            file_path: owned(file_path),
            file_count,
            total_size,
            os,
        },
    )
}

// ---------------------------------------------------------------------------
// Depot keys from Lua scripts.
// ---------------------------------------------------------------------------

/// `addappid(<depot>, <n>, "<key>")` lines.
pub open spec fn addappid_pattern() -> Seq<char> {
    "addappid\\((\\d+),\\s*\\d+,\\s*\"([A-Za-z0-9]+)\"\\)"@
}

/// `[<depot>] = "<key>"` lines.
pub open spec fn keyed_pattern() -> Seq<char> {
    "\\[(\\d+)\\]\\s*=\\s*\"([A-Za-z0-9]+)\""@
}

/// One `depot;key` line from a match's groups 1 and 2.
pub open spec fn key_line(g: Seq<Option<Seq<char>>>) -> Seq<char> {
    if g.len() > 2 && g[1] is Some && g[2] is Some {
        g[1]->0 + ";"@ + g[2]->0 + "\n"@
    } else {
        seq![]
    }
}

/// The key lines of a sequence of matches.
pub open spec fn key_lines(matches: Seq<Seq<Option<Seq<char>>>>) -> Seq<char>
    decreases matches.len(),
{
    if matches.len() == 0 {
        seq![]
    } else {
        key_lines(matches.drop_last()) + key_line(matches.last())
    }
}

/// The key lines of every match of `pattern` in `text` (none when the pattern
/// is not accepted).
pub open spec fn pattern_key_lines(pattern: Seq<char>, text: Seq<char>) -> Seq<char> {
    if regex_valid(pattern) {
        key_lines(regex_captures_all(pattern, text))
    } else {
        seq![]
    }
}

/// The depot keys of one Lua script: the `addappid` matches, then the
/// `[depot] = "key"` matches.
pub open spec fn lua_file_keys(content: Seq<char>) -> Seq<char> {
    pattern_key_lines(addappid_pattern(), content) + pattern_key_lines(keyed_pattern(), content)
}

/// The depot keys of several Lua scripts, in order.
pub open spec fn lua_keys(contents: Seq<Seq<char>>) -> Seq<char>
    decreases contents.len(),
{
    if contents.len() == 0 {
        seq![]
    } else {
        lua_keys(contents.drop_last()) + lua_file_keys(contents.last())
    }
}

fn append_key_lines(out: &mut String, pattern: &str, text: &str)
    ensures
        final(out)@ == old(out)@ + pattern_key_lines(pattern@, text@),
{
    let p = match compile_pattern(pattern) {
        Some(p) => p,
        None => {
            proof {
                assert(old(out)@ + Seq::<char>::empty() =~= old(out)@);
            }
            return ;
        },
    };
    let caps = all_captures(&p, text);
    let ghost all = regex_captures_all(pattern@, text@);
    let mut i: usize = 0;
    proof {
        assert(all.take(0) =~= Seq::<Seq<Option<Seq<char>>>>::empty());
    }
    while i < caps.len()
        invariant
            i <= caps.len(),
            caps@.map_values(|g: Vec<Option<String>>| groups_view(g@)) == all,
            all == regex_captures_all(pattern@, text@),
            regex_valid(pattern@),
            out@ == old(out)@ + key_lines(all.take(i as int)),
        decreases caps.len() - i,
    {
        let g = &caps[i];
        let ghost gv = groups_view(g@);
        proof {
            assert(all[i as int] == gv);
            assert(all.take(i + 1).drop_last() =~= all.take(i as int));
        }
        if g.len() > 2 {
            match (&g[1], &g[2]) {
                (Some(a), Some(b)) => {
                    out.append(a.as_str());
                    out.append(";");
                    out.append(b.as_str());
                    out.append("\n");
                },
                _ => {
                    proof {
                        assert(out@ + Seq::<char>::empty() =~= out@);
                    }
                },
            }
        } else {
            proof {
                assert(out@ + Seq::<char>::empty() =~= out@);
            }
        }
        proof {
            assert(out@ =~= old(out)@ + key_lines(all.take(i + 1)));
        }
        i += 1;
    }
    proof {
        assert(all.take(caps.len() as int) =~= all);
    }
}

/// The depot key file (`depot;key` lines) for the given Lua script contents.
pub fn lua_keys_text(contents: &[String]) -> (r: String)
    ensures
        r@ == lua_keys(contents@.map_values(|s: String| s@)),
{
    let ghost cs = contents@.map_values(|s: String| s@);
    let mut out = String::new();
    let mut i: usize = 0;
    while i < contents.len()
        invariant
            i <= contents.len(),
            cs == contents@.map_values(|s: String| s@),
            out@ == lua_keys(cs.take(i as int)),
        decreases contents.len() - i,
    {
        let text = contents[i].as_str();
        proof {
            assert(cs.take(i + 1).drop_last() =~= cs.take(i as int));
            assert(cs.take(i + 1).last() == text@);
        }
        append_key_lines(&mut out, "addappid\\((\\d+),\\s*\\d+,\\s*\"([A-Za-z0-9]+)\"\\)", text);
        append_key_lines(&mut out, "\\[(\\d+)\\]\\s*=\\s*\"([A-Za-z0-9]+)\"", text);
        proof {
            assert(out@ =~= lua_keys(cs.take(i + 1)));
        }
        i += 1;
    }
    proof {
        assert(cs.take(contents.len() as int) =~= cs);
    }
    out
}

// ---------------------------------------------------------------------------
// Download planning.
// ---------------------------------------------------------------------------

/// The characters a game folder name keeps: alphanumeric ones and spaces.
pub open spec fn folder_name_chars(s: Seq<char>) -> Seq<char>
    decreases s.len(),
{
    if s.len() == 0 {
        seq![]
    } else {
        let prev = folder_name_chars(s.drop_last());
        let c = s.last();
        if unicode_alphanumeric(c) || c == ' ' {
            prev.push(c)
        } else {
            prev
        }
    }
}

/// The folder name for a game: its name without characters other than
/// alphanumeric ones and spaces, and without leading or trailing white space.
pub fn sanitize_game_name(game_name: &str) -> (r: String)
    ensures
        r@ == trim(folder_name_chars(game_name@)),
{
    let chars = chars_of(game_name);
    let mut kept: Vec<char> = Vec::new();
    let mut i: usize = 0;
    while i < chars.len()
        invariant
            i <= chars.len(),
            chars@ == game_name@,
            kept@ == folder_name_chars(chars@.take(i as int)),
        decreases chars.len() - i,
    {
        let c = chars[i];
        proof {
            assert(chars@.take(i + 1).drop_last() =~= chars@.take(i as int));
        }
        if is_alphanumeric(c) || c == ' ' {
            kept.push(c);
        }
        i += 1;
    }
    proof {
        assert(chars@.take(chars.len() as int) =~= chars@);
    }
    let trimmed = trim_chars(&kept);
    string_from_chars(&trimmed)
}

/// The folder downloads go to: the target folder, or "downloads" when none is given.
pub fn download_base_dir(target_dir: &str) -> (r: String)
    ensures
        r@ == if target_dir@.len() == 0 {
            "downloads"@
        } else {
            target_dir@
        },
{
    if target_dir.is_empty() {
        "downloads".to_string()
    } else {
        owned(target_dir)
    }
}

/// Whether each depot downloads to a subfolder named after it (when more than
/// one depot is downloaded) rather than to the game folder itself.
pub fn uses_depot_subdirs(depot_count: usize) -> (r: bool)
    ensures
        r == (depot_count > 1),
{
    depot_count > 1
}

/// The answer when no depot was selected.
pub fn require_depots(depots: &[DepotInfo]) -> (r: Result<(), String>)
    ensures
        depots@.len() == 0 <==> r is Err,
        r matches Err(e) ==> e@ == "No depots selected."@,
{
    if depots.len() == 0 {
        Err("No depots selected.".to_string())
    } else {
        Ok(())
    }
}

/// The DepotDownloader arguments for one depot.
pub open spec fn downloader_args(
    app_id: Seq<char>,
    depot: DepotInfo,
    keys_path: Seq<char>,
    output_dir: Seq<char>,
) -> Seq<Seq<char>> {
    seq![
        "-app"@,
        app_id,
        "-depot"@,
        depot.depot_id@,
        "-manifest"@,
        depot.manifest_id@,
        "-manifestfile"@,
        depot.file_path@,
        "-depotkeys"@,
        keys_path,
        "-dir"@,
        output_dir,
        "-max-downloads"@,
        "16"@,
    ]
}

/// The command-line arguments that download `depot` of `app_id` into
/// `output_dir`, with the depot keys in `keys_path`.
pub fn depot_downloader_args(
    app_id: &str,
    depot: &DepotInfo,
    keys_path: &str,
    output_dir: &str,
) -> (r: Vec<String>)
    ensures
        r@.map_values(|s: String| s@) == downloader_args(app_id@, *depot, keys_path@, output_dir@),
{
    let r = vec![
        "-app".to_string(),
        owned(app_id),
        "-depot".to_string(),
        depot.depot_id.clone(),
        "-manifest".to_string(),
        depot.manifest_id.clone(),
        "-manifestfile".to_string(),
        depot.file_path.clone(),
        "-depotkeys".to_string(),
        owned(keys_path),
        "-dir".to_string(),
        owned(output_dir),
        "-max-downloads".to_string(),
        "16".to_string(),
    ];
    assert(r@.map_values(|s: String| s@) =~= downloader_args(
        app_id@,
        *depot,
        keys_path@,
        output_dir@,
    ));
    r
}

/// The error when DepotDownloader fails for a depot.
pub fn depot_failure_message(depot_id: &str) -> (r: String)
    ensures
        r@ == "DepotDownloader failed for depot "@ + depot_id@,
{
    concat("DepotDownloader failed for depot ", depot_id)
}

/// The answer when every selected depot downloaded.
pub fn download_complete_message(app_id: &str) -> (r: String)
    ensures
        r@ == "Download complete for "@ + app_id@,
{
    concat("Download complete for ", app_id)
}

/// The address of an app's manifest bundle on the Morrenus manifest service.
pub fn morrenus_manifest_url(app_id: &str) -> (r: String)
    ensures
        r@ == "https://manifest.morrenus.xyz/api/v1/manifest/"@ + app_id@,
{
    concat("https://manifest.morrenus.xyz/api/v1/manifest/", app_id)
}

/// Where DepotDownloaderMod is looked for, in order.
pub fn depot_downloader_candidates() -> (r: Vec<&'static str>)
    ensures
        r@.map_values(|s: &str| s@) == seq![
            "DepotDownloaderMod.exe"@,
            "DepotDownloaderMod/net9.0/DepotDownloaderMod.exe"@,
            "../DepotDownloaderMod/net9.0/DepotDownloaderMod.exe"@,
            "../DepotDownloaderMod.exe"@,
        ],
{
    let r = vec![
        "DepotDownloaderMod.exe",
        "DepotDownloaderMod/net9.0/DepotDownloaderMod.exe",
        "../DepotDownloaderMod/net9.0/DepotDownloaderMod.exe",
        "../DepotDownloaderMod.exe",
    ];
    assert(r@.map_values(|s: &str| s@) =~= seq![
        "DepotDownloaderMod.exe"@,
        "DepotDownloaderMod/net9.0/DepotDownloaderMod.exe"@,
        "../DepotDownloaderMod/net9.0/DepotDownloaderMod.exe"@,
        "../DepotDownloaderMod.exe"@,
    ]);
    r
}

/// The index of the first candidate that is present, if any.
pub fn first_present(present: &[bool]) -> (r: Option<usize>)
    ensures
        match r {
            Some(i) => i < present.len() && present[i as int] && forall|j: int|
                0 <= j < i ==> !present[j],
            None => forall|j: int| 0 <= j < present.len() ==> !present[j],
        },
{
    let mut i: usize = 0;
    while i < present.len()
        invariant
            i <= present.len(),
            forall|j: int| 0 <= j < i ==> !present[j],
        decreases present.len() - i,
    {
        if present[i] {
            return Some(i);
        }
        i += 1;
    }
    None
}

// ---------------------------------------------------------------------------
// What the key text holds.
// ---------------------------------------------------------------------------

/// A piece of either part of a concatenation is a piece of the whole.
proof fn lemma_substring_in_concat(a: Seq<char>, b: Seq<char>, x: Seq<char>)
    ensures
        has_substring(a, x) ==> has_substring(a + b, x),
        has_substring(b, x) ==> has_substring(a + b, x),
{
    if has_substring(a, x) {
        let i = choose|i: int| occurs_at(a, x, i);
        assert((a + b).subrange(i, i + x.len()) =~= x);
        assert(occurs_at(a + b, x, i));
    }
    if has_substring(b, x) {
        let i = choose|i: int| occurs_at(b, x, i);
        assert((a + b).subrange(a.len() + i, a.len() + i + x.len()) =~= x);
        assert(occurs_at(a + b, x, a.len() + i));
    }
}

/// A piece of a piece is a piece.
proof fn lemma_substring_trans(s: Seq<char>, y: Seq<char>, x: Seq<char>)
    requires
        has_substring(s, y),
        has_substring(y, x),
    ensures
        has_substring(s, x),
{
    let i = choose|i: int| occurs_at(s, y, i);
    let j = choose|j: int| occurs_at(y, x, j);
    assert(s.subrange(i + j, i + j + x.len()) =~= x) by {
        assert forall|k: int| 0 <= k < x.len() implies s.subrange(i + j, i + j + x.len())[k] == x[k] by {
            assert(y.subrange(j, j + x.len())[k] == y[j + k]);
            assert(s.subrange(i, i + y.len())[j + k] == s[i + j + k]);
        }
    }
    assert(occurs_at(s, x, i + j));
}

/// Each match's line is among the key lines.
proof fn lemma_key_line_in_lines(ms: Seq<Seq<Option<Seq<char>>>>, i: int)
    requires
        0 <= i < ms.len(),
    ensures
        has_substring(key_lines(ms), key_line(ms[i])),
    decreases ms.len(),
{
    let x = key_line(ms[i]);
    if i == ms.len() - 1 {
        assert(key_lines(ms).subrange(
            key_lines(ms.drop_last()).len() as int,
            (key_lines(ms.drop_last()).len() + x.len()) as int,
        ) =~= x);
        assert(occurs_at(key_lines(ms), x, key_lines(ms.drop_last()).len() as int));
    } else {
        lemma_key_line_in_lines(ms.drop_last(), i);
        assert(ms.drop_last()[i] == ms[i]);
        lemma_substring_in_concat(key_lines(ms.drop_last()), key_line(ms.last()), x);
    }
}

/// Each script's keys are among the keys of all scripts.
proof fn lemma_file_keys_in_keys(contents: Seq<Seq<char>>, f: int)
    requires
        0 <= f < contents.len(),
    ensures
        has_substring(lua_keys(contents), lua_file_keys(contents[f])),
    decreases contents.len(),
{
    let x = lua_file_keys(contents[f]);
    if f == contents.len() - 1 {
        let pre = lua_keys(contents.drop_last());
        assert(lua_keys(contents).subrange(pre.len() as int, (pre.len() + x.len()) as int) =~= x);
        assert(occurs_at(lua_keys(contents), x, pre.len() as int));
    } else {
        lemma_file_keys_in_keys(contents.drop_last(), f);
        assert(contents.drop_last()[f] == contents[f]);
        lemma_substring_in_concat(lua_keys(contents.drop_last()), lua_file_keys(contents.last()), x);
    }
}

/// Every key that a script states is in the key text: for each match of either
/// pattern in any of the scripts whose depot and key groups both took part,
/// the text holds the line `<depot>;<key>` and its line end.
pub proof fn law_every_match_gives_key(
    contents: Seq<Seq<char>>,
    f: int,
    pattern: Seq<char>,
    i: int,
)
    requires
        0 <= f < contents.len(),
        pattern == addappid_pattern() || pattern == keyed_pattern(),
        regex_valid(pattern),
        0 <= i < regex_captures_all(pattern, contents[f]).len(),
        regex_captures_all(pattern, contents[f])[i].len() > 2,
        regex_captures_all(pattern, contents[f])[i][1] is Some,
        regex_captures_all(pattern, contents[f])[i][2] is Some,
    ensures
        has_substring(
            lua_keys(contents),
            regex_captures_all(pattern, contents[f])[i][1]->0 + ";"@ + regex_captures_all(
                pattern,
                contents[f],
            )[i][2]->0 + "\n"@,
        ),
{
    let ms = regex_captures_all(pattern, contents[f]);
    let line = ms[i][1]->0 + ";"@ + ms[i][2]->0 + "\n"@;
    lemma_key_line_in_lines(ms, i);
    let a = pattern_key_lines(addappid_pattern(), contents[f]);
    let b = pattern_key_lines(keyed_pattern(), contents[f]);
    lemma_substring_in_concat(a, b, line);
    lemma_file_keys_in_keys(contents, f);
    lemma_substring_trans(lua_keys(contents), lua_file_keys(contents[f]), line);
}

/// How many line ends a text holds.
pub open spec fn line_count(s: Seq<char>) -> nat {
    s.filter(|c: char| c == '\n').len()
}

/// A match whose depot and key groups both took part.
pub open spec fn has_key_groups(g: Seq<Option<Seq<char>>>) -> bool {
    g.len() > 2 && g[1] is Some && g[2] is Some
}

/// No line end in the text.
pub open spec fn single_line(s: Seq<char>) -> bool {
    forall|k: int| 0 <= k < s.len() ==> s[k] != '\n'
}

proof fn lemma_single_line_count(s: Seq<char>)
    requires
        single_line(s),
    ensures
        line_count(s) == 0,
    decreases s.len(),
{
    reveal(Seq::filter);
    if s.len() > 0 {
        lemma_single_line_count(s.drop_last());
    }
}

proof fn lemma_key_line_count(g: Seq<Option<Seq<char>>>)
    requires
        has_key_groups(g) ==> single_line(g[1]->0) && single_line(g[2]->0),
    ensures
        line_count(key_line(g)) == if has_key_groups(g) {
            1nat
        } else {
            0nat
        },
{
    reveal(Seq::filter);
    if has_key_groups(g) {
        let d = g[1]->0;
        let k = g[2]->0;
        reveal_strlit(";");
        reveal_strlit("\n");
        let nl = |c: char| c == '\n';
        Seq::filter_distributes_over_add(d + ";"@ + k, "\n"@, nl);
        Seq::filter_distributes_over_add(d + ";"@, k, nl);
        Seq::filter_distributes_over_add(d, ";"@, nl);
        lemma_single_line_count(d);
        lemma_single_line_count(k);
        lemma_single_line_count(";"@);
        assert(("\n"@).drop_last() =~= Seq::<char>::empty());
        assert(line_count("\n"@) == 1);
    } else {
        assert(key_line(g) =~= Seq::<char>::empty());
    }
}

/// The key text of a pattern has one line per match whose depot and key
/// groups both took part (when no captured depot or key holds a line end).
pub proof fn law_one_line_per_key(pattern: Seq<char>, text: Seq<char>)
    requires
        regex_valid(pattern),
        forall|i: int|
            0 <= i < regex_captures_all(pattern, text).len() && has_key_groups(
                #[trigger] regex_captures_all(pattern, text)[i],
            ) ==> single_line(regex_captures_all(pattern, text)[i][1]->0) && single_line(
                regex_captures_all(pattern, text)[i][2]->0,
            ),
    ensures
        line_count(pattern_key_lines(pattern, text)) == regex_captures_all(pattern, text).filter(
            |g: Seq<Option<Seq<char>>>| has_key_groups(g),
        ).len(),
{
    lemma_lines_per_key(regex_captures_all(pattern, text));
}

proof fn lemma_lines_per_key(ms: Seq<Seq<Option<Seq<char>>>>)
    requires
        forall|i: int|
            0 <= i < ms.len() && has_key_groups(#[trigger] ms[i]) ==> single_line(ms[i][1]->0)
                && single_line(ms[i][2]->0),
    ensures
        line_count(key_lines(ms)) == ms.filter(|g: Seq<Option<Seq<char>>>| has_key_groups(g)).len(),
    decreases ms.len(),
{
    reveal(Seq::filter);
    if ms.len() == 0 {
        assert(key_lines(ms) =~= Seq::<char>::empty());
    } else {
        let init = ms.drop_last();
        assert forall|i: int|
            0 <= i < init.len() && has_key_groups(#[trigger] init[i]) implies single_line(init[i][1]->0)
                && single_line(init[i][2]->0) by {
            assert(init[i] == ms[i]);
        }
        lemma_lines_per_key(init);
        assert(ms[ms.len() - 1] == ms.last());
        lemma_key_line_count(ms.last());
        Seq::filter_distributes_over_add(key_lines(init), key_line(ms.last()), |c: char| c == '\n');
    }
}

/// The characters kept for a game's folder name are exactly its letters,
/// digits and spaces, in order (`sanitize_game_name` then trims white space
/// from both ends).
pub proof fn law_folder_name_keeps_alphanumerics(name: Seq<char>)
    ensures
        folder_name_chars(name) == name.filter(|c: char| unicode_alphanumeric(c) || c == ' '),
    decreases name.len(),
{
    reveal(Seq::filter);
    if name.len() > 0 {
        law_folder_name_keeps_alphanumerics(name.drop_last());
    }
}

} // verus!

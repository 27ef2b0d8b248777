//! Steamless (SteamStub unpacker) invocation: which executables to process,
//! the command line, and how a run is reported.
use vstd::prelude::*;
use crate::text::{
    chars_of, contains_chars, has_substring, lowercase, owned, str_contains,
    string_from_chars, to_lowercase,
};

verus! {

broadcast use vstd::string::group_string_axioms;

/// Steamless command-line options.
#[derive(Debug, Clone, Copy)]
pub struct SteamlessOptions {
    pub quiet: bool,
    pub keep_bind: bool,
    pub keep_stub: bool,
    pub dump_payload: bool,
    pub dump_drmp: bool,
    pub realign: bool,
    pub recalc_checksum: bool,
    pub experimental: bool,
}

impl Default for SteamlessOptions {
    fn default() -> (r: SteamlessOptions)
        ensures
            !r.quiet && !r.keep_bind && !r.keep_stub && !r.dump_payload && !r.dump_drmp
                && !r.realign && !r.recalc_checksum && !r.experimental,
    {
        SteamlessOptions {
            quiet: false,
            keep_bind: false,
            keep_stub: false,
            dump_payload: false,
            dump_drmp: false,
            realign: false,
            recalc_checksum: false,
            experimental: false,
        }
    }
}

/// What processing one executable did.
#[derive(Debug, Clone)]
pub struct SteamlessResult {
    pub file: String,
    pub success: bool,
    pub message: String,
    pub output_file: Option<String>,
}

/// What processing a batch of executables did.
#[derive(Debug)]
pub struct BatchSteamlessResult {
    pub total: usize,
    pub successful: usize,
    pub failed: usize,
    pub results: Vec<SteamlessResult>,
}

// ---------------------------------------------------------------------------
// Which executables are processed.
// ---------------------------------------------------------------------------

/// Name fragments of executables that are not the game itself (crash
/// handlers, installers, redistributables, launchers, anti-cheat).
pub open spec fn excluded_patterns() -> Seq<Seq<char>> {
    seq![
        "crashhandler"@,
        "unitycrashhandler"@,
        "crashreporter"@,
        "crashpad"@,
        "unins"@,
        "setup"@,
        "installer"@,
        "uninstall"@,
        "redist"@,
        "vcredist"@,
        "dxsetup"@,
        "dotnet"@,
        "ue4prereq"@,
        "eaborig"@,
        "eadesktop"@,
        "easyanticheat"@,
        "beclient"@,
        "beservice"@,
    ]
}

/// Whether an executable is left out: its lower-cased name contains one of
/// the excluded fragments.
pub open spec fn is_excluded(file_name: Seq<char>) -> bool {
    exists|i: int|
        0 <= i < excluded_patterns().len() && has_substring(
            lowercase(file_name),
            #[trigger] excluded_patterns()[i],
        )
}

fn excluded_pattern_list() -> (r: Vec<&'static str>)
    ensures
        r@.map_values(|s: &str| s@) == excluded_patterns(),
{
    let r = vec![
        "crashhandler",
        "unitycrashhandler",
        "crashreporter",
        "crashpad",
        "unins",
        "setup",
        "installer",
        "uninstall",
        "redist",
        "vcredist",
        "dxsetup",
        "dotnet",
        "ue4prereq",
        "eaborig",
        "eadesktop",
        "easyanticheat",
        "beclient",
        "beservice",
    ];
    assert(r@.map_values(|s: &str| s@) =~= excluded_patterns());
    r
}

/// Whether an executable is left out (see `is_excluded`).
pub fn should_exclude_exe(file_name: &str) -> (r: bool)
    ensures
        r == is_excluded(file_name@),
{
    let lower_s = to_lowercase(file_name);
    let lower = chars_of(lower_s.as_str());
    let patterns = excluded_pattern_list();
    let mut i: usize = 0;
    while i < patterns.len()
        invariant
            i <= patterns.len(),
            lower@ == lowercase(file_name@),
            patterns@.map_values(|s: &str| s@) == excluded_patterns(),
            forall|j: int| 0 <= j < i ==> !has_substring(lower@, #[trigger] excluded_patterns()[j]),
        decreases patterns.len() - i,
    {
        let p = chars_of(patterns[i]);
        proof {
            assert(excluded_patterns()[i as int] == patterns@[i as int]@);
        }
        if contains_chars(&lower, &p) {
            return true;
        }
        i += 1;
    }
    false
}

/// ASCII lower-casing of one character.
pub open spec fn ascii_lower(c: char) -> char {
    if 'A' <= c && c <= 'Z' {
        ((c as u32) + 32) as char
    } else {
        c
    }
}

fn ascii_lower_exec(c: char) -> (r: char)
    ensures
        r == ascii_lower(c),
{
    if 'A' <= c && c <= 'Z' {
        let b = (c as u8) + 32;
        b as char
    } else {
        c
    }
}

/// Whether a file with extension `extension` and name `file_name` is processed:
/// an `exe` extension in any ASCII letter case, and a name that is not excluded.
pub fn is_game_executable(extension: &str, file_name: &str) -> (r: bool)
    ensures
        r == (extension@.map_values(|c: char| ascii_lower(c)) == "exe"@ && !is_excluded(
            file_name@,
        )),
{
    let ext = chars_of(extension);
    let mut lower: Vec<char> = Vec::new();
    let mut i: usize = 0;
    while i < ext.len()
        invariant
            i <= ext.len(),
            ext@ == extension@,
            lower@ == extension@.take(i as int).map_values(|c: char| ascii_lower(c)),
        decreases ext.len() - i,
    {
        lower.push(ascii_lower_exec(ext[i]));
        i += 1;
        assert(lower@ =~= extension@.take(i as int).map_values(|c: char| ascii_lower(c)));
    }
    assert(extension@.take(ext.len() as int) =~= extension@);
    let lower_ext = string_from_chars(&lower);
    lower_ext == "exe".to_string() && !should_exclude_exe(file_name)
}

/// Where Steamless.CLI is looked for, in order.
pub fn steamless_candidates() -> (r: Vec<&'static str>)
    ensures
        r@.map_values(|s: &str| s@) == seq![
            "Steamless.CLI.exe"@,
            "Steamless.v3.1.0.5.-.by.atom0s/Steamless.CLI.exe"@,
            "../Steamless.v3.1.0.5.-.by.atom0s/Steamless.CLI.exe"@,
            "tools/Steamless.CLI.exe"@,
        ],
{
    let r = vec![
        "Steamless.CLI.exe",
        "Steamless.v3.1.0.5.-.by.atom0s/Steamless.CLI.exe",
        "../Steamless.v3.1.0.5.-.by.atom0s/Steamless.CLI.exe",
        "tools/Steamless.CLI.exe",
    ];
    assert(r@.map_values(|s: &str| s@) =~= seq![
        "Steamless.CLI.exe"@,
        "Steamless.v3.1.0.5.-.by.atom0s/Steamless.CLI.exe"@,
        "../Steamless.v3.1.0.5.-.by.atom0s/Steamless.CLI.exe"@,
        "tools/Steamless.CLI.exe"@,
    ]);
    r
}

// ---------------------------------------------------------------------------
// The command line.
// ---------------------------------------------------------------------------

/// `[flag]` when `on`, nothing otherwise.
pub open spec fn opt(on: bool, flag: Seq<char>) -> Seq<Seq<char>> {
    if on {
        seq![flag]
    } else {
        seq![]
    }
}

/// The Steamless options as flags, in command-line order.
pub open spec fn option_bits(o: SteamlessOptions) -> Seq<bool> {
    seq![
        o.quiet,
        o.keep_bind,
        o.keep_stub,
        o.dump_payload,
        o.dump_drmp,
        o.realign,
        o.recalc_checksum,
        o.experimental,
    ]
}

/// The command-line flag of each option, in the order of `option_bits`.
pub open spec fn flag_names() -> Seq<Seq<char>> {
    seq![
        "--quiet"@,
        "--keepbind"@,
        "--keepstub"@,
        "--dumppayload"@,
        "--dumpdrmp"@,
        "--realign"@,
        "--recalcchecksum"@,
        "--exp"@,
    ]
}

/// The file, then the flag `names[i]` for each `bits[i]` that is set, in order.
pub open spec fn args_with(file_path: Seq<char>, bits: Seq<bool>, names: Seq<Seq<char>>) -> Seq<
    Seq<char>,
>
    decreases bits.len(),
{
    if bits.len() == 0 {
        seq![file_path]
    } else {
        args_with(file_path, bits.drop_last(), names.drop_last()) + opt(bits.last(), names.last())
    }
}

/// The Steamless arguments: the file, then each enabled option in a fixed order.
pub open spec fn cli_args(file_path: Seq<char>, o: SteamlessOptions) -> Seq<Seq<char>> {
    args_with(file_path, option_bits(o), flag_names())
}

fn push_opt(args: &mut Vec<String>, on: bool, flag: &str)
    ensures
        final(args)@.map_values(|s: String| s@) == old(args)@.map_values(|s: String| s@) + opt(
            on,
            flag@,
        ),
{
    let ghost before = args@;
    if on {
        args.push(owned(flag));
        assert(args@.map_values(|s: String| s@) =~= before.map_values(|s: String| s@) + seq![
            flag@,
        ]);
    } else {
        assert(args@.map_values(|s: String| s@) =~= before.map_values(|s: String| s@) + Seq::<
            Seq<char>,
        >::empty());
    }
}

/// The Steamless command-line arguments for a file.
pub fn build_cli_args(file_path: &str, options: &SteamlessOptions) -> (r: Vec<String>)
    ensures
        r@.map_values(|s: String| s@) == cli_args(file_path@, *options),
{
    let bits: Vec<bool> = vec![
        options.quiet,
        options.keep_bind,
        options.keep_stub,
        options.dump_payload,
        options.dump_drmp,
        options.realign,
        options.recalc_checksum,
        options.experimental,
    ];
    let names: Vec<&str> = vec![
        "--quiet",
        "--keepbind",
        "--keepstub",
        "--dumppayload",
        "--dumpdrmp",
        "--realign",
        "--recalcchecksum",
        "--exp",
    ];
    let ghost ns = names@.map_values(|n: &str| n@);
    assert(bits@ =~= option_bits(*options));
    assert(ns =~= flag_names());
    let mut args: Vec<String> = Vec::new();
    args.push(owned(file_path));
    assert(args@.map_values(|s: String| s@) =~= seq![file_path@]);
    assert(bits@.take(0) =~= Seq::<bool>::empty());
    let mut i: usize = 0;
    while i < bits.len()
        invariant
            i <= bits.len(),
            bits.len() == names.len(),
            bits@ == option_bits(*options),
            ns == names@.map_values(|n: &str| n@),
            ns == flag_names(),
            args@.map_values(|s: String| s@) == args_with(
                file_path@,
                bits@.take(i as int),
                ns.take(i as int),
            ),
        decreases bits.len() - i,
    {
        proof {
            assert(bits@.take(i + 1).drop_last() =~= bits@.take(i as int));
            assert(ns.take(i + 1).drop_last() =~= ns.take(i as int));
            assert(bits@.take(i + 1).last() == bits@[i as int]);
            assert(ns.take(i + 1).last() == names@[i as int]@);
        }
        push_opt(&mut args, bits[i], names[i]);
        i += 1;
    }
    assert(bits@.take(8) =~= bits@);
    assert(ns.take(8) =~= ns);
    args
}

// ---------------------------------------------------------------------------
// Reporting a run.
// ---------------------------------------------------------------------------

/// The name a run is reported under: the file name, or "Unknown".
pub fn file_label(file_name: Option<String>) -> (r: String)
    ensures
        r@ == match file_name {
            Some(n) => n@,
            None => "Unknown"@,
        },
{
    match file_name {
        Some(n) => n,
        None => "Unknown".to_string(),
    }
}

/// A Steamless output line saying the file is not SteamStub-protected.
pub open spec fn says_not_protected(line: Seq<char>) -> bool {
    has_substring(line, "All unpackers failed"@) || has_substring(line, "not protected"@)
        || has_substring(line, "No valid"@)
}

/// Whether any output line says the file is not SteamStub-protected.
pub fn reports_not_protected(lines: &[String]) -> (r: bool)
    ensures
        r == exists|i: int| 0 <= i < lines@.len() && says_not_protected(#[trigger] lines@[i]@),
{
    let mut i: usize = 0;
    while i < lines.len()
        invariant
            i <= lines.len(),
            forall|j: int| 0 <= j < i ==> !says_not_protected(#[trigger] lines@[j]@),
        decreases lines.len() - i,
    {
        let l = lines[i].as_str();
        if str_contains(l, "All unpackers failed") || str_contains(l, "not protected")
            || str_contains(l, "No valid") {
            return true;
        }
        i += 1;
    }
    false
}

/// The unpacked file Steamless left: `<name>.unpacked.exe` first, then
/// `<name>.exe.unpacked.exe`, each only if it exists.
pub fn unpacked_output(
    output_path: String,
    output_exists: bool,
    alt_path: String,
    alt_exists: bool,
) -> (r: Option<String>)
    ensures
        r == if output_exists {
            Some(output_path)
        } else if alt_exists {
            Some(alt_path)
        } else {
            None
        },
{
    if output_exists {
        Some(output_path)
    } else if alt_exists {
        Some(alt_path)
    } else {
        None
    }
}

/// The message after a Steamless run, before any file swapping.
pub open spec fn run_message(unpacked: bool, not_protected: bool, exit_ok: bool) -> Seq<char> {
    if unpacked {
        " Successfully unpacked - SteamStub DRM removed"@
    } else if not_protected {
        " Not SteamStub protected - no action needed (may only need emulator)"@
    } else if exit_ok {
        " Completed but no output file (may not be Steam protected)"@
    } else {
        " Processing failed - check if this is a valid game executable"@
    }
}

/// The message after a Steamless run (see `run_message`).
pub fn unpack_message(unpacked: bool, not_protected: bool, exit_ok: bool) -> (r: String)
    ensures
        r@ == run_message(unpacked, not_protected, exit_ok),
{
    if unpacked {
        " Successfully unpacked - SteamStub DRM removed".to_string()
    } else if not_protected {
        " Not SteamStub protected - no action needed (may only need emulator)".to_string()
    } else if exit_ok {
        " Completed but no output file (may not be Steam protected)".to_string()
    } else {
        " Processing failed - check if this is a valid game executable".to_string()
    }
}

/// The message after putting the unpacked file in place of the original:
/// `backup_error` when the original could not be moved aside, else
/// `replace_error` when the unpacked file could not take its name.
pub fn swap_message(backup_error: Option<String>, replace_error: Option<String>) -> (r: String)
    ensures
        r@ == match backup_error {
            Some(e) => " Unpacked but failed to backup original: "@ + e@,
            None => match replace_error {
                Some(e) => " Unpacked but failed to replace original: "@ + e@,
                None => " SteamStub removed & replaced original (backup created)"@,
            },
        },
{
    match backup_error {
        Some(e) => crate::text::concat(" Unpacked but failed to backup original: ", e.as_str()),
        None => match replace_error {
            Some(e) => crate::text::concat(" Unpacked but failed to replace original: ", e.as_str()),
            None => " SteamStub removed & replaced original (backup created)".to_string(),
        },
    }
}

/// A failed run of one file.
pub fn steamless_failure(file: String, message: String) -> (r: SteamlessResult)
    ensures
        r.file == file,
        !r.success,
        r.message == message,
        r.output_file is None,
{
    SteamlessResult { file, success: false, message, output_file: None }
}

/// Number of successful results.
pub open spec fn count_successful(results: Seq<SteamlessResult>) -> nat
    decreases results.len(),
{
    if results.len() == 0 {
        0
    } else {
        count_successful(results.drop_last()) + if results.last().success {
            1nat
        } else {
            0nat
        }
    }
}

proof fn lemma_count_successful_bound(results: Seq<SteamlessResult>)
    ensures
        count_successful(results) <= results.len(),
    decreases results.len(),
{
    if results.len() > 0 {
        lemma_count_successful_bound(results.drop_last());
    }
}

/// The batch report: how many files succeeded and failed, with every result
/// in processing order.
pub fn summarize_batch(results: Vec<SteamlessResult>) -> (r: BatchSteamlessResult)
    ensures
        r.total == results@.len(),
        r.successful == count_successful(results@),
        r.failed == results@.len() - count_successful(results@),
        r.results@ == results@,
{
    let mut successful: usize = 0;
    let mut failed: usize = 0;
    let mut i: usize = 0;
    while i < results.len()
        invariant
            i <= results.len(),
            successful == count_successful(results@.take(i as int)),
            successful + failed == i,
        decreases results.len() - i,
    {
        proof {
            assert(results@.take(i + 1).drop_last() =~= results@.take(i as int));
        }
        if results[i].success {
            successful += 1;
        } else {
            failed += 1;
        }
        i += 1;
    }
    proof {
        assert(results@.take(results.len() as int) =~= results@);
    }
    BatchSteamlessResult { total: results.len(), successful, failed, results }
}

/// In every batch report, the successful and failed counts add up to the total,
/// and a batch succeeds entirely exactly when every result is successful.
pub proof fn law_batch_counts(results: Seq<SteamlessResult>)
    ensures
        count_successful(results) <= results.len(),
        count_successful(results) == results.len() <==> forall|i: int|
            0 <= i < results.len() ==> #[trigger] results[i].success,
    decreases results.len(),
{
    lemma_count_successful_bound(results);
    if results.len() > 0 {
        law_batch_counts(results.drop_last());
        lemma_count_successful_bound(results.drop_last());
        if count_successful(results) == results.len() {
            assert forall|i: int| 0 <= i < results.len() implies #[trigger] results[i].success by {
                if i < results.len() - 1 {
                    assert(results.drop_last()[i] == results[i]);
                }
            }
        }
        if forall|i: int| 0 <= i < results.len() ==> #[trigger] results[i].success {
            assert forall|i: int| 0 <= i < results.drop_last().len() implies #[trigger] results.drop_last()[i].success by {
                assert(results.drop_last()[i] == results[i]);
            }
            assert(results[results.len() - 1].success);
        }
    }
}

/// `idx` picks, in increasing order, positions of `b` that hold the items of
/// `a` one by one.
#[verifier::opaque]
pub open spec fn embeds<A>(idx: Seq<int>, a: Seq<A>, b: Seq<A>) -> bool {
    &&& idx.len() == a.len()
    &&& forall|i: int| 0 <= i < idx.len() ==> 0 <= #[trigger] idx[i] < b.len() && b[idx[i]] == a[i]
    &&& forall|i: int, j: int| 0 <= i < j < idx.len() ==> #[trigger] idx[i] < #[trigger] idx[j]
}

/// `a` is `b` with some items left out, the rest in the same order.
pub open spec fn is_subsequence<A>(a: Seq<A>, b: Seq<A>) -> bool {
    exists|idx: Seq<int>| embeds(idx, a, b)
}

/// Every option enabled in `small` is enabled in `large`.
pub open spec fn options_within(small: SteamlessOptions, large: SteamlessOptions) -> bool {
    &&& small.quiet ==> large.quiet
    &&& small.keep_bind ==> large.keep_bind
    &&& small.keep_stub ==> large.keep_stub
    &&& small.dump_payload ==> large.dump_payload
    &&& small.dump_drmp ==> large.dump_drmp
    &&& small.realign ==> large.realign
    &&& small.recalc_checksum ==> large.recalc_checksum
    &&& small.experimental ==> large.experimental
}

/// How many positions have `large[i]` set and `small[i]` not.
pub open spec fn added_count(small: Seq<bool>, large: Seq<bool>) -> nat
    decreases large.len(),
{
    if large.len() == 0 {
        0
    } else {
        added_count(small.drop_last(), large.drop_last()) + if large.last() && !small.last() {
            1nat
        } else {
            0nat
        }
    }
}

/// How many options `large` enables that `small` does not.
pub open spec fn added_options(small: SteamlessOptions, large: SteamlessOptions) -> nat {
    added_count(option_bits(small), option_bits(large))
}

/// Appending a flag to both argument lists, or only to the longer one, keeps
/// the embedding.
proof fn lemma_embed_opt(
    idx: Seq<int>,
    a: Seq<Seq<char>>,
    b: Seq<Seq<char>>,
    x: bool,
    y: bool,
    f: Seq<char>,
) -> (r: Seq<int>)
    requires
        embeds(idx, a, b),
        x ==> y,
    ensures
        embeds(r, a + opt(x, f), b + opt(y, f)),
        (b + opt(y, f)).len() == (a + opt(x, f)).len() + (b.len() - a.len()) + if y && !x {
            1int
        } else {
            0int
        },
        a.len() > 0 ==> (a + opt(x, f))[0] == a[0],
        b.len() > 0 ==> (b + opt(y, f))[0] == b[0],
{
    reveal(embeds);
    let b2 = b + opt(y, f);
    if x {
        let r = idx.push(b.len() as int);
        assert(a + opt(x, f) =~= a.push(f));
        assert(b2 =~= b.push(f));
        assert forall|i: int| 0 <= i < r.len() implies 0 <= #[trigger] r[i] < b2.len() && b2[r[i]]
            == (a + opt(x, f))[i] by {
            if i < idx.len() {
                assert(r[i] == idx[i]);
            }
        }
        assert forall|i: int, j: int| 0 <= i < j < r.len() implies #[trigger] r[i] < #[trigger] r[j] by {
            if j < idx.len() {
                assert(r[i] == idx[i] && r[j] == idx[j]);
            } else {
                assert(r[i] == idx[i]);
            }
        }
        r
    } else {
        assert(a + opt(x, f) =~= a);
        assert forall|i: int| 0 <= i < idx.len() implies 0 <= #[trigger] idx[i] < b2.len() && b2[idx[i]]
            == a[i] by {
            assert(b2[idx[i]] == b[idx[i]]);
        }
        idx
    }
}

/// Over any flag lists of one length where each flag set in `bs` is set in
/// `bl`: the arguments for `bs` embed in those for `bl`, both begin with the
/// file, and the second is longer by the flags added.
proof fn lemma_args_embed(file_path: Seq<char>, bs: Seq<bool>, bl: Seq<bool>, names: Seq<Seq<char>>) -> (r: Seq<int>)
    requires
        bs.len() == bl.len(),
        names.len() == bs.len(),
        forall|i: int| 0 <= i < bs.len() && #[trigger] bs[i] ==> bl[i],
    ensures
        args_with(file_path, bs, names).len() > 0,
        args_with(file_path, bl, names).len() > 0,
        embeds(r, args_with(file_path, bs, names), args_with(file_path, bl, names)),
        args_with(file_path, bl, names).len() == args_with(file_path, bs, names).len()
            + added_count(bs, bl),
        args_with(file_path, bs, names)[0] == file_path,
        args_with(file_path, bl, names)[0] == file_path,
    decreases bs.len(),
{
    if bs.len() == 0 {
        let r: Seq<int> = seq![0int];
        assert(embeds(r, seq![file_path], seq![file_path])) by {
            reveal(embeds);
        }
        r
    } else {
        let bs0 = bs.drop_last();
        let bl0 = bl.drop_last();
        assert forall|i: int| 0 <= i < bs0.len() && #[trigger] bs0[i] implies bl0[i] by {
            assert(bs[i]);
        }
        let idx = lemma_args_embed(file_path, bs0, bl0, names.drop_last());
        lemma_embed_opt(
            idx,
            args_with(file_path, bs0, names.drop_last()),
            args_with(file_path, bl0, names.drop_last()),
            bs.last(),
            bl.last(),
            names.last(),
        )
    }
}

/// Enabling more options only adds flags: the shorter argument list is the
/// longer one with the added flags left out, both start with the file, and
/// they differ in length by the number of options added.
pub proof fn law_more_options_add_flags(
    file_path: Seq<char>,
    small: SteamlessOptions,
    large: SteamlessOptions,
)
    requires
        options_within(small, large),
    ensures
        is_subsequence(cli_args(file_path, small), cli_args(file_path, large)),
        cli_args(file_path, small)[0] == file_path,
        cli_args(file_path, large)[0] == file_path,
        cli_args(file_path, large).len() == cli_args(file_path, small).len() + added_options(
            small,
            large,
        ),
{
    let bs = option_bits(small);
    let bl = option_bits(large);
    assert forall|i: int| 0 <= i < bs.len() && #[trigger] bs[i] implies bl[i] by {}
    let idx = lemma_args_embed(file_path, bs, bl, flag_names());
    assert(embeds(idx, cli_args(file_path, small), cli_args(file_path, large)));
}

} // verus!

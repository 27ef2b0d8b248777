use steam_downloader::steamless::{
    build_cli_args, file_label, is_game_executable, reports_not_protected, should_exclude_exe,
    steamless_candidates, steamless_failure, summarize_batch, swap_message, unpack_message,
    unpacked_output, SteamlessOptions, SteamlessResult,
};
use steam_downloader::text::decimal_string;

fn result(ok: bool) -> SteamlessResult {
    SteamlessResult { file: "g.exe".to_string(), success: ok, message: String::new(), output_file: None }
}

#[test]
fn excluded_executables() {
    assert!(should_exclude_exe("UnityCrashHandler64.exe"));
    assert!(should_exclude_exe("unins000.exe"));
    assert!(should_exclude_exe("VC_redist.x64.exe"));
    assert!(should_exclude_exe("EasyAntiCheat_Setup.exe"));
    assert!(!should_exclude_exe("Game.exe"));
}

#[test]
fn game_executables() {
    assert!(is_game_executable("exe", "Game.exe"));
    assert!(is_game_executable("EXE", "GAME.EXE"));
    assert!(!is_game_executable("dll", "Game.dll"));
    assert!(!is_game_executable("exe", "setup.exe"));
}

#[test]
fn cli_args_default_and_all() {
    assert_eq!(build_cli_args("C:/g/Game.exe", &SteamlessOptions::default()), vec!["C:/g/Game.exe"]);
    let all = SteamlessOptions {
        quiet: true,
        keep_bind: true,
        keep_stub: true,
        dump_payload: true,
        dump_drmp: true,
        realign: true,
        recalc_checksum: true,
        experimental: true,
    };
    assert_eq!(
        build_cli_args("g.exe", &all),
        vec!["g.exe", "--quiet", "--keepbind", "--keepstub", "--dumppayload", "--dumpdrmp", "--realign", "--recalcchecksum", "--exp"]
    );
    let some = SteamlessOptions { realign: true, quiet: true, ..SteamlessOptions::default() };
    assert_eq!(build_cli_args("g.exe", &some), vec!["g.exe", "--quiet", "--realign"]);
}

#[test]
fn run_reporting() {
    assert_eq!(file_label(None), "Unknown");
    assert_eq!(file_label(Some("a.exe".to_string())), "a.exe");
    assert!(reports_not_protected(&["x".to_string(), "[!] All unpackers failed to unpack file.".to_string()]));
    assert!(!reports_not_protected(&["Successfully unpacked file!".to_string()]));
    assert_eq!(unpack_message(true, true, false), " Successfully unpacked - SteamStub DRM removed");
    assert_eq!(unpack_message(false, true, true), " Not SteamStub protected - no action needed (may only need emulator)");
    assert_eq!(unpack_message(false, false, true), " Completed but no output file (may not be Steam protected)");
    assert_eq!(unpack_message(false, false, false), " Processing failed - check if this is a valid game executable");
    assert_eq!(unpacked_output("a".to_string(), false, "b".to_string(), true), Some("b".to_string()));
    assert_eq!(unpacked_output("a".to_string(), true, "b".to_string(), true), Some("a".to_string()));
    assert_eq!(unpacked_output("a".to_string(), false, "b".to_string(), false), None);
}

#[test]
fn swap_messages() {
    assert_eq!(swap_message(None, None), " SteamStub removed & replaced original (backup created)");
    assert_eq!(
        swap_message(Some("Failed to backup original: denied".to_string()), Some("x".to_string())),
        " Unpacked but failed to backup original: Failed to backup original: denied"
    );
    assert_eq!(swap_message(None, Some("busy".to_string())), " Unpacked but failed to replace original: busy");
}

#[test]
fn batch_counts_add_up() {
    let b = summarize_batch(vec![result(true), result(false), result(true)]);
    assert_eq!(b.total, 3);
    assert_eq!(b.successful, 2);
    assert_eq!(b.failed, 1);
    assert_eq!(b.results.len(), 3);
    let e = summarize_batch(vec![]);
    assert_eq!((e.total, e.successful, e.failed), (0, 0, 0));
}

#[test]
fn failure_result() {
    let r = steamless_failure("a.exe".to_string(), "Failed to start Steamless: x".to_string());
    assert!(!r.success);
    assert!(r.output_file.is_none());
    assert_eq!(r.file, "a.exe");
}

#[test]
fn steamless_locations() {
    assert_eq!(steamless_candidates().len(), 4);
    assert_eq!(steamless_candidates()[3], "tools/Steamless.CLI.exe");
}

#[test]
fn decimal_formatting() {
    assert_eq!(decimal_string(0), "0");
    assert_eq!(decimal_string(7), "7");
    assert_eq!(decimal_string(1234567890), "1234567890");
    assert_eq!(decimal_string(u64::MAX), u64::MAX.to_string());
}

#[test]
fn more_options_only_add_flags() {
    let small = SteamlessOptions { realign: true, ..SteamlessOptions::default() };
    let large = SteamlessOptions { quiet: true, realign: true, experimental: true, ..SteamlessOptions::default() };
    let a = build_cli_args("g.exe", &small);
    let b = build_cli_args("g.exe", &large);
    assert_eq!(a, vec!["g.exe", "--realign"]);
    assert_eq!(b, vec!["g.exe", "--quiet", "--realign", "--exp"]);
    assert_eq!(b.len(), a.len() + 2);
}

use steam_downloader::goldberg::{
    apply_failure, apply_report, detect_dll_architecture, emulator_candidates, emulator_dll_name,
    emulator_variant, get_goldberg_languages, interface_generator_name, is_backup_name,
    is_steam_api_dll, join_strings, restored_message, restored_name, steam_settings_files,
    steamclient_dll_name, crack_copy_plan, ApplyAction, ApplyEvent, ApplyProgress, GoldbergConfig,
};

fn pe(machine: u16, pe_offset: u32) -> Vec<u8> {
    let mut d = vec![0u8; pe_offset as usize + 64];
    d[0] = b'M';
    d[1] = b'Z';
    d[0x3C..0x40].copy_from_slice(&pe_offset.to_le_bytes());
    let o = pe_offset as usize;
    d[o] = b'P';
    d[o + 1] = b'E';
    d[o + 4..o + 6].copy_from_slice(&machine.to_le_bytes());
    d
}

#[test]
fn default_config() {
    let c = GoldbergConfig::default();
    assert_eq!(c.account_name, "Goldberg");
    assert_eq!(c.steam_id, "76561197960287930");
    assert_eq!(c.language, "english");
    assert_eq!(c.listen_port, 47584);
    assert!(c.custom_broadcast_ip.is_none());
    assert!(!c.use_experimental && !c.enable_overlay && !c.generate_interfaces);
}

#[test]
fn settings_files_for_default_config() {
    let f = steam_settings_files("480", &GoldbergConfig::default());
    assert_eq!(f.steam_appid_txt, "480");
    assert_eq!(
        f.configs_user_ini,
        "[user::general]\naccount_name=Goldberg\naccount_steamid=76561197960287930\nlanguage=english\nip_country=US\n\n[user::saves]\n# local_save_path=\n"
    );
    assert_eq!(
        f.configs_main_ini,
        "[main::connectivity]\ndisable_networking=0\nlisten_port=47584\noffline=0\n\n\n[main::general]\nenable_account_avatar=0\n"
    );
    assert!(f.custom_broadcasts_txt.is_none());
    assert!(f.configs_overlay_ini.is_none());
}

#[test]
fn settings_files_with_options() {
    let mut c = GoldbergConfig::default();
    c.custom_save_location = Some("saves".to_string());
    c.custom_broadcast_ip = Some("192.168.1.255".to_string());
    c.offline_mode = true;
    c.disable_networking = true;
    c.enable_overlay = true;
    c.listen_port = 0;
    let f = steam_settings_files("70", &c);
    assert!(f.configs_user_ini.contains("\n[user::saves]\nlocal_save_path=saves\n"));
    assert_eq!(
        f.configs_main_ini,
        "[main::connectivity]\ndisable_networking=1\nlisten_port=0\noffline=1\n# Custom broadcast will use custom_broadcasts.txt\n\n[main::general]\nenable_account_avatar=0\n"
    );
    assert_eq!(f.custom_broadcasts_txt.as_deref(), Some("192.168.1.255"));
    assert_eq!(
        f.configs_overlay_ini.as_deref(),
        Some("[overlay::general]\nenable_experimental_overlay=1\n")
    );
}

#[test]
fn pe_architectures() {
    assert_eq!(detect_dll_architecture(&pe(0x014c, 0x80)), Ok("x32".to_string()));
    assert_eq!(detect_dll_architecture(&pe(0x8664, 0x100)), Ok("x64".to_string()));
    assert_eq!(
        detect_dll_architecture(&pe(0xaa64, 0x80)),
        Err("Unknown architecture: 0xAA64".to_string())
    );
    assert_eq!(
        detect_dll_architecture(&pe(0x01c4, 0x80)),
        Err("Unknown architecture: 0x01C4".to_string())
    );
}

#[test]
fn pe_errors() {
    assert_eq!(detect_dll_architecture(&[0u8; 10]), Err("File too small to be a valid DLL".to_string()));
    let mut d = pe(0x8664, 0x80);
    d[0] = b'X';
    assert_eq!(detect_dll_architecture(&d), Err("Not a valid PE file".to_string()));
    let mut d = pe(0x8664, 0x80);
    d[0x3C..0x40].copy_from_slice(&0xffff_fff0u32.to_le_bytes());
    assert_eq!(detect_dll_architecture(&d), Err("Invalid PE offset".to_string()));
    let mut d = pe(0x8664, 0x80);
    d[0x81] = b'X';
    assert_eq!(detect_dll_architecture(&d), Err("Invalid PE signature".to_string()));
}

#[test]
fn steam_api_names() {
    assert!(is_steam_api_dll("steam_api.dll"));
    assert!(is_steam_api_dll("STEAM_API64.DLL"));
    assert!(!is_steam_api_dll("steam_api.dll.original"));
    assert_eq!(emulator_dll_name("Steam_Api64.dll"), "steam_api64.dll");
    assert_eq!(emulator_dll_name("steam_api.dll"), "steam_api.dll");
    assert_eq!(emulator_variant(true), "experimental");
    assert_eq!(emulator_variant(false), "regular");
    assert_eq!(steamclient_dll_name("x64"), "steamclient64.dll");
    assert_eq!(steamclient_dll_name("x32"), "steamclient.dll");
    assert_eq!(interface_generator_name("x64"), "generate_interfaces_x64.exe");
    assert_eq!(interface_generator_name("x32"), "generate_interfaces_x32.exe");
    assert_eq!(emulator_candidates(), vec!["emu-win-release/release", "../emu-win-release/release", "gbe_fork/release"]);
}

#[test]
fn languages_list() {
    let l = get_goldberg_languages();
    assert_eq!(l.len(), 30);
    assert_eq!(l[0], "english");
    assert_eq!(l[3], "schinese");
    assert_eq!(l[29], "vietnamese");
}

#[test]
fn apply_reports() {
    let ok = apply_report(vec!["a/steam_api.dll".to_string()], vec!["b".to_string()], &[], Some("c".to_string()));
    assert!(ok.success);
    assert_eq!(ok.message, "Successfully applied Goldberg Emulator to 1 file(s)");
    let warn = apply_report(
        vec!["a".to_string(), "b".to_string()],
        vec![],
        &["e1".to_string(), "e2".to_string()],
        None,
    );
    assert!(!warn.success);
    assert_eq!(warn.message, "Applied with warnings: 2. Errors: e1, e2");
    let fail = apply_report(vec![], vec![], &["boom".to_string()], None);
    assert_eq!(fail.message, "Failed: boom");
    let f = apply_failure("No steam_api.dll or steam_api64.dll found in game folder".to_string());
    assert!(!f.success);
    assert!(f.steam_api_files.is_empty() && f.backups_created.is_empty() && f.config_path.is_none());
}

#[test]
fn join_with_separator() {
    assert_eq!(join_strings(&[], ", "), "");
    assert_eq!(join_strings(&["a".to_string()], ", "), "a");
    assert_eq!(join_strings(&["a".to_string(), "b".to_string(), "c".to_string()], "-"), "a-b-c");
}

#[test]
fn restore_names() {
    assert!(is_backup_name("steam_api64.dll.original"));
    assert!(!is_backup_name("steam_api64.dll"));
    assert_eq!(restored_name("steam_api64.dll.original"), "steam_api64.dll");
    assert_eq!(restored_name("x.original.dll.original"), "x.dll");
    assert_eq!(restored_message(2), "Restored 2 original file(s)");
    assert_eq!(restored_message(0), "Restored 0 original file(s)");
}

#[test]
fn apply_progress_collects_errors_and_goes_on() {
    let config = GoldbergConfig { use_experimental: true, ..GoldbergConfig::default() };
    let mut p = ApplyProgress::new(&config);

    // First DLL: architecture unreadable, an error and on to the next.
    let a = p.step(ApplyEvent::ArchitectureFailed("bad header".to_string()));
    assert!(matches!(a, ApplyAction::NextDll));

    // Second DLL: backup, copy, extras.
    let a = p.step(ApplyEvent::ArchitectureFound("steam_api64.dll".to_string(), "x64".to_string()));
    assert!(matches!(a, ApplyAction::MakeBackup));
    let a = p.step(ApplyEvent::BackupCreated("g/steam_api64.dll.original".to_string()));
    match a {
        ApplyAction::CopyEmulator { variant, arch, dll_name } => {
            assert_eq!(variant, "experimental");
            assert_eq!(arch, "x64");
            assert_eq!(dll_name, "steam_api64.dll");
        }
        _ => panic!("expected a copy"),
    }
    let a = p.step(ApplyEvent::Replaced("g/steam_api64.dll".to_string()));
    match a {
        ApplyAction::CopyExtras { arch, steamclient, interfaces } => {
            assert_eq!(arch, "x64");
            assert_eq!(steamclient, Some("steamclient64.dll"));
            assert!(!interfaces);
        }
        _ => panic!("expected extras"),
    }

    // Third DLL: no backup, emulator missing; not counted as replaced.
    p.step(ApplyEvent::ArchitectureFound("steam_api.dll".to_string(), "x86".to_string()));
    let a = p.step(ApplyEvent::BackupFailed);
    match a {
        ApplyAction::CopyEmulator { dll_name, .. } => assert_eq!(dll_name, "steam_api.dll"),
        _ => panic!("expected a copy"),
    }
    let a = p.step(ApplyEvent::EmulatorMissing("\"e/x86/steam_api.dll\"".to_string()));
    assert!(matches!(a, ApplyAction::NextDll));

    let r = p.finish(Some(Err("settings failed".to_string())));
    assert!(!r.success);
    assert_eq!(r.steam_api_files, vec!["g/steam_api64.dll"]);
    assert_eq!(r.backups_created, vec!["g/steam_api64.dll.original"]);
    assert_eq!(r.config_path, None);
    assert_eq!(
        r.message,
        "Applied with warnings: 1. Errors: bad header, Emulator DLL not found: \"e/x86/steam_api.dll\", settings failed"
    );
}

#[test]
fn apply_progress_copy_failure_and_success_report() {
    let mut p = ApplyProgress::new(&GoldbergConfig::default());
    p.step(ApplyEvent::ArchitectureFound("steam_api.dll".to_string(), "x86".to_string()));
    p.step(ApplyEvent::BackupFailed);
    let a = p.step(ApplyEvent::CopyFailed("denied".to_string()));
    assert!(matches!(a, ApplyAction::NextDll));
    let r = p.finish(None);
    assert!(!r.success);
    assert_eq!(r.message, "Failed: Failed to copy emulator: denied");

    let mut q = ApplyProgress::new(&GoldbergConfig::default());
    q.step(ApplyEvent::ArchitectureFound("steam_api.dll".to_string(), "x86".to_string()));
    q.step(ApplyEvent::BackupFailed);
    match q.step(ApplyEvent::Replaced("g/steam_api.dll".to_string())) {
        ApplyAction::CopyExtras { steamclient, .. } => assert_eq!(steamclient, None),
        _ => panic!("expected extras"),
    }
    let r = q.finish(Some(Ok("g/steam_settings".to_string())));
    assert!(r.success);
    assert_eq!(r.config_path, Some("g/steam_settings".to_string()));
    assert_eq!(r.message, "Successfully applied Goldberg Emulator to 1 file(s)");
}

#[test]
fn crack_copy_plan_picks_files() {
    let p = crack_copy_plan(true, "Steam_Api64.dll", "x64");
    assert_eq!(p.variant, "experimental");
    assert_eq!(p.dll_name, "steam_api64.dll");
    assert_eq!(p.steamclient, Some("steamclient64.dll"));
    let q = crack_copy_plan(false, "steam_api.dll", "x86");
    assert_eq!(q.variant, "regular");
    assert_eq!(q.dll_name, "steam_api.dll");
    assert_eq!(q.steamclient, None);
}

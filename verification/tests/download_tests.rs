use steam_downloader::commands::{
    explorer_path, greet, lists_dotnet9_runtime, select_depots, StagingState,
};
use steam_downloader::download::{
    depot_downloader_args, depot_downloader_candidates, depot_failure_message, depot_info_for_file,
    download_base_dir, download_complete_message, first_present, lua_keys_text,
    morrenus_manifest_url, require_depots, sanitize_game_name, uses_depot_subdirs, DepotInfo,
};
use steam_downloader::manifest::ManifestSummary;

fn depot(id: &str) -> DepotInfo {
    DepotInfo {
        depot_id: id.to_string(),
        manifest_id: format!("{}99", id),
        file_path: format!("temp/{}_{}99.manifest", id, id),
        file_count: 1,
        total_size: 2,
        os: "Windows".to_string(),
    }
}

#[test]
fn depot_from_manifest_name() {
    let d = depot_info_for_file("228990_1829726630299308803.manifest", "t/x.manifest", None).unwrap();
    assert_eq!(d.depot_id, "228990");
    assert_eq!(d.manifest_id, "1829726630299308803");
    assert_eq!(d.file_path, "t/x.manifest");
    assert_eq!(d.file_count, 0);
    assert_eq!(d.total_size, 0);
    assert_eq!(d.os, "Unknown");
}

#[test]
fn depot_from_manifest_name_with_summary() {
    let s = ManifestSummary { total_size: 9, file_count: 3, top_files: vec![], os: "Linux".to_string() };
    let d = depot_info_for_file("abc_12_34.manifest", "p", Some(s)).unwrap();
    assert_eq!(d.depot_id, "12");
    assert_eq!(d.manifest_id, "34");
    assert_eq!(d.file_count, 3);
    assert_eq!(d.total_size, 9);
    assert_eq!(d.os, "Linux");
}

#[test]
fn non_manifest_names_are_not_depots() {
    assert!(depot_info_for_file("228990.manifest", "p", None).is_none());
    assert!(depot_info_for_file("1_2.manifest.bak", "p", None).is_none());
    assert!(depot_info_for_file("a_b.manifest", "p", None).is_none());
}

#[test]
fn lua_keys_both_forms() {
    let lua = "addappid(228980)\naddappid(228990, 1, \"44d8c45ce229a11c4f231a3d2a350eaf80b0d69a8af938ec7ccca720f694b0e8\")\n[229000] = \"abcDEF123\"\n".to_string();
    let other = "addappid(5,0,\"KEY\")".to_string();
    assert_eq!(
        lua_keys_text(&[lua, other]),
        "228990;44d8c45ce229a11c4f231a3d2a350eaf80b0d69a8af938ec7ccca720f694b0e8\n229000;abcDEF123\n5;KEY\n"
    );
    assert_eq!(lua_keys_text(&[]), "");
}

#[test]
fn sanitize_keeps_letters_digits_spaces() {
    assert_eq!(sanitize_game_name("  Half-Life 2: Episode One™  "), "HalfLife 2 Episode One");
    assert_eq!(sanitize_game_name("Portal"), "Portal");
    assert_eq!(sanitize_game_name("!!!"), "");
    assert_eq!(sanitize_game_name("Pokémon Ünïcödé"), "Pokémon Ünïcödé");
}

#[test]
fn base_dir_default() {
    assert_eq!(download_base_dir(""), "downloads");
    assert_eq!(download_base_dir("D:/Games"), "D:/Games");
}

#[test]
fn subdirs_only_for_several_depots() {
    assert!(!uses_depot_subdirs(0));
    assert!(!uses_depot_subdirs(1));
    assert!(uses_depot_subdirs(2));
}

#[test]
fn no_depots_is_an_error() {
    assert_eq!(require_depots(&[]), Err("No depots selected.".to_string()));
    assert_eq!(require_depots(&[depot("1")]), Ok(()));
}

#[test]
fn downloader_arguments() {
    let d = depot("731");
    let args = depot_downloader_args("730", &d, "temp/keys.txt", "downloads/CS2");
    assert_eq!(
        args,
        vec![
            "-app", "730", "-depot", "731", "-manifest", "73199", "-manifestfile",
            "temp/731_73199.manifest", "-depotkeys", "temp/keys.txt", "-dir", "downloads/CS2",
            "-max-downloads", "16",
        ]
    );
}

#[test]
fn download_messages() {
    assert_eq!(depot_failure_message("731"), "DepotDownloader failed for depot 731");
    assert_eq!(download_complete_message("730"), "Download complete for 730");
    assert_eq!(morrenus_manifest_url("730"), "https://manifest.morrenus.xyz/api/v1/manifest/730");
}

#[test]
fn candidates_and_first_present() {
    assert_eq!(depot_downloader_candidates()[0], "DepotDownloaderMod.exe");
    assert_eq!(depot_downloader_candidates().len(), 4);
    assert_eq!(first_present(&[false, true, true]), Some(1));
    assert_eq!(first_present(&[false, false]), None);
    assert_eq!(first_present(&[]), None);
}

#[test]
fn select_keeps_order_of_staged_depots() {
    let all = vec![depot("1"), depot("2"), depot("3")];
    let picked = select_depots(&all, &["3".to_string(), "1".to_string(), "9".to_string()]);
    let ids: Vec<&str> = picked.iter().map(|d| d.depot_id.as_str()).collect();
    assert_eq!(ids, vec!["1", "3"]);
}

#[test]
fn staging_round_trip() {
    let mut s = StagingState::default();
    assert_eq!(
        s.selection(&["1".to_string()]).unwrap_err(),
        "No staging directory. Call prepare first."
    );
    s.stage("temp_depot_data".to_string(), "730".to_string(), "D:/g".to_string(), vec![depot("1"), depot("2")]);
    let d = s.selection(&["2".to_string()]).unwrap();
    assert_eq!(d.staging_dir, "temp_depot_data");
    assert_eq!(d.app_id, "730");
    assert_eq!(d.target_dir, "D:/g");
    assert_eq!(d.depots.len(), 1);
    assert_eq!(d.depots[0].depot_id, "2");
    s.clear();
    assert!(s.selection(&["2".to_string()]).is_err());
    assert!(s.staging_dir.is_none());
    assert!(s.depots.is_empty());
}

#[test]
fn greeting_and_dotnet() {
    assert_eq!(greet("Gabe"), "Hello, Gabe!");
    assert!(lists_dotnet9_runtime("Microsoft.AspNetCore.App 9.0.1 [x]\nMicrosoft.NETCore.App 9.0.1 [y]\n"));
    assert!(!lists_dotnet9_runtime("Microsoft.NETCore.App 8.0.11 [y]\n"));
    assert!(!lists_dotnet9_runtime(""));
}

#[test]
fn explorer_paths_use_backslashes() {
    assert_eq!(explorer_path("C:/Games/Portal 2"), "C:\\Games\\Portal 2");
    assert_eq!(explorer_path("plain"), "plain");
}

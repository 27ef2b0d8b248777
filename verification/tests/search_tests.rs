use steam_downloader::appid::{search_games, AppEntry};
use steam_downloader::commands::search_games as command_search;
use steam_downloader::steam::{fallback_game_name, game_name_from_response, get_header_image_url, GameInfo};

fn apps() -> Vec<AppEntry> {
    vec![
        AppEntry { appid: 10, name: "Counter-Strike".to_string() },
        AppEntry { appid: 730, name: "Counter-Strike 2".to_string() },
        AppEntry { appid: 570, name: "Dota 2".to_string() },
        AppEntry { appid: 220, name: "Half-Life 2".to_string() },
    ]
}

#[test]
fn search_is_case_insensitive_and_ordered() {
    let r = search_games(&apps(), "COUNTER", 10);
    assert_eq!(r.len(), 2);
    assert_eq!(r[0].appid, "10");
    assert_eq!(r[0].name, "Counter-Strike");
    assert_eq!(
        r[0].header_url,
        "https://shared.fastly.steamstatic.com/store_item_assets/steam/apps/10/header.jpg"
    );
    assert_eq!(r[1].appid, "730");
}

#[test]
fn search_respects_limit() {
    let r = search_games(&apps(), "2", 2);
    assert_eq!(r.len(), 2);
    assert_eq!(r[0].appid, "730");
    assert_eq!(r[1].appid, "570");
    assert!(search_games(&apps(), "2", 0).is_empty());
}

#[test]
fn search_empty_query_matches_everything() {
    assert_eq!(search_games(&apps(), "", 100).len(), 4);
    assert!(search_games(&apps(), "portal", 100).is_empty());
}

#[test]
fn command_search_failed_db_is_empty() {
    assert!(command_search(Err("Database not found. Please update first.".to_string()), "x").is_empty());
    let r = command_search(Ok(apps()), "dota");
    assert_eq!(r.len(), 1);
    assert_eq!(r[0].appid, "570");
    assert_eq!(r[0].name, "Dota 2");
}

#[test]
fn command_search_caps_at_twenty() {
    let many: Vec<AppEntry> = (0..30).map(|i| AppEntry { appid: i, name: format!("Game {}", i) }).collect();
    assert_eq!(command_search(Ok(many), "game").len(), 20);
}

#[test]
fn header_url_format() {
    assert_eq!(
        get_header_image_url("570"),
        "https://shared.fastly.steamstatic.com/store_item_assets/steam/apps/570/header.jpg"
    );
}

#[test]
fn game_name_from_store_response() {
    let body = r#"{"570":{"success":true,"data":{"name":"Dota 2","type":"game"}}}"#;
    assert_eq!(game_name_from_response("570", body), "Dota 2");
}

#[test]
fn game_name_falls_back() {
    assert_eq!(game_name_from_response("570", "not json"), "AppID_570");
    assert_eq!(game_name_from_response("570", r#"{"570":{"success":false}}"#), "AppID_570");
    assert_eq!(game_name_from_response("570", r#"{"570":{"data":{"name":5}}}"#), "AppID_570");
    assert_eq!(game_name_from_response("10", r#"{"570":{"data":{"name":"x"}}}"#), "AppID_10");
    assert_eq!(fallback_game_name("7"), "AppID_7");
}

#[test]
fn game_info_from_appid() {
    let g = GameInfo::from_appid("220", "Half-Life 2".to_string());
    assert_eq!(g.appid, "220");
    assert_eq!(g.name, "Half-Life 2");
    assert_eq!(
        g.header_url,
        "https://shared.fastly.steamstatic.com/store_item_assets/steam/apps/220/header.jpg"
    );
}

//! Steam store lookups: game names and header images.
use vstd::prelude::*;
use crate::text::{concat, concat3, owned};

verus! {

broadcast use vstd::string::group_string_axioms;

#[verifier::external_type_specification]
#[verifier::external_body]
pub struct ExJsonValue(serde_json::Value);

/// Whether serde_json accepts `text` as a JSON document.
pub uninterp spec fn json_parses(text: Seq<char>) -> bool;

/// Whether, in the JSON document `text`, following the object keys `path`
/// from the root reaches a value.
pub uninterp spec fn json_member_exists(text: Seq<char>, path: Seq<Seq<char>>) -> bool;

/// The string at the end of `path` in the JSON document `text`, if that
/// value is a JSON string.
pub uninterp spec fn json_string_at(text: Seq<char>, path: Seq<Seq<char>>) -> Option<Seq<char>>;

/// A value inside a parsed JSON document, with the document text and the
/// object keys that lead to it.
struct JsonNode {
    value: serde_json::Value,
    text: Ghost<Seq<char>>,
    path: Ghost<Seq<Seq<char>>>,
}

/// Parses a JSON document.
///
/// Calls `serde_json::from_str::<serde_json::Value>`; the contract claims that it
/// succeeds exactly when the text is accepted (named `json_parses`) and that the
/// node is the document's root.
#[verifier::external_body]
fn parse_json(text: &str) -> (r: Option<JsonNode>)
    ensures
        r.is_some() == json_parses(text@),
        r matches Some(n) ==> n.text@ == text@ && n.path@ == Seq::<Seq<char>>::empty(),
{
    match serde_json::from_str::<serde_json::Value>(text) {
        Ok(v) => Some(JsonNode { value: v, text: Ghost(text@), path: Ghost(Seq::empty()) }),
        Err(_) => None,
    }
}

/// Looks up an object member.
///
/// Calls `serde_json::Value::get` with a string key; the contract claims that it
/// finds a value exactly when the member exists (named `json_member_exists`) and
/// that the found node is reached by one more key.
#[verifier::external_body]
fn json_get(node: &JsonNode, key: &str) -> (r: Option<JsonNode>)
    ensures
        r.is_some() == json_member_exists(node.text@, node.path@.push(key@)),
        r matches Some(m) ==> m.text@ == node.text@ && m.path@ == node.path@.push(key@),
{
    match node.value.get(key) {
        Some(v) => Some(
            JsonNode { value: v.clone(), text: Ghost(node.text@), path: Ghost(node.path@.push(key@)) },
        ),
        None => None,
    }
}

/// Reads a JSON string value.
///
/// Calls `serde_json::Value::as_str`; the contract names its result
/// (`json_string_at`).
#[verifier::external_body]
fn json_as_str(node: &JsonNode) -> (r: Option<String>)
    ensures
        r matches Some(s) ==> json_string_at(node.text@, node.path@) == Some(s@),
        r is None ==> json_string_at(node.text@, node.path@) is None,
{
    node.value.as_str().map(|s| s.to_string())
}

/// The store header image address of an application.
pub open spec fn header_url_of(appid: Seq<char>) -> Seq<char> {
    "https://shared.fastly.steamstatic.com/store_item_assets/steam/apps/"@ + appid
        + "/header.jpg"@
}

/// The header image URL for a Steam app.
pub fn get_header_image_url(app_id: &str) -> (r: String)
    ensures
        r@ == header_url_of(app_id@),
{
    concat3(
        "https://shared.fastly.steamstatic.com/store_item_assets/steam/apps/",
        app_id,
        "/header.jpg",
    )
}

/// The name used for an app whose store name is unknown.
pub open spec fn fallback_name(app_id: Seq<char>) -> Seq<char> {
    "AppID_"@ + app_id
}

/// `"AppID_<app_id>"`.
pub fn fallback_game_name(app_id: &str) -> (r: String)
    ensures
        r@ == fallback_name(app_id@),
{
    concat("AppID_", app_id)
}

/// The game name chosen from what the store lookup found: `found` is `None`
/// when `<app_id>.data.name` is missing, `Some(None)` when it is not a string.
pub fn name_from_lookup(app_id: &str, found: Option<Option<String>>) -> (r: String)
    ensures
        r@ == match found {
            Some(Some(s)) => s@,
            _ => fallback_name(app_id@),
        },
{
    match found {
        Some(Some(s)) => s,
        _ => fallback_game_name(app_id),
    }
}

/// The key path `<app_id>.data.name` of a store `appdetails` response.
pub open spec fn name_path(app_id: Seq<char>) -> Seq<Seq<char>> {
    seq![app_id, "data"@, "name"@]
}

/// What the store lookup finds in a response body (see `name_from_lookup`).
pub open spec fn store_lookup(body: Seq<char>, app_id: Seq<char>) -> Option<Option<Seq<char>>> {
    if json_parses(body) && json_member_exists(body, seq![app_id]) && json_member_exists(
        body,
        seq![app_id, "data"@],
    ) && json_member_exists(body, name_path(app_id)) {
        Some(json_string_at(body, name_path(app_id)))
    } else {
        None
    }
}

/// The game name in a Steam store `appdetails` response body: the string at
/// `<app_id>.data.name`, or `"AppID_<app_id>"` when the body is not JSON, the
/// member is missing or it is not a string.
pub fn game_name_from_response(app_id: &str, body: &str) -> (r: String)
    ensures
        r@ == match store_lookup(body@, app_id@) {
            Some(Some(s)) => s,
            _ => fallback_name(app_id@),
        },
{
    let found: Option<Option<String>> = match parse_json(body) {
        None => None,
        Some(json) => match json_get(&json, app_id) {
            None => None,
            Some(app_data) => match json_get(&app_data, "data") {
                None => None,
                Some(data) => match json_get(&data, "name") {
                    None => None,
                    Some(name) => Some(json_as_str(&name)),
                },
            },
        },
    };
    proof {
        assert(seq![app_id@] == Seq::<Seq<char>>::empty().push(app_id@));
        assert(seq![app_id@, "data"@] == seq![app_id@].push("data"@));
        assert(name_path(app_id@) == seq![app_id@, "data"@].push("name"@));
    }
    name_from_lookup(app_id, found)
}

/// What the app shows about a game.
#[derive(Debug, Clone)]
pub struct GameInfo {
    pub appid: String,
    pub name: String,
    pub header_url: String,
}

impl GameInfo {
    /// The game info of `app_id`, with the name fetched from the store.
    pub fn from_appid(app_id: &str, name: String) -> (r: GameInfo)
        ensures
            r.appid@ == app_id@,
            r.name@ == name@,
            r.header_url@ == header_url_of(app_id@),
    {
        GameInfo { appid: owned(app_id), name, header_url: get_header_image_url(app_id) }
    }
}

} // verus!

//! Extraction of profile and owned-game data from the remote API's JSON
//! payloads.
//!
//! The payload is handed in as a [`JsonValue`], a plain model of a JSON
//! document (integers stand for the numeric fields the logic reads). The
//! functions here check the expected nested shape, pull the fields out, and
//! filter the game list to entries with positive recorded playtime.

use vstd::prelude::*;
use vstd::string::StringExecFns;
use crate::text::str_eq;

verus! {

/// The profile entry of the "get profile" endpoint.
#[derive(Debug, Clone, PartialEq, Eq)]
pub struct PlayerInfo {
    pub steamid: String,
    pub personaname: String,
}

/// One owned game of the "get owned games" endpoint.
#[derive(Debug, Clone, PartialEq, Eq)]
pub struct Game {
    pub appid: i64,
    pub name: String,
    pub playtime_forever: i32,
}

/// A plain model of a JSON document, as far as the remote payloads go:
/// numbers the logic reads are integers, and an object is its fields in
/// order.
#[derive(Debug, PartialEq, Eq)]
pub enum JsonValue {
    Null,
    Bool(bool),
    Int(i64),
    Str(String),
    Arr(Vec<JsonValue>),
    Obj(Vec<(String, JsonValue)>),
}

/// Errors of the payload extraction.
#[derive(Debug, PartialEq, Eq, Structural, Clone, Copy)]
pub enum ApiError {
    /// The payload lacks the expected nested array.
    RemoteShapeInvalid,
    /// A game entry lacks a field or holds one of the wrong type.
    GameEntriesInvalid,
    /// The profile entry lacks a field or holds one of the wrong type.
    ProfileEntryInvalid,
    /// The players array of the profile payload is empty.
    EmptyResponse,
}

/// The value of the first field with the given name, if any.
pub open spec fn spec_lookup_fields(fields: Seq<(String, JsonValue)>, key: Seq<char>) -> Option<
    JsonValue,
>
    decreases fields.len(),
{
    if fields.len() == 0 {
        None
    } else if fields[0].0@ == key {
        Some(fields[0].1)
    } else {
        spec_lookup_fields(fields.drop_first(), key)
    }
}

/// The named field of an object, if the value is an object and has it.
pub open spec fn spec_field(v: JsonValue, key: Seq<char>) -> Option<JsonValue> {
    match v {
        JsonValue::Obj(fields) => spec_lookup_fields(fields@, key),
        _ => None,
    }
}

/// The elements of an array value, if it is one.
pub open spec fn spec_array(v: JsonValue) -> Option<Seq<JsonValue>> {
    match v {
        JsonValue::Arr(items) => Some(items@),
        _ => None,
    }
}

/// The nested array under the two given field names, as the endpoints shape
/// their payloads: `root.outer.inner` must exist and be an array.
pub open spec fn spec_nested_array(root: JsonValue, outer: Seq<char>, inner: Seq<char>) -> Option<
    Seq<JsonValue>,
> {
    match spec_field(root, outer) {
        Some(level) => match spec_field(level, inner) {
            Some(node) => spec_array(node),
            None => None,
        },
        None => None,
    }
}

/// A game entry: `appid` an integer, `name` a string, `playtime_forever` an
/// integer in range.
pub open spec fn spec_parse_game(v: JsonValue) -> Option<Game> {
    match (spec_field(v, "appid"@), spec_field(v, "name"@), spec_field(v, "playtime_forever"@)) {
        (Some(JsonValue::Int(a)), Some(JsonValue::Str(n)), Some(JsonValue::Int(p))) => if i32::MIN
            <= p <= i32::MAX {
            Some(Game { appid: a, name: n, playtime_forever: p as i32 })
        } else {
            None
        },
        _ => None,
    }
}

/// All game entries parsed, or nothing if any entry is malformed.
pub open spec fn spec_all_games(items: Seq<JsonValue>) -> Option<Seq<Game>>
    decreases items.len(),
{
    if items.len() == 0 {
        Some(Seq::empty())
    } else {
        match (spec_all_games(items.drop_last()), spec_parse_game(items.last())) {
            (Some(front), Some(g)) => Some(front.push(g)),
            _ => None,
        }
    }
}

/// The games with positive recorded playtime, in their original order.
pub open spec fn spec_played_only(games: Seq<Game>) -> Seq<Game>
    decreases games.len(),
{
    if games.len() == 0 {
        Seq::empty()
    } else {
        spec_played_only(games.drop_last()) + (if games.last().playtime_forever > 0 {
            seq![games.last()]
        } else {
            Seq::empty()
        })
    }
}

/// A profile entry: `steamid` and `personaname`, both strings.
pub open spec fn spec_parse_player(v: JsonValue) -> Option<PlayerInfo> {
    match (spec_field(v, "steamid"@), spec_field(v, "personaname"@)) {
        (Some(JsonValue::Str(s)), Some(JsonValue::Str(p))) => Some(
            PlayerInfo { steamid: s, personaname: p },
        ),
        _ => None,
    }
}

/// The query URL of the "get owned games" endpoint for the given
/// credentials.
pub fn games_url(api_key: &str, user_id: &str) -> (r: String)
    ensures
        r@ == "https://api.steampowered.com/IPlayerService/GetOwnedGames/v0001/?key="@
            + api_key@ + "&steamid="@ + user_id@
            + "&include_appinfo=true&include_played_free_games=true&format=json"@,
{
    let url = String::from_str(
        "https://api.steampowered.com/IPlayerService/GetOwnedGames/v0001/?key=",
    );
    let url = url.concat(api_key);
    let url = url.concat("&steamid=");
    let url = url.concat(user_id);
    url.concat("&include_appinfo=true&include_played_free_games=true&format=json")
}

/// The query URL of the "get profile" endpoint for the given credentials.
pub fn profile_url(api_key: &str, user_id: &str) -> (r: String)
    ensures
        r@ == "https://api.steampowered.com/ISteamUser/GetPlayerSummaries/v0002/?key="@
            + api_key@ + "&steamids="@ + user_id@,
{
    let url = String::from_str(
        "https://api.steampowered.com/ISteamUser/GetPlayerSummaries/v0002/?key=",
    );
    let url = url.concat(api_key);
    let url = url.concat("&steamids=");
    url.concat(user_id)
}

/// Looks a field up in an object value.
fn json_field<'a>(v: &'a JsonValue, key: &str) -> (r: Option<&'a JsonValue>)
    ensures
        match spec_field(*v, key@) {
            Some(x) => r is Some && *r.unwrap() == x,
            None => r is None,
        },
{
    match v {
        JsonValue::Obj(fields) => {
            let ghost all = fields@;
            proof {
                assert(all.skip(0) =~= all);
            }
            let mut i: usize = 0;
            while i < fields.len()
                invariant
                    0 <= i <= all.len(),
                    fields@ == all,
                    spec_field(*v, key@) == spec_lookup_fields(all, key@),
                    spec_lookup_fields(all.skip(i as int), key@) == spec_lookup_fields(all, key@),
                decreases all.len() - i,
            {
                proof {
                    assert(all.skip(i as int).drop_first() =~= all.skip(i as int + 1));
                    assert(all.skip(i as int)[0] == all[i as int]);
                }
                if str_eq(fields[i].0.as_str(), key) {
                    proof {
                        assert(spec_lookup_fields(all.skip(i as int), key@) == Some(
                            all[i as int].1,
                        ));
                    }
                    return Some(&fields[i].1);
                }
                i = i + 1;
            }
            proof {
                assert(all.skip(i as int) =~= Seq::<(String, JsonValue)>::empty());
            }
            None
        },
        _ => None,
    }
}

/// The games array of an owned-games payload: `response.games`, which must be
/// an array.
pub open spec fn spec_games_array(root: JsonValue) -> Option<Seq<JsonValue>> {
    spec_nested_array(root, "response"@, "games"@)
}

/// The players array of a profile payload: `response.players`, which must be
/// an array.
pub open spec fn spec_players_array(root: JsonValue) -> Option<Seq<JsonValue>> {
    spec_nested_array(root, "response"@, "players"@)
}

/// Looks up the nested array of a payload.
fn nested_array<'a>(root: &'a JsonValue, inner: &str) -> (r: Option<&'a Vec<JsonValue>>)
    ensures
        match spec_nested_array(*root, "response"@, inner@) {
            Some(items) => r is Some && r.unwrap()@ == items,
            None => r is None,
        },
{
    let level = match json_field(root, "response") {
        Some(x) => x,
        None => {
            return None;
        },
    };
    let node = match json_field(level, inner) {
        Some(x) => x,
        None => {
            return None;
        },
    };
    match node {
        JsonValue::Arr(items) => Some(items),
        _ => None,
    }
}

/// Parses one game entry.
fn parse_game(v: &JsonValue) -> (r: Option<Game>)
    ensures
        r == spec_parse_game(*v),
{
    let appid_field = json_field(v, "appid");
    let name_field = json_field(v, "name");
    let playtime_field = json_field(v, "playtime_forever");
    match (appid_field, name_field, playtime_field) {
        (Some(JsonValue::Int(a)), Some(JsonValue::Str(n)), Some(JsonValue::Int(p))) => {
            if i32::MIN as i64 <= *p && *p <= i32::MAX as i64 {
                Some(Game { appid: *a, name: n.clone(), playtime_forever: *p as i32 })
            } else {
                None
            }
        },
        _ => None,
    }
}

/// Extracts the owned games of a payload: fails when the nested array is
/// missing or an entry is malformed, and otherwise returns exactly the
/// entries with positive recorded playtime, in their original order.
pub fn extract_games(root: &JsonValue) -> (r: Result<Vec<Game>, ApiError>)
    ensures
        match spec_games_array(*root) {
            None => r == Err::<Vec<Game>, ApiError>(ApiError::RemoteShapeInvalid),
            Some(items) => match spec_all_games(items) {
                None => r == Err::<Vec<Game>, ApiError>(ApiError::GameEntriesInvalid),
                Some(games) => r is Ok && r.unwrap()@ == spec_played_only(games),
            },
        },
{
    let items = match nested_array(root, "games") {
        Some(x) => x,
        None => {
            return Err(ApiError::RemoteShapeInvalid);
        },
    };
    let ghost all = items@;
    let mut output: Vec<Game> = Vec::new();
    let ghost parsed: Seq<Game> = Seq::empty();
    let mut parsed = Ghost(parsed);
    let mut i: usize = 0;
    while i < items.len()
        invariant
            0 <= i <= all.len(),
            items@ == all,
            spec_games_array(*root) == Some(all),
            spec_all_games(all.subrange(0, i as int)) == Some(parsed@),
            output@ == spec_played_only(parsed@),
        decreases all.len() - i,
    {
        proof {
            assert(all.subrange(0, i as int + 1).drop_last() =~= all.subrange(0, i as int));
            assert(all.subrange(0, i as int + 1).last() == all[i as int]);
        }
        match parse_game(&items[i]) {
            Some(g) => {
                proof {
                    let extended = parsed@.push(spec_parse_game(all[i as int]).unwrap());
                    assert(extended.drop_last() =~= parsed@);
                }
                if g.playtime_forever > 0 {
                    output.push(g);
                }
                proof {
                    parsed@ = parsed@.push(spec_parse_game(all[i as int]).unwrap());
                }
            },
            None => {
                proof {
                    assert(spec_all_games(all.subrange(0, i as int + 1)) is None);
                    lemma_malformed_entry_spoils_all(all, i as int + 1);
                    assert(spec_all_games(all) is None);
                }
                return Err(ApiError::GameEntriesInvalid);
            },
        }
        i = i + 1;
    }
    proof {
        assert(all.subrange(0, all.len() as int) =~= all);
    }
    Ok(output)
}

/// Once a prefix of the entries fails to parse, the whole list does.
proof fn lemma_malformed_entry_spoils_all(items: Seq<JsonValue>, m: int)
    requires
        0 <= m <= items.len(),
        spec_all_games(items.subrange(0, m)) is None,
    ensures
        spec_all_games(items) is None,
    decreases items.len() - m,
{
    if m == items.len() {
        assert(items.subrange(0, m) =~= items);
    } else {
        assert(items.subrange(0, m + 1).drop_last() =~= items.subrange(0, m));
        lemma_malformed_entry_spoils_all(items, m + 1);
    }
}

/// Extracts the profile of a payload: fails when the nested array is missing,
/// when it is empty, or when its first entry is malformed, and otherwise
/// returns that first entry's fields.
pub fn extract_profile(root: &JsonValue) -> (r: Result<PlayerInfo, ApiError>)
    ensures
        match spec_players_array(*root) {
            None => r == Err::<PlayerInfo, ApiError>(ApiError::RemoteShapeInvalid),
            Some(players) => if players.len() == 0 {
                r == Err::<PlayerInfo, ApiError>(ApiError::EmptyResponse)
            } else {
                match spec_parse_player(players[0]) {
                    None => r == Err::<PlayerInfo, ApiError>(ApiError::ProfileEntryInvalid),
                    Some(p) => r == Ok::<PlayerInfo, ApiError>(p),
                }
            },
        },
{
    let players = match nested_array(root, "players") {
        Some(x) => x,
        None => {
            return Err(ApiError::RemoteShapeInvalid);
        },
    };
    if players.len() == 0 {
        return Err(ApiError::EmptyResponse);
    }
    let first = &players[0];
    let steamid_field = json_field(first, "steamid");
    let personaname_field = json_field(first, "personaname");
    match (steamid_field, personaname_field) {
        (Some(JsonValue::Str(s)), Some(JsonValue::Str(p))) => Ok(
            PlayerInfo { steamid: s.clone(), personaname: p.clone() },
        ),
        _ => Err(ApiError::ProfileEntryInvalid),
    }
}

} // verus!


use steam_cli_launcher::api_methods::{
    extract_games, extract_profile, games_url, profile_url, ApiError, JsonValue,
};

fn game_entry(appid: i64, name: &str, playtime: i64) -> JsonValue {
    JsonValue::Obj(vec![
        ("appid".to_string(), JsonValue::Int(appid)),
        ("name".to_string(), JsonValue::Str(name.to_string())),
        ("playtime_forever".to_string(), JsonValue::Int(playtime)),
    ])
}

fn games_payload(games: Vec<JsonValue>) -> JsonValue {
    JsonValue::Obj(vec![(
        "response".to_string(),
        JsonValue::Obj(vec![("games".to_string(), JsonValue::Arr(games))]),
    )])
}

fn players_payload(players: Vec<JsonValue>) -> JsonValue {
    JsonValue::Obj(vec![(
        "response".to_string(),
        JsonValue::Obj(vec![("players".to_string(), JsonValue::Arr(players))]),
    )])
}

#[test]
fn filtering_keeps_positive_playtime_in_order() {
    let payload = games_payload(vec![
        game_entry(10, "zero", 0),
        game_entry(20, "five", 5),
        game_entry(30, "negative", -1),
        game_entry(40, "lots", 120),
    ]);
    let games = extract_games(&payload).unwrap();
    assert_eq!(games.len(), 2);
    assert_eq!(games[0].appid, 20);
    assert_eq!(games[0].name, "five");
    assert_eq!(games[0].playtime_forever, 5);
    assert_eq!(games[1].appid, 40);
    assert_eq!(games[1].name, "lots");
    assert_eq!(games[1].playtime_forever, 120);
}

#[test]
fn games_missing_array_is_shape_error() {
    let payload = JsonValue::Obj(vec![(
        "response".to_string(),
        JsonValue::Obj(vec![("games".to_string(), JsonValue::Null)]),
    )]);
    assert_eq!(extract_games(&payload).unwrap_err(), ApiError::RemoteShapeInvalid);
    assert_eq!(extract_games(&JsonValue::Null).unwrap_err(), ApiError::RemoteShapeInvalid);
}

#[test]
fn malformed_game_entry_is_an_error() {
    let missing_name = JsonValue::Obj(vec![
        ("appid".to_string(), JsonValue::Int(10)),
        ("playtime_forever".to_string(), JsonValue::Int(5)),
    ]);
    let payload = games_payload(vec![game_entry(20, "fine", 5), missing_name]);
    assert_eq!(extract_games(&payload).unwrap_err(), ApiError::GameEntriesInvalid);

    let oversized = game_entry(30, "big", i64::from(i32::MAX) + 1);
    let payload = games_payload(vec![oversized]);
    assert_eq!(extract_games(&payload).unwrap_err(), ApiError::GameEntriesInvalid);
}

#[test]
fn empty_game_list_is_fine() {
    let payload = games_payload(vec![]);
    assert_eq!(extract_games(&payload).unwrap().len(), 0);
}

#[test]
fn profile_is_read_from_first_player() {
    let player = JsonValue::Obj(vec![
        ("steamid".to_string(), JsonValue::Str("7656".to_string())),
        ("personaname".to_string(), JsonValue::Str("gamer".to_string())),
    ]);
    let other = JsonValue::Obj(vec![
        ("steamid".to_string(), JsonValue::Str("9999".to_string())),
        ("personaname".to_string(), JsonValue::Str("second".to_string())),
    ]);
    let payload = players_payload(vec![player, other]);
    let profile = extract_profile(&payload).unwrap();
    assert_eq!(profile.steamid, "7656");
    assert_eq!(profile.personaname, "gamer");
}

#[test]
fn empty_players_array_is_a_clean_error() {
    let payload = players_payload(vec![]);
    assert_eq!(extract_profile(&payload).unwrap_err(), ApiError::EmptyResponse);
}

#[test]
fn profile_shape_errors_are_told_apart() {
    assert_eq!(extract_profile(&JsonValue::Null).unwrap_err(), ApiError::RemoteShapeInvalid);
    let malformed = JsonValue::Obj(vec![("steamid".to_string(), JsonValue::Int(7))]);
    let payload = players_payload(vec![malformed]);
    assert_eq!(extract_profile(&payload).unwrap_err(), ApiError::ProfileEntryInvalid);
}

#[test]
fn query_urls_are_fixed() {
    assert_eq!(
        games_url("KEY", "7656"),
        "https://api.steampowered.com/IPlayerService/GetOwnedGames/v0001/?key=KEY&steamid=7656&include_appinfo=true&include_played_free_games=true&format=json"
    );
    assert_eq!(
        profile_url("KEY", "7656"),
        "https://api.steampowered.com/ISteamUser/GetPlayerSummaries/v0002/?key=KEY&steamids=7656"
    );
}

use steam_cli_launcher::config::{Config, CredKind, SetupStep, StoreError};

fn setup_mock_db() -> sqlite::Connection {
    let connection = sqlite::Connection::open(":memory:").unwrap();

    connection
        .execute("CREATE TABLE application_data (type TEXT, value TEXT)")
        .unwrap();
    connection
        .execute("CREATE TABLE executable_paths (id INTEGER PRIMARY KEY, exe_path TEXT)")
        .unwrap();
    connection
        .execute("INSERT INTO executable_paths (exe_path) VALUES ('testing')")
        .unwrap();
    connection
        .execute("INSERT INTO executable_paths (exe_path) VALUES ('testing2')")
        .unwrap();
    connection
        .execute("INSERT INTO executable_paths (exe_path) VALUES ('testing3')")
        .unwrap();

    connection
        .execute("INSERT INTO application_data (type, value) VALUES ('api_key', '123')")
        .unwrap();

    connection
}

fn fresh_config() -> Config {
    let connection = sqlite::Connection::open(":memory:").unwrap();
    Config::new(connection).unwrap()
}

#[test]
fn get_api_key_succeeds() {
    let connection = setup_mock_db();
    let wrapper = Config::new(connection).unwrap();

    let api_key: String = match wrapper.get_api_key() {
        Ok(x) => x,
        Err(e) => panic!("get_api_keys_succeeds paniced: {:?}", e),
    };

    println!("{}", &api_key);

    assert_eq!(api_key.len(), 3);
}

#[test]
fn get_executable_paths_succeeds() {
    let connection = setup_mock_db();
    let wrapper = Config::new(connection).unwrap();

    let paths = match wrapper.get_executable_paths() {
        Ok(x) => x,
        Err(e) => panic!("get_executable_paths_failed: {:?}", e),
    };

    assert_eq!(paths.len(), 3);
}

#[test]
fn paths_come_back_in_insertion_order() {
    let mut config = fresh_config();
    assert_eq!(config.get_executable_paths().unwrap().len(), 0);
    config.add_executable_path("/opt/a").unwrap();
    config.add_executable_path("/opt/b").unwrap();
    config.add_executable_path("/opt/a").unwrap();
    let paths = config.get_executable_paths().unwrap();
    assert_eq!(paths, vec!["/opt/a".to_string(), "/opt/b".to_string(), "/opt/a".to_string()]);
}

#[test]
fn get_credential_not_configured_until_set() {
    let mut config = fresh_config();
    assert_eq!(config.get_api_key().unwrap_err(), StoreError::NotConfigured);
    assert_eq!(config.get_user_id().unwrap_err(), StoreError::NotConfigured);
    config.set_user_id("7656").unwrap();
    assert_eq!(config.get_api_key().unwrap_err(), StoreError::NotConfigured);
    assert_eq!(config.get_user_id().unwrap(), "7656");
}

#[test]
fn set_credential_twice_keeps_latest() {
    let mut config = fresh_config();
    config.set_api_key("first").unwrap();
    config.set_api_key("second").unwrap();
    assert_eq!(config.get_api_key().unwrap(), "second");
    config.set_credential(CredKind::ApiKey, "third").unwrap();
    assert_eq!(config.get_credential(CredKind::ApiKey).unwrap(), "third");
}

#[test]
fn new_normalizes_duplicate_rows() {
    let connection = setup_mock_db();
    connection
        .execute("INSERT INTO application_data (type, value) VALUES ('api_key', '456')")
        .unwrap();
    let config = Config::new(connection).unwrap();
    let kept = config.get_api_key().unwrap();
    assert!(kept == "123" || kept == "456");
}

#[test]
fn is_initialized_follows_api_key() {
    let mut config = fresh_config();
    assert!(!config.is_initialized().unwrap());
    config.set_user_id("7656").unwrap();
    assert!(!config.is_initialized().unwrap());
    config.set_api_key("abc").unwrap();
    assert!(config.is_initialized().unwrap());
}

#[test]
fn setup_walks_through_all_steps() {
    let mut config = fresh_config();
    let step = SetupStep::AskExePath;
    let step = steam_cli_launcher::config::setup_apply(&mut config, step, "/opt/client\n").unwrap();
    assert_eq!(step, SetupStep::AskApiKey);
    let step = steam_cli_launcher::config::setup_apply(&mut config, step, "key-1").unwrap();
    assert_eq!(step, SetupStep::AskUserId);
    let step = steam_cli_launcher::config::setup_apply(&mut config, step, "7656").unwrap();
    assert_eq!(step, SetupStep::Done);
    let step = steam_cli_launcher::config::setup_apply(&mut config, step, "ignored").unwrap();
    assert_eq!(step, SetupStep::Done);
    assert_eq!(config.get_api_key().unwrap(), "key-1");
    assert_eq!(config.get_user_id().unwrap(), "7656");
    assert_eq!(config.get_executable_paths().unwrap(), vec!["/opt/client\n".to_string()]);
}

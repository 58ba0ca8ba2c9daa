use steam_cli_launcher::steam::{launch_flag, LaunchCommand, LaunchSession};

#[test]
fn fallback_uses_first_spawnable_path() {
    let paths = vec!["/a".to_string(), "/b".to_string(), "/c".to_string()];
    let mut session = LaunchSession::new(paths, "440");

    match session.command() {
        LaunchCommand::TrySpawn(path, arg) => {
            assert_eq!(path, "/a");
            assert_eq!(arg, "440");
        },
        other => panic!("expected a spawn of /a, got {:?}", other),
    }
    session.spawn_failed();

    match session.command() {
        LaunchCommand::TrySpawn(path, arg) => {
            assert_eq!(path, "/b");
            assert_eq!(arg, "440");
        },
        other => panic!("expected a spawn of /b, got {:?}", other),
    }
    session.spawn_succeeded();

    // /c is never attempted, whatever /b's exit status turns out to be.
    assert_eq!(session.command(), LaunchCommand::Done);
}

#[test]
fn exhausted_paths_give_up() {
    let paths = vec!["/a".to_string(), "/b".to_string()];
    let mut session = LaunchSession::new(paths, "440");
    assert!(matches!(session.command(), LaunchCommand::TrySpawn(_, _)));
    session.spawn_failed();
    assert!(matches!(session.command(), LaunchCommand::TrySpawn(_, _)));
    session.spawn_failed();
    assert_eq!(session.command(), LaunchCommand::GiveUp);
}

#[test]
fn no_paths_give_up_at_once() {
    let session = LaunchSession::new(Vec::new(), "440");
    assert_eq!(session.command(), LaunchCommand::GiveUp);
}

#[test]
fn executable_path_is_handed_out_trimmed() {
    let paths = vec![" /opt/client \n".to_string()];
    let session = LaunchSession::new(paths, "440");
    match session.command() {
        LaunchCommand::TrySpawn(path, _) => assert_eq!(path, "/opt/client"),
        other => panic!("expected a spawn, got {:?}", other),
    }
}

#[test]
fn game_id_is_trimmed_once() {
    let paths = vec!["/a".to_string()];
    let session = LaunchSession::new(paths, "  440 \n");
    match session.command() {
        LaunchCommand::TrySpawn(_, arg) => assert_eq!(arg, "440"),
        other => panic!("expected a spawn, got {:?}", other),
    }
}

#[test]
fn launch_flag_is_fixed() {
    assert_eq!(launch_flag(), "-applaunch");
}

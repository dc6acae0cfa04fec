use extract_repo_url::error::Error;
use extract_repo_url::open::{first_open_action, next_open_action, open_commands, OpenAction};

#[test]
fn no_candidate_is_unsupported() {
    assert_eq!(first_open_action(0), OpenAction::Finish(Err(Error::OpenNotSupported)));
    assert_eq!(first_open_action(3), OpenAction::Launch(0));
}

#[test]
fn success_stops() {
    assert_eq!(next_open_action("https://example.com", 3, 0, true), OpenAction::Finish(Ok(())));
}

#[test]
fn failure_tries_the_next_candidate() {
    assert_eq!(next_open_action("https://example.com", 3, 0, false), OpenAction::Launch(1));
    assert_eq!(next_open_action("https://example.com", 3, 1, false), OpenAction::Launch(2));
}

#[test]
fn last_failure_cannot_open() {
    assert_eq!(
        next_open_action("https://example.com", 3, 2, false),
        OpenAction::Finish(Err(Error::CannotOpenUrl("https://example.com".to_string())))
    );
}

#[test]
fn configured_command_replaces_platform_ones() {
    let platform = vec![vec!["xdg-open".to_string()], vec!["gnome-open".to_string()]];
    assert_eq!(open_commands(Some("true".to_string()), platform.clone()), vec![vec!["true".to_string()]]);
    assert_eq!(open_commands(None, platform.clone()), platform);
}

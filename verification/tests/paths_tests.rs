use dots::config::HomeDirError;
use dots::paths::{expand_home, expand_home_with, repo_clone_path};

#[test]
fn tilde_path_expands_against_home() {
    assert_eq!(
        expand_home_with("~/.config/config.toml", Some("/home/u")),
        Ok("/home/u/.config/config.toml".to_string())
    );
}

#[test]
fn absolute_path_is_untouched() {
    assert_eq!(
        expand_home_with("/etc/config.toml", Some("/home/u")),
        Ok("/etc/config.toml".to_string())
    );
}

#[test]
fn relative_path_is_untouched() {
    assert_eq!(
        expand_home_with("config.toml", Some("/home/u")),
        Ok("config.toml".to_string())
    );
}

#[test]
fn tilde_alone_is_the_home_directory() {
    assert_eq!(expand_home_with("~", Some("/home/u")), Ok("/home/u".to_string()));
}

#[test]
fn tilde_in_a_name_is_not_expanded() {
    assert_eq!(
        expand_home_with("~backup/config.toml", None),
        Ok("~backup/config.toml".to_string())
    );
}

#[test]
fn missing_home_is_an_error() {
    assert_eq!(expand_home_with("~/.config/config.toml", None), Err(HomeDirError));
}

#[test]
fn home_with_trailing_slash_gets_no_second_separator() {
    assert_eq!(
        expand_home_with("~/x", Some("/home/u/")),
        Ok("/home/u/x".to_string())
    );
}

#[test]
fn expand_home_leaves_plain_paths_alone() {
    // Whatever the environment says the home directory is, a path without
    // a tilde never needs it.
    assert_eq!(expand_home("/var/tmp/c.toml"), Ok("/var/tmp/c.toml".to_string()));
}

#[test]
fn clone_target_is_a_fixed_slot_under_home() {
    assert_eq!(repo_clone_path("/home/u"), "/home/u/.dotfiles_repo".to_string());
}

#[test]
fn clone_target_respects_a_trailing_slash() {
    assert_eq!(repo_clone_path("/home/u/"), "/home/u/.dotfiles_repo".to_string());
}

use dots::config::Config;
use dots::store::{encode_config, parse_config};
use dots::Command;

#[test]
fn new_record_holds_the_url_and_names_as_given() {
    let c = Config::new(
        "https://example.com/dots.git",
        vec![".bashrc".to_string(), ".vimrc".to_string()],
    );
    assert_eq!(c.repo_url, "https://example.com/dots.git");
    assert_eq!(c.dotfiles, vec![".bashrc".to_string(), ".vimrc".to_string()]);
}

#[test]
fn initialized_record_persists_the_input_url() {
    // The whole record path of `init`: assemble, write, read back; the URL
    // comes out exactly as it went in.
    let url = "https://example.com/me/dotfiles.git";
    let c = Config::new(url, vec![".bashrc".to_string()]);
    let back = parse_config(&encode_config(&c)).unwrap();
    assert_eq!(back.repo_url, url);
}

#[test]
fn commands_distinguish_init_from_link() {
    let init = Command::Init { repo_url: "https://example.com/d.git".to_string() };
    let link = Command::Link;
    assert!(matches!(init, Command::Init { .. }));
    assert!(matches!(link, Command::Link));
}

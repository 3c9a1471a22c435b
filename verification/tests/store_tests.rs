use dots::config::{Config, ConfigError};
use dots::store::{encode_config, parse_config, read_config};

fn record(url: &str, names: &[&str]) -> Config {
    Config::new(url, names.iter().map(|n| n.to_string()).collect())
}

#[test]
fn encode_writes_the_schema_exactly() {
    let c = record("https://example.com/dots.git", &[".bashrc", ".vimrc"]);
    let text = encode_config(&c);
    assert_eq!(
        text,
        "repo_url = \"https://example.com/dots.git\"\ndotfiles = [\".bashrc\", \".vimrc\"]\n"
    );
}

#[test]
fn encode_writes_an_empty_list() {
    let c = record("https://example.com/dots.git", &[]);
    let text = encode_config(&c);
    assert_eq!(
        text,
        "repo_url = \"https://example.com/dots.git\"\ndotfiles = []\n"
    );
}

#[test]
fn encode_escapes_quotes_and_backslashes() {
    let c = record("https://example.com/a\"b\\c", &[".we\"ird"]);
    let text = encode_config(&c);
    assert_eq!(
        text,
        "repo_url = \"https://example.com/a\\\"b\\\\c\"\ndotfiles = [\".we\\\"ird\"]\n"
    );
}

#[test]
fn encode_escapes_control_characters() {
    let c = record("a\nb\tc", &[]);
    let text = encode_config(&c);
    assert_eq!(text, "repo_url = \"a\\u000ab\\u0009c\"\ndotfiles = []\n");
}

#[test]
fn round_trip_plain_record() {
    let c = record("https://example.com/dots.git", &[".bashrc", ".vimrc"]);
    let back = parse_config(&encode_config(&c)).unwrap();
    assert_eq!(back, c);
}

#[test]
fn round_trip_empty_dotfiles() {
    let c = record("https://example.com/dots.git", &[]);
    let back = parse_config(&encode_config(&c)).unwrap();
    assert_eq!(back, c);
}

#[test]
fn round_trip_awkward_strings() {
    let c = record(
        "ssh://host/p\\ath \"x\"\n\u{7f}",
        &[".a b", ".tab\there", ".q\"uote", ".back\\slash", ".nul\u{0}"],
    );
    let back = parse_config(&encode_config(&c)).unwrap();
    assert_eq!(back, c);
}

#[test]
fn round_trip_non_ascii() {
    let c = record("https://example.com/d\u{00e9}p\u{00f4}t.git", &[".caf\u{00e9}"]);
    let back = parse_config(&encode_config(&c)).unwrap();
    assert_eq!(back, c);
}

#[test]
fn parse_rejects_garbage() {
    assert_eq!(parse_config("nonsense"), Err(ConfigError::Parse));
}

#[test]
fn parse_rejects_empty_text() {
    assert_eq!(parse_config(""), Err(ConfigError::Parse));
}

#[test]
fn parse_rejects_missing_dotfiles_line() {
    assert_eq!(
        parse_config("repo_url = \"https://example.com\"\n"),
        Err(ConfigError::Parse)
    );
}

#[test]
fn parse_rejects_unterminated_string() {
    assert_eq!(
        parse_config("repo_url = \"https://example.com\ndotfiles = []\n"),
        Err(ConfigError::Parse)
    );
}

#[test]
fn parse_rejects_trailing_text() {
    assert_eq!(
        parse_config("repo_url = \"u\"\ndotfiles = []\nextra = 1\n"),
        Err(ConfigError::Parse)
    );
}

#[test]
fn parse_accepts_what_it_wrote_back() {
    let text = "repo_url = \"u\"\ndotfiles = [\".a\"]\n";
    let c = parse_config(text).unwrap();
    assert_eq!(c.repo_url, "u");
    assert_eq!(c.dotfiles, vec![".a".to_string()]);
}

#[test]
fn read_of_missing_file_is_an_io_error() {
    // No content at all must be an error, never a default record.
    assert_eq!(read_config(None), Err(ConfigError::Io));
}

#[test]
fn read_of_present_content_parses_it() {
    let c = record("https://example.com/dots.git", &[".bashrc"]);
    let text = encode_config(&c);
    assert_eq!(read_config(Some(&text)), Ok(c));
}

#[test]
fn second_write_wins() {
    // Writing a record is a function of that record alone: the text written
    // for the second record holds nothing of the first.
    let first = record("https://example.com/old.git", &[".old"]);
    let second = record("https://example.com/new.git", &[".new"]);
    let _ = encode_config(&first);
    let text = encode_config(&second);
    assert!(!text.contains("old"));
    assert_eq!(parse_config(&text).unwrap(), second);
}

#[test]
fn saved_url_is_the_input_url() {
    let url = "git@example.com:me/dotfiles.git";
    let c = record(url, &[".bashrc", ".gitconfig"]);
    let back = parse_config(&encode_config(&c)).unwrap();
    assert_eq!(back.repo_url, url);
}

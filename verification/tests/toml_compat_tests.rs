//! The store's text is real TOML: an independent TOML parser reads back the
//! same values the encoder was given.

use dots::config::Config;
use dots::store::encode_config;

fn record(url: &str, names: &[&str]) -> Config {
    Config::new(url, names.iter().map(|n| n.to_string()).collect())
}

fn toml_fields(text: &str) -> (String, Vec<String>) {
    let table: toml::Table = text.parse().unwrap();
    let url = table["repo_url"].as_str().unwrap().to_string();
    let names = table["dotfiles"]
        .as_array()
        .unwrap()
        .iter()
        .map(|v| v.as_str().unwrap().to_string())
        .collect();
    (url, names)
}

#[test]
fn plain_record_reads_back_through_toml() {
    let text = encode_config(&record("https://example.com/dots.git", &[".bashrc", ".vimrc"]));
    let (url, names) = toml_fields(&text);
    assert_eq!(url, "https://example.com/dots.git");
    assert_eq!(names, vec![".bashrc".to_string(), ".vimrc".to_string()]);
}

#[test]
fn escaped_record_reads_back_through_toml() {
    let text = encode_config(&record("a\"b\\c\nd", &[".tab\there"]));
    let (url, names) = toml_fields(&text);
    assert_eq!(url, "a\"b\\c\nd");
    assert_eq!(names, vec![".tab\there".to_string()]);
}

#[test]
fn empty_list_reads_back_through_toml() {
    let text = encode_config(&record("u", &[]));
    let (url, names) = toml_fields(&text);
    assert_eq!(url, "u");
    assert_eq!(names, Vec::<String>::new());
}

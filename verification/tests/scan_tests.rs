use dots::scan::{scan_dotfiles, DirEntry};

fn file(name: &str) -> DirEntry {
    DirEntry { name: Some(name.to_string()), is_regular_file: true }
}

fn dir(name: &str) -> DirEntry {
    DirEntry { name: Some(name.to_string()), is_regular_file: false }
}

#[test]
fn scanner_keeps_exactly_the_dotfiles() {
    // A listing with two dotfiles, a plain file and a directory: only the
    // dotfiles come back, however the result is ordered.
    let entries = vec![file(".bashrc"), file(".vimrc"), file("README.md"), dir("bin")];
    let mut found = scan_dotfiles(entries);
    found.sort();
    assert_eq!(found, vec![".bashrc".to_string(), ".vimrc".to_string()]);
}

#[test]
fn scanner_keeps_listing_order() {
    let entries = vec![file(".zshrc"), file("notes.txt"), file(".bashrc")];
    assert_eq!(
        scan_dotfiles(entries),
        vec![".zshrc".to_string(), ".bashrc".to_string()]
    );
}

#[test]
fn scanner_excludes_dot_directories() {
    let entries = vec![dir(".git"), file(".bashrc")];
    assert_eq!(scan_dotfiles(entries), vec![".bashrc".to_string()]);
}

#[test]
fn scanner_skips_names_not_representable_in_utf8() {
    let entries = vec![
        DirEntry { name: None, is_regular_file: true },
        file(".vimrc"),
    ];
    assert_eq!(scan_dotfiles(entries), vec![".vimrc".to_string()]);
}

#[test]
fn scanner_of_empty_listing_is_empty() {
    assert_eq!(scan_dotfiles(Vec::new()), Vec::<String>::new());
}

#[test]
fn scanner_ignores_empty_names() {
    let entries = vec![DirEntry { name: Some(String::new()), is_regular_file: true }];
    assert_eq!(scan_dotfiles(entries), Vec::<String>::new());
}

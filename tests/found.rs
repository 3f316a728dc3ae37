use scriptlets::found::{render_found_paths, sort_found_paths, FoundPath};

fn fp(file: &str, path: &str) -> FoundPath {
    FoundPath { file: file.to_string(), path: path.to_string() }
}

#[test]
fn short_names_are_padded() {
    assert_eq!(
        fp("ls", "/usr/bin/ls").render(),
        "\x1b[32mls------\x1b[39m: ---------/usr/bin/ls"
    );
}

#[test]
fn long_names_are_kept() {
    assert_eq!(
        fp("cargo-clippy", "/home/u/.cargo/bin/cargo-clippy").render(),
        "\x1b[32mcargo-clippy\x1b[39m: /home/u/.cargo/bin/cargo-clippy"
    );
}

#[test]
fn sorted_by_name_then_path() {
    let found = vec![fp("zsh", "/bin/zsh"), fp("ls", "/usr/bin/ls"), fp("ls", "/bin/ls"), fp("Ls", "/x/Ls")];
    let sorted = sort_found_paths(&found);
    let names: Vec<(String, String)> = sorted.into_iter().map(|f| (f.file, f.path)).collect();
    assert_eq!(
        names,
        vec![
            ("Ls".to_string(), "/x/Ls".to_string()),
            ("ls".to_string(), "/bin/ls".to_string()),
            ("ls".to_string(), "/usr/bin/ls".to_string()),
            ("zsh".to_string(), "/bin/zsh".to_string()),
        ]
    );
}

#[test]
fn lines_end_in_newlines() {
    let found = vec![fp("a", "/a"), fp("bb", "/b/bb")];
    assert_eq!(
        render_found_paths(&found),
        "\x1b[32ma-------\x1b[39m: ------------------/a\n\x1b[32mbb------\x1b[39m: ---------------/b/bb\n"
    );
    assert_eq!(render_found_paths(&vec![]), "");
}

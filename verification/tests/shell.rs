use encage_build::shell::{rootless, shell_string};

#[test]
fn quotes_a_token_with_a_space() {
    assert_eq!(
        shell_string(&["install", "-Dm", "0644", "src file", "dest"]),
        "install -Dm 0644 'src file' dest"
    );
}

#[test]
fn quotes_an_embedded_apostrophe() {
    assert_eq!(shell_string(&["it's"]), "'it'\\''s'");
}

#[test]
fn quotes_the_empty_token() {
    assert_eq!(shell_string(&[""]), "''");
}

#[test]
fn rootless_strips_every_leading_slash() {
    assert_eq!(rootless("//usr/bin/"), "usr/bin/");
    assert_eq!(rootless("usr"), "usr");
    assert_eq!(rootless("///"), "");
    assert_eq!(rootless(""), "");
}

fn tokens() -> Vec<&'static str> {
    vec![
        "", "a", "install", "-Dm", "0644", "src file", "it's", "'", "''", "'a'", "a'b'c", "\\",
        "\\'", "a\\b", "\"", "$HOME", "`ls`", "a;b", "a&&b", "a|b", "*", "?", "~", "#", "!",
        "(x)", "{x}", "[x]", "<", ">", "a=b", "a b  c", " ", "  ", "\t", "a\nb", "é", "日本語",
        "-", "--", "@", "%", "+", ":", ",", ".", "/", "_", "a,b.c_d+e:f@g%h/i-j",
    ]
}

#[test]
fn safe_tokens_stand_as_they_are() {
    for token in ["a", "Z9", "a,b.c_d+e:f@g%h/i-j", "/usr/bin/install", "-Dm", "0644"] {
        assert_eq!(shell_string(&[token]), token);
    }
}

#[test]
fn other_tokens_stand_in_quotes() {
    assert_eq!(shell_string(&["$HOME"]), "'$HOME'");
    assert_eq!(shell_string(&["a b"]), "'a b'");
    assert_eq!(shell_string(&["'"]), "''\\'''");
    assert_eq!(shell_string(&["''"]), "''\\'''\\'''");
    assert_eq!(shell_string(&["a'"]), "'a'\\'''");
    assert_eq!(shell_string(&["'a"]), "''\\''a'");
    assert_eq!(shell_string(&["é"]), "'é'");
    assert_eq!(shell_string(&["a\\b"]), "'a\\b'");
}

#[test]
fn no_token_gives_the_empty_command() {
    let none: [&str; 0] = [];
    assert_eq!(shell_string(&none), "");
}

#[test]
fn rendered_tokens_are_read_back_one_by_one() {
    for token in tokens() {
        let line = shell_string(&[token]);
        assert_eq!(shlex::split(&line), Some(vec![token.to_string()]), "{:?}", line);
    }
}

#[test]
fn rendered_commands_are_read_back() {
    let tokens = tokens();
    for start in 0..tokens.len() {
        for len in [0usize, 2, 3, 7] {
            let end = (start + len).min(tokens.len());
            let args = &tokens[start..end];
            let line = shell_string(args);
            let words: Vec<String> = args.iter().map(|s| s.to_string()).collect();
            assert_eq!(shlex::split(&line), Some(words), "{:?}", line);
        }
    }
}

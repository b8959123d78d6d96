use adbfs::escape::{adb_shell_escape_command, shell_escape_command, shell_escape_path};

// ---- shell_escape_path ----

#[test]
fn escape_path_empty() {
    assert_eq!(shell_escape_path(""), "");
}

#[test]
fn escape_path_no_special_chars() {
    assert_eq!(
        shell_escape_path("/mnt/sdcard/photo.jpg"),
        "/mnt/sdcard/photo.jpg"
    );
}

#[test]
fn escape_path_single_quote() {
    assert_eq!(shell_escape_path("it's"), "it'\\''s");
}

#[test]
fn escape_path_double_quote_is_literal() {
    // Inside `'...'` a double quote needs no escape, and a backslash before it
    // would be passed to the device as part of the filename.
    assert_eq!(shell_escape_path(r#"say "hello""#), r#"say "hello""#);
}

#[test]
fn escape_path_both_quotes() {
    assert_eq!(shell_escape_path(r#"it's "fine""#), r#"it'\''s "fine""#);
}

#[test]
fn escape_path_backslash_is_literal() {
    assert_eq!(shell_escape_path(r"a\b"), r"a\b");
}

#[test]
fn escape_path_multiple_single_quotes() {
    assert_eq!(shell_escape_path("a'b'c"), "a'\\''b'\\''c");
}

#[test]
fn escape_path_only_quotes() {
    assert_eq!(shell_escape_path("'"), "'\\''");
    assert_eq!(shell_escape_path("''"), "'\\'''\\''");
}

// ---- shell_escape_command ----

#[test]
fn escape_command_empty() {
    assert_eq!(shell_escape_command(""), "");
}

#[test]
fn escape_command_no_special_chars() {
    assert_eq!(shell_escape_command("ls -la"), "ls -la");
}

#[test]
fn escape_command_backslash() {
    assert_eq!(shell_escape_command(r"a\b"), r"a\\b");
}

#[test]
fn escape_command_single_quote() {
    assert_eq!(shell_escape_command("it's"), "it\\'s");
}

#[test]
fn escape_command_backtick() {
    assert_eq!(shell_escape_command("echo `date`"), "echo \\`date\\`");
}

#[test]
fn escape_command_all_three() {
    assert_eq!(shell_escape_command(r"a\b'c`d"), r"a\\b\'c\`d");
}

#[test]
fn escape_command_double_backslash() {
    // `\\` -> `\\\\`
    assert_eq!(shell_escape_command(r"\\"), r"\\\\");
}

// ---- adb_shell_escape_command ----

#[test]
fn adb_escape_empty() {
    assert_eq!(adb_shell_escape_command(""), "");
}

#[test]
fn adb_escape_no_special_chars() {
    assert_eq!(adb_shell_escape_command("ls -la /sdcard"), "ls -la /sdcard");
}

#[test]
fn adb_escape_backslash() {
    assert_eq!(adb_shell_escape_command(r"a\b"), r"a\\b");
}

#[test]
fn adb_escape_parentheses() {
    assert_eq!(adb_shell_escape_command("f(x)"), r"f\(x\)");
}

#[test]
fn adb_escape_single_quote() {
    assert_eq!(adb_shell_escape_command("it's"), "it\\'s");
}

#[test]
fn adb_escape_backtick() {
    assert_eq!(adb_shell_escape_command("`cmd`"), "\\`cmd\\`");
}

#[test]
fn adb_escape_pipe() {
    assert_eq!(adb_shell_escape_command("a|b"), r"a\|b");
}

#[test]
fn adb_escape_ampersand() {
    assert_eq!(adb_shell_escape_command("a&b"), r"a\&b");
}

#[test]
fn adb_escape_semicolon() {
    assert_eq!(adb_shell_escape_command("a;b"), r"a\;b");
}

#[test]
fn adb_escape_angle_brackets() {
    assert_eq!(adb_shell_escape_command("a<b>c"), r"a\<b\>c");
}

#[test]
fn adb_escape_star() {
    assert_eq!(adb_shell_escape_command("*.txt"), r"\*.txt");
}

#[test]
fn adb_escape_hash() {
    assert_eq!(adb_shell_escape_command("# comment"), r"\# comment");
}

#[test]
fn adb_escape_percent() {
    assert_eq!(adb_shell_escape_command("100%"), r"100\%");
}

#[test]
fn adb_escape_equals() {
    assert_eq!(adb_shell_escape_command("a=b"), r"a\=b");
}

#[test]
fn adb_escape_tilde() {
    assert_eq!(adb_shell_escape_command("~user"), r"\~user");
}

#[test]
fn adb_escape_all_special_chars() {
    let input = r"\()'`|&;<>*#%=~";
    let expected = r"\\\(\)\'\`\|\&\;\<\>\*\#\%\=\~";
    assert_eq!(adb_shell_escape_command(input), expected);
}

#[test]
fn adb_escape_strips_ansi_codes() {
    assert_eq!(adb_shell_escape_command("hello/[0;0m world"), "hello world");
    assert_eq!(adb_shell_escape_command("/[1;32mgreen"), "green");
    assert_eq!(adb_shell_escape_command("blue/[1;34m"), "blue");
    assert_eq!(adb_shell_escape_command("/[1;36mcyan/[0;0m"), "cyan");
}

#[test]
fn adb_escape_strips_ansi_and_escapes() {
    // ANSI stripping happens before escaping, so the pattern is removed
    // cleanly and then special chars in the remaining text are escaped.
    let input = "file/[0;0m|name";
    let result = adb_shell_escape_command(input);
    assert_eq!(result, r"file\|name");
}

#[test]
fn adb_escape_multiple_specials_together() {
    assert_eq!(adb_shell_escape_command("a|b&c;d"), r"a\|b\&c\;d");
}

// ---- laws ----

/// Models POSIX word expansion of a fully quoted word: `'` toggles literal
/// mode, and a backslash escapes the next character only outside `'...'`.
/// Returns `None` for an unbalanced quote.
fn shell_unquote(s: &str) -> Option<String> {
    let mut out = String::new();
    let mut chars = s.chars();
    let mut quoted = false;
    while let Some(c) = chars.next() {
        match c {
            '\'' => quoted = !quoted,
            '\\' if !quoted => out.push(chars.next()?),
            _ => out.push(c),
        }
    }
    if quoted {
        None
    } else {
        Some(out)
    }
}

/// Texts with every mix of quotes, backslashes and ordinary characters.
fn samples() -> Vec<String> {
    let letters = ['a', '\'', '\\', '"', '`', ' ', '\u{e9}'];
    let mut all = vec![String::new()];
    let mut last = vec![String::new()];
    for _ in 0..4 {
        let mut next = Vec::new();
        for text in &last {
            for c in letters {
                let mut longer = text.clone();
                longer.push(c);
                next.push(longer);
            }
        }
        all.extend(next.iter().cloned());
        last = next;
    }
    all
}

/// Every call site interpolates the result into `'{escaped}'`, so the shell
/// must hand the device back the original path byte for byte.
#[test]
fn escape_path_round_trips_through_single_quotes() {
    for s in samples() {
        let quoted = format!("'{}'", shell_escape_path(&s));
        let unquoted = shell_unquote(&quoted);
        assert_eq!(unquoted.as_deref(), Some(s.as_str()));
    }
}

/// Every single quote in the escaped output must be part of the `'\''` escape
/// sequence. After stripping all `'\''` occurrences, no bare single quotes
/// should remain.
#[test]
fn escape_path_all_quotes_properly_escaped() {
    for s in samples() {
        let escaped = shell_escape_path(&s);
        let stripped = escaped.replace("'\\''", "");
        assert!(!stripped.contains('\''), "{s:?}");
    }
}

#[test]
fn escaped_commands_read_back() {
    for s in samples() {
        assert_eq!(shell_unquote(&shell_escape_command(&s)).as_deref(), Some(s.as_str()));
        assert_eq!(shell_unquote(&adb_shell_escape_command(&s)).as_deref(), Some(s.as_str()));
    }
}

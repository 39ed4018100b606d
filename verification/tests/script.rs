use rtexter::engine::{parse_key_name, parse_line, parse_script, Command, KeyCode, KeyMode};

fn s(x: &str) -> String {
    x.to_string()
}

#[test]
fn plain_lines_are_typed_as_they_stand() {
    assert_eq!(parse_line("Hello"), Command::Line(s("Hello")));
    assert_eq!(parse_line("  Hello  "), Command::Line(s("  Hello  ")));
    assert_eq!(parse_line(""), Command::Line(s("")));
    assert_eq!(parse_line("a # b"), Command::Line(s("a # b")));
}

#[test]
fn directives_and_their_numbers() {
    assert_eq!(parse_line("# MANUAL_SLEEP 2000"), Command::StartDelay(2000));
    assert_eq!(parse_line("# MANUAL_DELAY 250"), Command::SetDelay(250));
    assert_eq!(parse_line("# MANUAL_WRITE_DELAY 5"), Command::SetWriteDelay(5));
    assert_eq!(parse_line("# pause 500"), Command::Pause(500));
    assert_eq!(parse_line("   #pause 7 ms"), Command::Pause(7));
    assert_eq!(parse_line("### PaUsE\t12"), Command::Pause(12));
}

#[test]
fn missing_or_bad_numbers_give_the_defaults() {
    assert_eq!(parse_line("# MANUAL_SLEEP"), Command::StartDelay(0));
    assert_eq!(parse_line("# manual_delay x"), Command::SetDelay(100));
    assert_eq!(parse_line("# manual_write_delay -3"), Command::SetWriteDelay(20));
    assert_eq!(parse_line("# pause"), Command::Pause(0));
    assert_eq!(parse_line("# pause 12ab"), Command::Pause(0));
}

#[test]
fn numbers_read_as_u64() {
    assert_eq!(parse_line("# pause +7"), Command::Pause(7));
    assert_eq!(parse_line("# pause +"), Command::Pause(0));
    assert_eq!(parse_line("# pause 007"), Command::Pause(7));
    assert_eq!(
        parse_line("# pause 18446744073709551615"),
        Command::Pause(18446744073709551615)
    );
    assert_eq!(parse_line("# pause 18446744073709551616"), Command::Pause(0));
    assert_eq!(parse_line("# pause 99999999999999999999x"), Command::Pause(0));
}

#[test]
fn key_directives() {
    assert_eq!(parse_line("# key enter"), Command::Key(s("enter"), KeyMode::Click));
    assert_eq!(parse_line("# KEY shift press"), Command::Key(s("shift"), KeyMode::Press));
    assert_eq!(parse_line("# key shift release"), Command::Key(s("shift"), KeyMode::Release));
    assert_eq!(parse_line("# key shift PRESS"), Command::Key(s("shift"), KeyMode::Click));
    assert_eq!(parse_line("# key a click"), Command::Key(s("a"), KeyMode::Click));
    assert_eq!(parse_line("# key"), Command::Key(s(""), KeyMode::Click));
}

#[test]
fn type_directives() {
    assert_eq!(parse_line("# type \"ABC\" 10"), Command::Type(s("ABC"), 10));
    assert_eq!(parse_line("# type \"A B\""), Command::Type(s("A B"), 10));
    assert_eq!(parse_line("# type \"x\" 3 4"), Command::Type(s("x"), 3));
    assert_eq!(parse_line("# type \"\" 1"), Command::Type(s(""), 1));
    assert_eq!(parse_line("# type \"open"), Command::Comment);
    assert_eq!(parse_line("# type ABC"), Command::Comment);
    assert_eq!(parse_line("#type \"héllo\"5"), Command::Type(s("héllo"), 5));
}

#[test]
fn other_directives_are_comments() {
    assert_eq!(parse_line("#"), Command::Comment);
    assert_eq!(parse_line("#   "), Command::Comment);
    assert_eq!(parse_line("# just a note"), Command::Comment);
    assert_eq!(parse_line("# MANUAL_SLEEPS 5"), Command::Comment);
}

#[test]
fn unicode_whitespace_is_whitespace() {
    assert_eq!(parse_line("\u{3000}# pause\u{00A0}9"), Command::Pause(9));
    assert_eq!(parse_line("\u{200B}# pause 9"), Command::Line(s("\u{200B}# pause 9")));
}

#[test]
fn one_command_per_line() {
    let cmds = parse_script("# MANUAL_SLEEP 2000\nHello\n# key enter\nWorld\n# pause 500\n# type \"ABC\" 10");
    assert_eq!(
        cmds,
        vec![
            Command::StartDelay(2000),
            Command::Line(s("Hello")),
            Command::Key(s("enter"), KeyMode::Click),
            Command::Line(s("World")),
            Command::Pause(500),
            Command::Type(s("ABC"), 10),
        ]
    );
}

#[test]
fn line_endings() {
    assert_eq!(parse_script(""), vec![]);
    assert_eq!(parse_script("\n"), vec![Command::Line(s(""))]);
    assert_eq!(parse_script("a\n"), vec![Command::Line(s("a"))]);
    assert_eq!(
        parse_script("a\r\nb\r\n\r\nc"),
        vec![Command::Line(s("a")), Command::Line(s("b")), Command::Line(s("")), Command::Line(s("c"))]
    );
    assert_eq!(parse_script("a\rb\r"), vec![Command::Line(s("a\rb\r"))]);
    assert_eq!(parse_script("\r\n"), vec![Command::Line(s(""))]);
}

#[test]
fn key_names() {
    assert_eq!(parse_key_name("enter"), Some(KeyCode::Return));
    assert_eq!(parse_key_name("RETURN"), Some(KeyCode::Return));
    assert_eq!(parse_key_name("Esc"), Some(KeyCode::Escape));
    assert_eq!(parse_key_name("del"), Some(KeyCode::Delete));
    assert_eq!(parse_key_name("Ctrl"), Some(KeyCode::Control));
    assert_eq!(parse_key_name("control"), Some(KeyCode::Control));
    assert_eq!(parse_key_name("PageDown"), Some(KeyCode::PageDown));
    assert_eq!(parse_key_name("f1"), Some(KeyCode::F1));
    assert_eq!(parse_key_name("F12"), Some(KeyCode::F12));
    assert_eq!(parse_key_name("A"), Some(KeyCode::Unicode('a')));
    assert_eq!(parse_key_name("é"), Some(KeyCode::Unicode('é')));
    assert_eq!(parse_key_name("1"), Some(KeyCode::Unicode('1')));
    assert_eq!(parse_key_name("ab"), None);
    assert_eq!(parse_key_name("f13"), None);
    assert_eq!(parse_key_name(""), None);
}

#[test]
fn joined_scripts_join_their_commands() {
    let a = "# pause 5\nHello";
    let b = "# key tab\r\nWorld\n";
    let mut both = parse_script(a);
    both.extend(parse_script(b));
    assert_eq!(parse_script(&format!("{}\n{}", a, b)), both);
}

#[test]
fn directive_word_in_any_case() {
    assert_eq!(parse_line("#manual_delay 7"), parse_line("# MANUAL_DELAY 7"));
    assert_eq!(parse_line("#manual_delay 7"), Command::SetDelay(7));
    assert_eq!(parse_line("# KEY tab"), parse_line("# key tab"));
    assert_eq!(parse_line("#TyPe \"q\" 2"), Command::Type(s("q"), 2));
}

#[test]
fn directive_word_case_with_blanks_and_hashes() {
    assert_eq!(parse_line("  ##\tmanual_delay 7  "), parse_line("  ##\tMaNuAl_DeLaY 7  "));
    assert_eq!(parse_line("  ##\tmanual_delay 7  "), Command::SetDelay(7));
    assert_eq!(parse_line("# #key tab"), parse_line("# #KEY tab"));
    assert_eq!(parse_line("# #key tab"), Command::Comment);
}

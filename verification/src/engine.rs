//! The script language: what a script is made of and how its text is read.
use vstd::prelude::*;
use crate::text::{
    is_digit,
    lemma_lines_join, lemma_count_until, lemma_count_until_props, lemma_word_len, is_ws,
    ascii_upper, count_until, trim_end, eq_lower, eq_range, eq_upper, find, find_char, lines, lower_char, lower_seq, next_word,
    next_word_at, parse_u64, parse_u64_at, skip_char, skip_ws, split_lines, string_of,
    strip_leading, to_chars, trim, trim_end_pos, trim_start, upper_seq,
};

verus! {

/// One line of a script.
#[derive(Clone, Debug, PartialEq, Eq)]
pub enum Command {
    /// Text to type.
    Line(String),
    /// `# MANUAL_SLEEP <ms>`: the delay before the script starts.
    StartDelay(u64),
    /// `# MANUAL_DELAY <ms>`: the delay after each line from now on.
    SetDelay(u64),
    /// `# MANUAL_WRITE_DELAY <ms>`: the delay after each typed character of a line.
    SetWriteDelay(u64),
    /// `# key <name> [click|press|release]`.
    Key(String, KeyMode),
    /// `# type "<text>" <ms>`: text typed with its own delay per character.
    Type(String, u64),
    /// `# pause <ms>`.
    Pause(u64),
    /// Anything else that starts with `#`.
    Comment,
}

#[derive(Clone, Copy, Debug, PartialEq, Eq, Structural)]
pub enum KeyMode {
    Click,
    Press,
    Release,
}

/// The settings a script runs with.
pub struct EngineConfig {
    pub start_delay_ms: u64,
    pub line_delay_ms: u64,
    pub write_delay_ms: u64,
    pub repeat: bool,
    pub press_enter: bool,
}

/// A `Command` with its texts as character sequences.
pub enum CommandModel {
    Line(Seq<char>),
    StartDelay(u64),
    SetDelay(u64),
    SetWriteDelay(u64),
    Key(Seq<char>, KeyMode),
    Type(Seq<char>, u64),
    Pause(u64),
    Comment,
}

impl View for Command {
    type V = CommandModel;

    open spec fn view(&self) -> CommandModel {
        match self {
            Command::Line(s) => CommandModel::Line(s@),
            Command::StartDelay(ms) => CommandModel::StartDelay(*ms),
            Command::SetDelay(ms) => CommandModel::SetDelay(*ms),
            Command::SetWriteDelay(ms) => CommandModel::SetWriteDelay(*ms),
            Command::Key(name, mode) => CommandModel::Key(name@, *mode),
            Command::Type(s, ms) => CommandModel::Type(s@, *ms),
            Command::Pause(ms) => CommandModel::Pause(*ms),
            Command::Comment => CommandModel::Comment,
        }
    }
}

/// A key that a script can name in `# key`.
#[derive(Clone, Copy, Debug, PartialEq, Eq, Structural)]
pub enum KeyCode {
    Return,
    Tab,
    Space,
    Escape,
    Backspace,
    Delete,
    UpArrow,
    DownArrow,
    LeftArrow,
    RightArrow,
    Shift,
    Control,
    Alt,
    Home,
    End,
    PageUp,
    PageDown,
    F1,
    F2,
    F3,
    F4,
    F5,
    F6,
    F7,
    F8,
    F9,
    F10,
    F11,
    F12,
    /// A single character.
    Unicode(char),
}

// ---------------------------------------------------------------------------
// Keywords

pub open spec fn kw_manual_sleep() -> Seq<char> {
    seq!['M', 'A', 'N', 'U', 'A', 'L', '_', 'S', 'L', 'E', 'E', 'P']
}

pub open spec fn kw_manual_delay() -> Seq<char> {
    seq!['M', 'A', 'N', 'U', 'A', 'L', '_', 'D', 'E', 'L', 'A', 'Y']
}

pub open spec fn kw_manual_write_delay() -> Seq<char> {
    seq!['M', 'A', 'N', 'U', 'A', 'L', '_', 'W', 'R', 'I', 'T', 'E', '_', 'D', 'E', 'L', 'A', 'Y']
}

pub open spec fn kw_key() -> Seq<char> {
    seq!['K', 'E', 'Y']
}

pub open spec fn kw_type() -> Seq<char> {
    seq!['T', 'Y', 'P', 'E']
}

pub open spec fn kw_pause() -> Seq<char> {
    seq!['P', 'A', 'U', 'S', 'E']
}

pub open spec fn word_press() -> Seq<char> {
    seq!['p', 'r', 'e', 's', 's']
}

pub open spec fn word_release() -> Seq<char> {
    seq!['r', 'e', 'l', 'e', 'a', 's', 'e']
}

// ---------------------------------------------------------------------------
// What a line means

/// The number in the first word of `rest`, or `default` where there is no
/// word or it is no `u64`.
pub open spec fn number_arg(rest: Seq<char>, default: u64) -> u64 {
    match next_word(rest) {
        Some((w, _)) => match parse_u64(w) {
            Some(v) => v,
            None => default,
        },
        None => default,
    }
}

/// `# key <name> [mode]`, given what follows the keyword.
pub open spec fn key_command(rest: Seq<char>) -> CommandModel {
    match next_word(rest) {
        None => CommandModel::Key(seq![], KeyMode::Click),
        Some((name, rest2)) => CommandModel::Key(
            name,
            match next_word(rest2) {
                Some((m, _)) => if m == word_press() {
                    KeyMode::Press
                } else if m == word_release() {
                    KeyMode::Release
                } else {
                    KeyMode::Click
                },
                None => KeyMode::Click,
            },
        ),
    }
}

/// `# type "<text>" <ms>`, given the directive's body: the text between the
/// first two `"`, the delay from the first word after them (10 where none).
pub open spec fn type_command(body: Seq<char>) -> CommandModel {
    match find(body, '"') {
        None => CommandModel::Comment,
        Some(a) => match find(body.skip(a + 1int), '"') {
            None => CommandModel::Comment,
            Some(b) => CommandModel::Type(
                body.subrange(a + 1int, a + 1int + b),
                number_arg(body.skip(a + 1int + b + 1int), 10),
            ),
        },
    }
}

/// A directive: the body is what follows the leading `#`s, trimmed; its
/// first word, in any case, names the directive.
pub open spec fn directive(body: Seq<char>) -> CommandModel {
    match next_word(body) {
        None => CommandModel::Comment,
        Some((cmd, rest)) => {
            let up = upper_seq(cmd);
            if up == kw_manual_sleep() {
                CommandModel::StartDelay(number_arg(rest, 0))
            } else if up == kw_manual_delay() {
                CommandModel::SetDelay(number_arg(rest, 100))
            } else if up == kw_manual_write_delay() {
                CommandModel::SetWriteDelay(number_arg(rest, 20))
            } else if up == kw_key() {
                key_command(rest)
            } else if up == kw_type() {
                type_command(body)
            } else if up == kw_pause() {
                CommandModel::Pause(number_arg(rest, 0))
            } else {
                CommandModel::Comment
            }
        },
    }
}

/// A line whose first non-blank character is `#` is a directive; any other
/// line is text, kept as it stands.
pub open spec fn line_command(line: Seq<char>) -> CommandModel {
    let trimmed = trim_start(line);
    if trimmed.len() > 0 && trimmed[0] == '#' {
        directive(trim(strip_leading(trimmed, '#')))
    } else {
        CommandModel::Line(line)
    }
}

/// The commands of a script: one per line.
pub open spec fn script_commands(text: Seq<char>) -> Seq<CommandModel> {
    lines(text).map_values(|l: Seq<char>| line_command(l))
}

/// Joining two scripts with a newline joins their commands, where the first
/// is not empty and does not end in `\n` or `\r`.
pub proof fn lemma_scripts_join(a: Seq<char>, b: Seq<char>)
    requires
        a.len() > 0,
        a.last() != '\n',
        a.last() != '\r',
    ensures
        script_commands(a + seq!['\n'] + b) == script_commands(a) + script_commands(b),
{
    lemma_lines_join(a, b);
    assert(script_commands(a + seq!['\n'] + b) =~= script_commands(a) + script_commands(b));
}

// ---------------------------------------------------------------------------
// Key names

/// The key that a lower-case name stands for.
pub open spec fn named_key(n: Seq<char>) -> Option<KeyCode> {
    if n == seq!['e', 'n', 't', 'e', 'r'] || n == seq!['r', 'e', 't', 'u', 'r', 'n'] {
        Some(KeyCode::Return)
    } else if n == seq!['t', 'a', 'b'] {
        Some(KeyCode::Tab)
    } else if n == seq!['s', 'p', 'a', 'c', 'e'] {
        Some(KeyCode::Space)
    } else if n == seq!['e', 's', 'c'] || n == seq!['e', 's', 'c', 'a', 'p', 'e'] {
        Some(KeyCode::Escape)
    } else if n == seq!['b', 'a', 'c', 'k', 's', 'p', 'a', 'c', 'e'] {
        Some(KeyCode::Backspace)
    } else if n == seq!['d', 'e', 'l', 'e', 't', 'e'] || n == seq!['d', 'e', 'l'] {
        Some(KeyCode::Delete)
    } else if n == seq!['u', 'p'] {
        Some(KeyCode::UpArrow)
    } else if n == seq!['d', 'o', 'w', 'n'] {
        Some(KeyCode::DownArrow)
    } else if n == seq!['l', 'e', 'f', 't'] {
        Some(KeyCode::LeftArrow)
    } else if n == seq!['r', 'i', 'g', 'h', 't'] {
        Some(KeyCode::RightArrow)
    } else if n == seq!['s', 'h', 'i', 'f', 't'] {
        Some(KeyCode::Shift)
    } else if n == seq!['c', 't', 'r', 'l'] || n == seq!['c', 'o', 'n', 't', 'r', 'o', 'l'] {
        Some(KeyCode::Control)
    } else if n == seq!['a', 'l', 't'] {
        Some(KeyCode::Alt)
    } else if n == seq!['h', 'o', 'm', 'e'] {
        Some(KeyCode::Home)
    } else if n == seq!['e', 'n', 'd'] {
        Some(KeyCode::End)
    } else if n == seq!['p', 'a', 'g', 'e', 'u', 'p'] {
        Some(KeyCode::PageUp)
    } else if n == seq!['p', 'a', 'g', 'e', 'd', 'o', 'w', 'n'] {
        Some(KeyCode::PageDown)
    } else if n == seq!['f', '1'] {
        Some(KeyCode::F1)
    } else if n == seq!['f', '2'] {
        Some(KeyCode::F2)
    } else if n == seq!['f', '3'] {
        Some(KeyCode::F3)
    } else if n == seq!['f', '4'] {
        Some(KeyCode::F4)
    } else if n == seq!['f', '5'] {
        Some(KeyCode::F5)
    } else if n == seq!['f', '6'] {
        Some(KeyCode::F6)
    } else if n == seq!['f', '7'] {
        Some(KeyCode::F7)
    } else if n == seq!['f', '8'] {
        Some(KeyCode::F8)
    } else if n == seq!['f', '9'] {
        Some(KeyCode::F9)
    } else if n == seq!['f', '1', '0'] {
        Some(KeyCode::F10)
    } else if n == seq!['f', '1', '1'] {
        Some(KeyCode::F11)
    } else if n == seq!['f', '1', '2'] {
        Some(KeyCode::F12)
    } else if n.len() == 1 {
        Some(KeyCode::Unicode(n[0]))
    } else {
        None
    }
}

/// The key a `# key` directive names: its name in any ASCII case.
pub open spec fn key_from_name(name: Seq<char>) -> Option<KeyCode> {
    named_key(lower_seq(name))
}

/// A word of a directive: not empty, no whitespace.
pub open spec fn is_word(w: Seq<char>) -> bool {
    w.len() > 0 && forall|i: int| 0 <= i < w.len() ==> !is_ws(#[trigger] w[i])
}

proof fn lemma_next_word_of_word(w: Seq<char>, rest: Seq<char>)
    requires
        is_word(w),
        rest.len() == 0 || is_ws(rest[0]),
    ensures
        next_word(w + rest) == Some((w, rest)),
{
    let s = w + rest;
    assert(trim_start(s) == s);
    assert forall|i: int| 0 <= i < w.len() implies !is_ws(s[i]) by {
        assert(s[i] == w[i]);
    }
    lemma_word_len(s, w.len() as int);
    assert(s.take(w.len() as int) =~= w);
    assert(s.skip(w.len() as int) =~= rest);
}

proof fn lemma_type_command_prefix(w1: Seq<char>, w2: Seq<char>, rest: Seq<char>)
    requires
        w1.len() == w2.len(),
        forall|i: int| 0 <= i < w1.len() ==> w1[i] != '"' && w2[i] != '"',
    ensures
        type_command(w1 + rest) == type_command(w2 + rest),
{
    let n = w1.len() as int;
    lemma_count_until_props(rest, '"');
    let k = count_until(rest, '"') as int;
    let s1 = w1 + rest;
    let s2 = w2 + rest;
    assert forall|i: int| 0 <= i < n + k implies s1[i] != '"' && s2[i] != '"' by {
        if i >= n {
            assert(s1[i] == rest[i - n]);
            assert(s2[i] == rest[i - n]);
        }
    }
    if k < rest.len() {
        assert(s1[n + k] == rest[k]);
        assert(s2[n + k] == rest[k]);
    }
    lemma_count_until(s1, '"', n + k);
    lemma_count_until(s2, '"', n + k);
    if k < rest.len() {
        assert(s1.skip(n + k + 1) =~= rest.skip(k + 1));
        assert(s2.skip(n + k + 1) =~= rest.skip(k + 1));
        let r = rest.skip(k + 1);
        lemma_count_until_props(r, '"');
        let j = count_until(r, '"') as int;
        if j < r.len() {
            assert(s1.subrange(n + k + 1, n + k + 1 + j) =~= s2.subrange(n + k + 1, n + k + 1 + j));
            assert(s1.skip(n + k + 1 + j + 1) =~= s2.skip(n + k + 1 + j + 1));
        }
    }
}

/// The letter case of a directive's word does not matter.
pub proof fn lemma_directive_case(w1: Seq<char>, w2: Seq<char>, rest: Seq<char>)
    requires
        is_word(w1),
        is_word(w2),
        upper_seq(w1) == upper_seq(w2),
        rest.len() == 0 || is_ws(rest[0]),
    ensures
        directive(w1 + rest) == directive(w2 + rest),
{
    lemma_next_word_of_word(w1, rest);
    lemma_next_word_of_word(w2, rest);
    assert(w1.len() == upper_seq(w1).len());
    if upper_seq(w1) == kw_type() {
        assert forall|i: int| 0 <= i < w1.len() implies w1[i] != '"' && w2[i] != '"' by {
            assert(upper_seq(w1)[i] == ascii_upper(w1[i]));
            assert(upper_seq(w2)[i] == ascii_upper(w2[i]));
        }
        lemma_type_command_prefix(w1, w2, rest);
    }
}

proof fn lemma_trim_end_prefix(y: Seq<char>)
    ensures
        trim_end(y).len() <= y.len(),
        forall|i: int| 0 <= i < trim_end(y).len() ==> trim_end(y)[i] == y[i],
    decreases y.len(),
{
    if y.len() > 0 && is_ws(y.last()) {
        let d = y.drop_last();
        lemma_trim_end_prefix(d);
        assert forall|i: int| 0 <= i < trim_end(y).len() implies trim_end(y)[i] == y[i] by {
            assert(trim_end(y)[i] == d[i]);
            assert(d[i] == y[i]);
        }
    }
}

proof fn lemma_trim_end_join(x: Seq<char>, y: Seq<char>)
    requires
        x.len() > 0,
        !is_ws(x.last()),
    ensures
        trim_end(x + y) == x + trim_end(y),
    decreases y.len(),
{
    if y.len() == 0 {
        assert(x + y =~= x);
        assert(x + trim_end(y) =~= x);
    } else if is_ws(y.last()) {
        assert((x + y).drop_last() =~= x + y.drop_last());
        lemma_trim_end_join(x, y.drop_last());
    } else {
        assert((x + y).last() == y.last());
    }
}

/// Whitespace only.
pub open spec fn all_ws(b: Seq<char>) -> bool {
    forall|i: int| 0 <= i < b.len() ==> is_ws(#[trigger] b[i])
}

/// `#` characters only.
pub open spec fn all_hashes(h: Seq<char>) -> bool {
    forall|i: int| 0 <= i < h.len() ==> #[trigger] h[i] == '#'
}

proof fn lemma_trim_start_skips(b: Seq<char>, x: Seq<char>)
    requires
        all_ws(b),
    ensures
        trim_start(b + x) == trim_start(x),
    decreases b.len(),
{
    if b.len() == 0 {
        assert(b + x =~= x);
    } else {
        assert((b + x)[0] == b[0]);
        assert((b + x).drop_first() =~= b.drop_first() + x);
        assert(all_ws(b.drop_first())) by {
            assert forall|i: int| 0 <= i < b.drop_first().len() implies is_ws(
                #[trigger] b.drop_first()[i],
            ) by {
                assert(b.drop_first()[i] == b[i + 1]);
            }
        }
        lemma_trim_start_skips(b.drop_first(), x);
    }
}

proof fn lemma_strip_leading_skips(h: Seq<char>, y: Seq<char>)
    requires
        all_hashes(h),
    ensures
        strip_leading(h + y, '#') == strip_leading(y, '#'),
    decreases h.len(),
{
    if h.len() == 0 {
        assert(h + y =~= y);
    } else {
        assert((h + y)[0] == h[0]);
        assert((h + y).drop_first() =~= h.drop_first() + y);
        assert(all_hashes(h.drop_first())) by {
            assert forall|i: int| 0 <= i < h.drop_first().len() implies #[trigger] h.drop_first()[i]
                == '#' by {
                assert(h.drop_first()[i] == h[i + 1]);
            }
        }
        lemma_strip_leading_skips(h.drop_first(), y);
    }
}

/// A directive line: blanks, one or more `#`, blanks, the directive's word
/// (which starts with no `#` where no blank precedes it) and the rest: its command is
/// the directive of the word and the rest without its trailing blanks.
proof fn lemma_directive_line(
    b1: Seq<char>,
    h: Seq<char>,
    b2: Seq<char>,
    w: Seq<char>,
    rest: Seq<char>,
)
    requires
        all_ws(b1),
        h.len() > 0,
        all_hashes(h),
        all_ws(b2),
        is_word(w),
        b2.len() > 0 || w[0] != '#',
        rest.len() == 0 || is_ws(rest[0]),
    ensures
        line_command(b1 + h + b2 + w + rest) == directive(w + trim_end(rest)),
{
    let t = h + (b2 + w + rest);
    assert(b1 + h + b2 + w + rest =~= b1 + t);
    lemma_trim_start_skips(b1, t);
    assert(t[0] == '#');
    assert(trim_start(t) == t);
    lemma_strip_leading_skips(h, b2 + w + rest);
    let y = b2 + (w + rest);
    assert(b2 + w + rest =~= y);
    assert((w + rest)[0] == w[0]);
    if b2.len() > 0 {
        assert(y[0] == b2[0]);
        assert(is_ws(b2[0]));
    } else {
        assert(y =~= w + rest);
    }
    assert(strip_leading(y, '#') == y);
    lemma_trim_start_skips(b2, w + rest);
    assert(trim_start(w + rest) == w + rest);
    assert(!is_ws(w.last())) by {
        assert(!is_ws(w[w.len() - 1]));
    }
    lemma_trim_end_join(w, rest);
}

/// Changing only the letter case of the word of a directive line does not
/// change its command. A directive line is any line whose first non-blank
/// character is `#`: blanks, the run of `#`, blanks, the word (up to the
/// next blank) and the rest.
pub proof fn lemma_line_directive_case(
    b1: Seq<char>,
    h: Seq<char>,
    b2: Seq<char>,
    w1: Seq<char>,
    w2: Seq<char>,
    rest: Seq<char>,
)
    requires
        all_ws(b1),
        h.len() > 0,
        all_hashes(h),
        all_ws(b2),
        is_word(w1),
        is_word(w2),
        b2.len() > 0 || w1[0] != '#',
        upper_seq(w1) == upper_seq(w2),
        rest.len() == 0 || is_ws(rest[0]),
    ensures
        line_command(b1 + h + b2 + w1 + rest) == line_command(b1 + h + b2 + w2 + rest),
{
    assert(upper_seq(w1)[0] == ascii_upper(w1[0]));
    assert(upper_seq(w2)[0] == ascii_upper(w2[0]));
    assert(b2.len() > 0 || w2[0] != '#');
    lemma_directive_line(b1, h, b2, w1, rest);
    lemma_directive_line(b1, h, b2, w2, rest);
    lemma_trim_end_prefix(rest);
    let r2 = trim_end(rest);
    assert(r2.len() == 0 || is_ws(r2[0]));
    lemma_directive_case(w1, w2, r2);
}

/// The names of Enter, Tab, Space, Escape, Backspace and Delete. In any ASCII case,
/// a name of the list stands for its key, and no other name does.
pub proof fn lemma_key_names_editing(name: Seq<char>)
    ensures
        key_from_name(name) == Some(KeyCode::Return) <==> (lower_seq(name) == seq!['e', 'n', 't', 'e', 'r'] || lower_seq(name) == seq!['r', 'e', 't', 'u', 'r', 'n']),
        key_from_name(name) == Some(KeyCode::Tab) <==> lower_seq(name) == seq!['t', 'a', 'b'],
        key_from_name(name) == Some(KeyCode::Space) <==> lower_seq(name) == seq!['s', 'p', 'a', 'c', 'e'],
        key_from_name(name) == Some(KeyCode::Escape) <==> (lower_seq(name) == seq!['e', 's', 'c'] || lower_seq(name) == seq!['e', 's', 'c', 'a', 'p', 'e']),
        key_from_name(name) == Some(KeyCode::Backspace) <==> lower_seq(name) == seq!['b', 'a', 'c', 'k', 's', 'p', 'a', 'c', 'e'],
        key_from_name(name) == Some(KeyCode::Delete) <==> (lower_seq(name) == seq!['d', 'e', 'l', 'e', 't', 'e'] || lower_seq(name) == seq!['d', 'e', 'l']),
{
}

/// The names of the arrow keys. In any ASCII case,
/// a name of the list stands for its key, and no other name does.
pub proof fn lemma_key_names_arrows(name: Seq<char>)
    ensures
        key_from_name(name) == Some(KeyCode::UpArrow) <==> lower_seq(name) == seq!['u', 'p'],
        key_from_name(name) == Some(KeyCode::DownArrow) <==> lower_seq(name) == seq!['d', 'o', 'w', 'n'],
        key_from_name(name) == Some(KeyCode::LeftArrow) <==> lower_seq(name) == seq!['l', 'e', 'f', 't'],
        key_from_name(name) == Some(KeyCode::RightArrow) <==> lower_seq(name) == seq!['r', 'i', 'g', 'h', 't'],
{
}

/// The names of Shift, Control, Alt, Home, End, Page Up and Page Down. In any ASCII case,
/// a name of the list stands for its key, and no other name does.
pub proof fn lemma_key_names_modifiers_and_paging(name: Seq<char>)
    ensures
        key_from_name(name) == Some(KeyCode::Shift) <==> lower_seq(name) == seq!['s', 'h', 'i', 'f', 't'],
        key_from_name(name) == Some(KeyCode::Control) <==> (lower_seq(name) == seq!['c', 't', 'r', 'l'] || lower_seq(name) == seq!['c', 'o', 'n', 't', 'r', 'o', 'l']),
        key_from_name(name) == Some(KeyCode::Alt) <==> lower_seq(name) == seq!['a', 'l', 't'],
        key_from_name(name) == Some(KeyCode::Home) <==> lower_seq(name) == seq!['h', 'o', 'm', 'e'],
        key_from_name(name) == Some(KeyCode::End) <==> lower_seq(name) == seq!['e', 'n', 'd'],
        key_from_name(name) == Some(KeyCode::PageUp) <==> lower_seq(name) == seq!['p', 'a', 'g', 'e', 'u', 'p'],
        key_from_name(name) == Some(KeyCode::PageDown) <==> lower_seq(name) == seq!['p', 'a', 'g', 'e', 'd', 'o', 'w', 'n'],
{
}

/// The names of F1 to F6. In any ASCII case,
/// a name of the list stands for its key, and no other name does.
pub proof fn lemma_key_names_function_low(name: Seq<char>)
    ensures
        key_from_name(name) == Some(KeyCode::F1) <==> lower_seq(name) == seq!['f', '1'],
        key_from_name(name) == Some(KeyCode::F2) <==> lower_seq(name) == seq!['f', '2'],
        key_from_name(name) == Some(KeyCode::F3) <==> lower_seq(name) == seq!['f', '3'],
        key_from_name(name) == Some(KeyCode::F4) <==> lower_seq(name) == seq!['f', '4'],
        key_from_name(name) == Some(KeyCode::F5) <==> lower_seq(name) == seq!['f', '5'],
        key_from_name(name) == Some(KeyCode::F6) <==> lower_seq(name) == seq!['f', '6'],
{
}

/// The names of F7 to F12. In any ASCII case,
/// a name of the list stands for its key, and no other name does.
pub proof fn lemma_key_names_function_high(name: Seq<char>)
    ensures
        key_from_name(name) == Some(KeyCode::F7) <==> lower_seq(name) == seq!['f', '7'],
        key_from_name(name) == Some(KeyCode::F8) <==> lower_seq(name) == seq!['f', '8'],
        key_from_name(name) == Some(KeyCode::F9) <==> lower_seq(name) == seq!['f', '9'],
        key_from_name(name) == Some(KeyCode::F10) <==> lower_seq(name) == seq!['f', '1', '0'],
        key_from_name(name) == Some(KeyCode::F11) <==> lower_seq(name) == seq!['f', '1', '1'],
        key_from_name(name) == Some(KeyCode::F12) <==> lower_seq(name) == seq!['f', '1', '2'],
{
    let n = lower_seq(name);
    if n == seq!['f', '7'] {
        assert(n.len() == 2);
        assert(n[0] == 'f');
        assert(n[1] == '7');
    }
    if n == seq!['f', '8'] {
        assert(n.len() == 2);
        assert(n[0] == 'f');
        assert(n[1] == '8');
    }
    if n == seq!['f', '9'] {
        assert(n.len() == 2);
        assert(n[0] == 'f');
        assert(n[1] == '9');
    }
    if n == seq!['f', '1', '0'] {
        assert(n.len() == 3);
        assert(n[0] == 'f');
        assert(n[1] == '1');
        assert(n[2] == '0');
    }
    if n == seq!['f', '1', '1'] {
        assert(n.len() == 3);
        assert(n[0] == 'f');
        assert(n[1] == '1');
        assert(n[2] == '1');
    }
    if n == seq!['f', '1', '2'] {
        assert(n.len() == 3);
        assert(n[0] == 'f');
        assert(n[1] == '1');
        assert(n[2] == '2');
    }
}

/// A one-character name stands for that character, made lower case, and no
/// longer name stands for a character; an empty name stands for no key.
pub proof fn lemma_key_name_single_char(name: Seq<char>)
    ensures
        (key_from_name(name) matches Some(KeyCode::Unicode(_))) ==> lower_seq(name).len() == 1,
        lower_seq(name).len() == 1 ==> key_from_name(name) == Some(
            KeyCode::Unicode(lower_seq(name)[0]),
        ),
        name.len() == 0 ==> key_from_name(name) is None,
{
    assert(lower_seq(name).len() == name.len());
}

/// A word that reads as a number holds no whitespace.
proof fn lemma_number_is_word(w: Seq<char>, v: u64)
    requires
        parse_u64(w) == Some(v),
    ensures
        is_word(w),
{
    let d = if w.len() > 0 && w[0] == '+' {
        w.drop_first()
    } else {
        w
    };
    assert forall|i: int| 0 <= i < w.len() implies !is_ws(#[trigger] w[i]) by {
        if w[0] == '+' {
            if i > 0 {
                assert(w[i] == d[i - 1]);
                assert(is_digit(d[i - 1]));
            }
        } else {
            assert(is_digit(d[i]));
        }
    }
}

/// A directive's number is the first word after its keyword where that word
/// reads as a `u64`, whatever its value, zero included; the default stands
/// only where there is no word or it reads as no number.
pub proof fn lemma_number_arg(rest: Seq<char>, default: u64, w: Seq<char>, r: Seq<char>, v: u64)
    ensures
        next_word(rest) == Some((w, r)) && parse_u64(w) == Some(v) ==> number_arg(rest, default)
            == v,
        next_word(rest) == Some((w, r)) && parse_u64(w) is None ==> number_arg(rest, default)
            == default,
        next_word(rest) is None ==> number_arg(rest, default) == default,
{
}

/// `b + w + rest`, where `b` is blank and `w` a word followed by a blank or
/// nothing: its first word is `w`.
proof fn lemma_next_word_after_blanks(b: Seq<char>, w: Seq<char>, rest: Seq<char>)
    requires
        all_ws(b),
        is_word(w),
        rest.len() == 0 || is_ws(rest[0]),
    ensures
        next_word(b + w + rest) == Some((w, rest)),
{
    assert(b + w + rest =~= b + (w + rest));
    lemma_trim_start_skips(b, w + rest);
    assert((w + rest)[0] == w[0]);
    assert(trim_start(w + rest) == w + rest);
    lemma_next_word_of_word(w, rest);
}

/// `kw + rest`, for a keyword `kw` written in capitals and `_` and
/// followed by a blank: the directive's word is `kw`.
proof fn lemma_keyword_first(kw: Seq<char>, rest: Seq<char>)
    requires
        kw.len() > 0,
        forall|i: int| 0 <= i < kw.len() ==> ('A' <= #[trigger] kw[i] <= 'Z' || kw[i] == '_'),
        rest.len() > 0,
        is_ws(rest[0]),
    ensures
        next_word(kw + rest) == Some((kw, rest)),
        upper_seq(kw) == kw,
{
    assert(is_word(kw)) by {
        assert forall|i: int| 0 <= i < kw.len() implies !is_ws(#[trigger] kw[i]) by {
            assert('A' <= kw[i] <= 'Z' || kw[i] == '_');
        }
    }
    lemma_next_word_of_word(kw, rest);
    assert(upper_seq(kw) =~= kw);
}

/// The delay directives carry the number that follows their keyword, for
/// every number a `u64` holds, zero included: `MANUAL_SLEEP`, `MANUAL_DELAY`,
/// `MANUAL_WRITE_DELAY` and `pause`.
pub proof fn lemma_delay_directives_carry_their_number(
    b: Seq<char>,
    w: Seq<char>,
    rest: Seq<char>,
    v: u64,
)
    requires
        b.len() > 0,
        all_ws(b),
        parse_u64(w) == Some(v),
        rest.len() == 0 || is_ws(rest[0]),
    ensures
        directive(kw_manual_sleep() + b + w + rest) == CommandModel::StartDelay(v),
        directive(kw_manual_delay() + b + w + rest) == CommandModel::SetDelay(v),
        directive(kw_manual_write_delay() + b + w + rest) == CommandModel::SetWriteDelay(v),
        directive(kw_pause() + b + w + rest) == CommandModel::Pause(v),
{
    lemma_number_is_word(w, v);
    lemma_next_word_after_blanks(b, w, rest);
    let tail = b + w + rest;
    assert(is_ws(tail[0]));
    assert(kw_manual_sleep() + b + w + rest =~= kw_manual_sleep() + tail);
    assert(kw_manual_delay() + b + w + rest =~= kw_manual_delay() + tail);
    assert(kw_manual_write_delay() + b + w + rest =~= kw_manual_write_delay() + tail);
    assert(kw_pause() + b + w + rest =~= kw_pause() + tail);
    lemma_keyword_first(kw_manual_sleep(), tail);
    lemma_keyword_first(kw_manual_delay(), tail);
    lemma_keyword_first(kw_manual_write_delay(), tail);
    lemma_keyword_first(kw_pause(), tail);
}

/// `# type` types the text between its first two quotes, as it stands, with
/// the delay of the first word after the closing quote (see
/// `lemma_number_arg`), 10 ms where there is none.
pub proof fn lemma_type_directive(b: Seq<char>, t: Seq<char>, tail: Seq<char>)
    requires
        b.len() > 0,
        all_ws(b),
        forall|i: int| 0 <= i < t.len() ==> #[trigger] t[i] != '"',
    ensures
        directive(kw_type() + b + seq!['"'] + t + seq!['"'] + tail) == CommandModel::Type(
            t,
            number_arg(tail, 10),
        ),
{
    let kw = kw_type();
    let after = b + seq!['"'] + t + seq!['"'] + tail;
    let body = kw + after;
    assert(kw + b + seq!['"'] + t + seq!['"'] + tail =~= body);
    assert(after[0] == b[0]);
    lemma_keyword_first(kw, after);
    let a: int = (kw.len() + b.len()) as int;
    let n: int = t.len() as int;
    assert forall|i: int| 0 <= i < a implies body[i] != '"' by {
        if i < kw.len() {
            assert(body[i] == kw[i]);
        } else {
            assert(body[i] == b[i - kw.len()]);
            assert(is_ws(b[i - kw.len()]));
        }
    }
    assert(body[a] == '"');
    lemma_count_until(body, '"', a);
    let r = body.skip(a + 1);
    assert(r =~= t + (seq!['"'] + tail));
    assert forall|i: int| 0 <= i < t.len() implies r[i] != '"' by {
        assert(r[i] == t[i]);
    }
    assert(r[t.len() as int] == '"');
    lemma_count_until(r, '"', t.len() as int);
    assert(body.subrange(a + 1, a + 1 + n) =~= t);
    assert(body.skip(a + 1 + n + 1) =~= tail);
}

/// The `# key` directive: the first word after `key` names the key, and the
/// next word, where it is `press` or `release`, says so; any other word, or
/// none, makes it a click.
pub proof fn lemma_key_directive(
    b: Seq<char>,
    name: Seq<char>,
    rest: Seq<char>,
    m: Seq<char>,
    rest2: Seq<char>,
)
    requires
        b.len() > 0,
        all_ws(b),
        is_word(name),
        rest.len() == 0 || is_ws(rest[0]),
    ensures
        next_word(rest) is None ==> directive(kw_key() + b + name + rest) == CommandModel::Key(
            name,
            KeyMode::Click,
        ),
        next_word(rest) == Some((m, rest2)) ==> directive(kw_key() + b + name + rest)
            == CommandModel::Key(
            name,
            if m == seq!['p', 'r', 'e', 's', 's'] {
                KeyMode::Press
            } else if m == seq!['r', 'e', 'l', 'e', 'a', 's', 'e'] {
                KeyMode::Release
            } else {
                KeyMode::Click
            },
        ),
{
    lemma_next_word_after_blanks(b, name, rest);
    let tail = b + name + rest;
    assert(is_ws(tail[0]));
    assert(kw_key() + b + name + rest =~= kw_key() + tail);
    lemma_keyword_first(kw_key(), tail);
}

/// A line that is no directive is typed as it stands, leading blanks
/// included: blanks, then a first character that is neither blank nor `#`.
pub proof fn lemma_text_line_as_it_stands(b: Seq<char>, x: Seq<char>)
    requires
        all_ws(b),
        x.len() > 0,
        !is_ws(x[0]),
        x[0] != '#',
    ensures
        line_command(b + x) == CommandModel::Line(b + x),
{
    lemma_trim_start_skips(b, x);
}

// ---------------------------------------------------------------------------
// Reading a script

/// The commands of a script, one for each of its lines.
pub fn parse_script(text: &str) -> (r: Vec<Command>)
    ensures
        r@.len() == script_commands(text@).len(),
        forall|i: int| 0 <= i < r@.len() ==> #[trigger] r@[i]@ == script_commands(text@)[i],
{
    let chars = to_chars(text);
    let ls = split_lines(&chars);
    let mut r: Vec<Command> = Vec::new();
    let mut i: usize = 0;
    while i < ls.len()
        invariant
            chars@ == text@,
            ls@.len() == lines(text@).len(),
            forall|k: int| 0 <= k < ls@.len() ==> #[trigger] ls@[k]@ == lines(text@)[k],
            0 <= i <= ls.len(),
            r@.len() == i,
            forall|k: int| 0 <= k < i ==> #[trigger] r@[k]@ == script_commands(text@)[k],
        decreases ls.len() - i,
    {
        let c = parse_line_chars(&ls[i]);
        assert(ls@[i as int]@ == lines(text@)[i as int]);
        r.push(c);
        i = i + 1;
    }
    r
}

/// The command that one line of a script stands for.
pub fn parse_line(line: &str) -> (r: Command)
    ensures
        r@ == line_command(line@),
{
    let chars = to_chars(line);
    parse_line_chars(&chars)
}

fn parse_line_chars(line: &Vec<char>) -> (r: Command)
    ensures
        r@ == line_command(line@),
{
    let n = line.len();
    assert(line@.subrange(0, n as int) =~= line@);
    let t0 = skip_ws(line, 0, n);
    if !(t0 < n && line[t0] == '#') {
        return Command::Line(string_of(line, 0, n));
    }
    let h = skip_char(line, t0, n, '#');
    let b0 = skip_ws(line, h, n);
    let b1 = trim_end_pos(line, b0, n);
    let ghost body = line@.subrange(b0 as int, b1 as int);
    assert(body == trim(strip_leading(trim_start(line@), '#')));
    match next_word_at(line, b0, b1) {
        None => Command::Comment,
        Some((a, b)) => {
            if eq_upper(line, a, b, &vec!['M', 'A', 'N', 'U', 'A', 'L', '_', 'S', 'L', 'E', 'E', 'P']) {
                Command::StartDelay(number_arg_at(line, b, b1, 0))
            } else if eq_upper(line, a, b, &vec!['M', 'A', 'N', 'U', 'A', 'L', '_', 'D', 'E', 'L', 'A', 'Y']) {
                Command::SetDelay(number_arg_at(line, b, b1, 100))
            } else if eq_upper(
                line,
                a,
                b,
                &vec!['M', 'A', 'N', 'U', 'A', 'L', '_', 'W', 'R', 'I', 'T', 'E', '_', 'D', 'E', 'L', 'A', 'Y'],
            ) {
                Command::SetWriteDelay(number_arg_at(line, b, b1, 20))
            } else if eq_upper(line, a, b, &vec!['K', 'E', 'Y']) {
                key_command_at(line, b, b1)
            } else if eq_upper(line, a, b, &vec!['T', 'Y', 'P', 'E']) {
                type_command_at(line, b0, b1)
            } else if eq_upper(line, a, b, &vec!['P', 'A', 'U', 'S', 'E']) {
                Command::Pause(number_arg_at(line, b, b1, 0))
            } else {
                Command::Comment
            }
        },
    }
}

fn number_arg_at(s: &Vec<char>, lo: usize, hi: usize, default: u64) -> (r: u64)
    requires
        lo <= hi <= s.len(),
    ensures
        r == number_arg(s@.subrange(lo as int, hi as int), default),
{
    match next_word_at(s, lo, hi) {
        None => default,
        Some((a, b)) => match parse_u64_at(s, a, b) {
            Some(v) => v,
            None => default,
        },
    }
}

fn key_command_at(s: &Vec<char>, lo: usize, hi: usize) -> (r: Command)
    requires
        lo <= hi <= s.len(),
    ensures
        r@ == key_command(s@.subrange(lo as int, hi as int)),
{
    match next_word_at(s, lo, hi) {
        None => {
            let name = String::new();
            assert(name@ =~= Seq::<char>::empty());
            Command::Key(name, KeyMode::Click)
        },
        Some((a, b)) => {
            let name = string_of(s, a, b);
            let mode = match next_word_at(s, b, hi) {
                None => KeyMode::Click,
                Some((c, d)) => if eq_range(s, c, d, &vec!['p', 'r', 'e', 's', 's']) {
                    KeyMode::Press
                } else if eq_range(s, c, d, &vec!['r', 'e', 'l', 'e', 'a', 's', 'e']) {
                    KeyMode::Release
                } else {
                    KeyMode::Click
                },
            };
            Command::Key(name, mode)
        },
    }
}

fn type_command_at(s: &Vec<char>, lo: usize, hi: usize) -> (r: Command)
    requires
        lo <= hi <= s.len(),
    ensures
        r@ == type_command(s@.subrange(lo as int, hi as int)),
{
    let ghost body = s@.subrange(lo as int, hi as int);
    let q1 = find_char(s, lo, hi, '"');
    if q1 == hi {
        return Command::Comment;
    }
    assert(body.skip(q1 - lo + 1) =~= s@.subrange(q1 + 1, hi as int));
    let q2 = find_char(s, q1 + 1, hi, '"');
    if q2 == hi {
        return Command::Comment;
    }
    let text = string_of(s, q1 + 1, q2);
    assert(body.subrange(q1 - lo + 1, q2 - lo) =~= s@.subrange(q1 + 1, q2 as int));
    assert(body.skip(q2 - lo + 1) =~= s@.subrange(q2 + 1, hi as int));
    let delay = number_arg_at(s, q2 + 1, hi, 10);
    Command::Type(text, delay)
}

/// The key that `name` stands for in `# key <name>`: a key of the list in
/// any ASCII case, or any single character (made lower case).
pub fn parse_key_name(name: &str) -> (r: Option<KeyCode>)
    ensures
        r == key_from_name(name@),
{
    let chars = to_chars(name);
    named_key_of(&chars)
}

fn named_key_of(s: &Vec<char>) -> (r: Option<KeyCode>)
    ensures
        r == named_key(lower_seq(s@)),
{
    if eq_lower(s, &vec!['e', 'n', 't', 'e', 'r']) || eq_lower(s, &vec!['r', 'e', 't', 'u', 'r', 'n']) {
        Some(KeyCode::Return)
    } else if eq_lower(s, &vec!['t', 'a', 'b']) {
        Some(KeyCode::Tab)
    } else if eq_lower(s, &vec!['s', 'p', 'a', 'c', 'e']) {
        Some(KeyCode::Space)
    } else if eq_lower(s, &vec!['e', 's', 'c']) || eq_lower(s, &vec!['e', 's', 'c', 'a', 'p', 'e']) {
        Some(KeyCode::Escape)
    } else if eq_lower(s, &vec!['b', 'a', 'c', 'k', 's', 'p', 'a', 'c', 'e']) {
        Some(KeyCode::Backspace)
    } else if eq_lower(s, &vec!['d', 'e', 'l', 'e', 't', 'e']) || eq_lower(s, &vec!['d', 'e', 'l']) {
        Some(KeyCode::Delete)
    } else if eq_lower(s, &vec!['u', 'p']) {
        Some(KeyCode::UpArrow)
    } else if eq_lower(s, &vec!['d', 'o', 'w', 'n']) {
        Some(KeyCode::DownArrow)
    } else if eq_lower(s, &vec!['l', 'e', 'f', 't']) {
        Some(KeyCode::LeftArrow)
    } else if eq_lower(s, &vec!['r', 'i', 'g', 'h', 't']) {
        Some(KeyCode::RightArrow)
    } else if eq_lower(s, &vec!['s', 'h', 'i', 'f', 't']) {
        Some(KeyCode::Shift)
    } else if eq_lower(s, &vec!['c', 't', 'r', 'l']) || eq_lower(
        s,
        &vec!['c', 'o', 'n', 't', 'r', 'o', 'l'],
    ) {
        Some(KeyCode::Control)
    } else if eq_lower(s, &vec!['a', 'l', 't']) {
        Some(KeyCode::Alt)
    } else if eq_lower(s, &vec!['h', 'o', 'm', 'e']) {
        Some(KeyCode::Home)
    } else if eq_lower(s, &vec!['e', 'n', 'd']) {
        Some(KeyCode::End)
    } else if eq_lower(s, &vec!['p', 'a', 'g', 'e', 'u', 'p']) {
        Some(KeyCode::PageUp)
    } else if eq_lower(s, &vec!['p', 'a', 'g', 'e', 'd', 'o', 'w', 'n']) {
        Some(KeyCode::PageDown)
    } else if eq_lower(s, &vec!['f', '1']) {
        Some(KeyCode::F1)
    } else if eq_lower(s, &vec!['f', '2']) {
        Some(KeyCode::F2)
    } else if eq_lower(s, &vec!['f', '3']) {
        Some(KeyCode::F3)
    } else if eq_lower(s, &vec!['f', '4']) {
        Some(KeyCode::F4)
    } else if eq_lower(s, &vec!['f', '5']) {
        Some(KeyCode::F5)
    } else if eq_lower(s, &vec!['f', '6']) {
        Some(KeyCode::F6)
    } else if eq_lower(s, &vec!['f', '7']) {
        Some(KeyCode::F7)
    } else if eq_lower(s, &vec!['f', '8']) {
        Some(KeyCode::F8)
    } else if eq_lower(s, &vec!['f', '9']) {
        Some(KeyCode::F9)
    } else if eq_lower(s, &vec!['f', '1', '0']) {
        Some(KeyCode::F10)
    } else if eq_lower(s, &vec!['f', '1', '1']) {
        Some(KeyCode::F11)
    } else if eq_lower(s, &vec!['f', '1', '2']) {
        Some(KeyCode::F12)
    } else if s.len() == 1 {
        Some(KeyCode::Unicode(lower_char(s[0])))
    } else {
        None
    }
}

} // verus!

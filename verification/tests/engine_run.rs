use rtexter::engine::{parse_script, EngineConfig, KeyCode, KeyMode};
use rtexter::machine::{script_start_delay, Action, Engine};

fn cfg(start: u64, line: u64, write: u64, repeat: bool, enter: bool) -> EngineConfig {
    EngineConfig {
        start_delay_ms: start,
        line_delay_ms: line,
        write_delay_ms: write,
        repeat,
        press_enter: enter,
    }
}

/// The actions of a run that stays wanted, without the quiet steps.
fn run_wanted(script: &str, c: EngineConfig, max_steps: usize) -> Vec<Action> {
    let mut e = Engine::new(parse_script(script), c);
    let mut out = Vec::new();
    for _ in 0..max_steps {
        let a = e.step(true);
        match a {
            Action::Nothing => {}
            Action::Finish | Action::Halt => {
                out.push(a);
                break;
            }
            _ => out.push(a),
        }
    }
    out
}

const ENTER: Action = Action::Key(KeyCode::Return, KeyMode::Click);

#[test]
fn a_line_with_enter_around_it() {
    let acts = run_wanted("ab", cfg(0, 100, 20, false, true), 100);
    assert_eq!(
        acts,
        vec![
            Action::Progress(1, 1),
            ENTER,
            Action::Write('a'),
            Action::Sleep(20),
            Action::Write('b'),
            Action::Sleep(20),
            ENTER,
            Action::Sleep(100),
            Action::Finish,
        ]
    );
}

#[test]
fn no_enter_and_no_write_delay() {
    let acts = run_wanted("ab\n\nc", cfg(0, 7, 0, false, false), 100);
    assert_eq!(
        acts,
        vec![
            Action::Progress(1, 3),
            Action::Write('a'),
            Action::Write('b'),
            Action::Sleep(7),
            Action::Progress(2, 3),
            Action::Sleep(7),
            Action::Progress(3, 3),
            Action::Write('c'),
            Action::Sleep(7),
            Action::Finish,
        ]
    );
}

#[test]
fn start_delay_in_chunks_of_fifty() {
    let acts = run_wanted("# pause 0", cfg(120, 0, 0, false, false), 100);
    assert_eq!(
        acts,
        vec![
            Action::Sleep(50),
            Action::Sleep(50),
            Action::Sleep(20),
            Action::Progress(1, 1),
            Action::Finish,
        ]
    );
}

#[test]
fn start_delay_is_the_longest_of_setting_and_script() {
    let acts = run_wanted("# MANUAL_SLEEP 60\n# MANUAL_SLEEP 110", cfg(30, 0, 0, false, false), 100);
    assert_eq!(
        acts,
        vec![
            Action::Sleep(50),
            Action::Sleep(50),
            Action::Sleep(10),
            Action::Progress(1, 2),
            Action::Progress(2, 2),
            Action::Finish,
        ]
    );
    let acts = run_wanted("# MANUAL_SLEEP 60", cfg(120, 0, 0, false, false), 100);
    assert_eq!(
        acts,
        vec![
            Action::Sleep(50),
            Action::Sleep(50),
            Action::Sleep(20),
            Action::Progress(1, 1),
            Action::Finish,
        ]
    );
}

#[test]
fn script_start_delay_values() {
    assert_eq!(script_start_delay(&parse_script("# MANUAL_SLEEP 60"), 3000), 3000);
    assert_eq!(script_start_delay(&parse_script("a\n# MANUAL_SLEEP 4000\n# manual_sleep 9"), 3000), 4000);
    assert_eq!(script_start_delay(&parse_script("a"), 25), 25);
}

#[test]
fn stop_ends_an_empty_repeating_script() {
    let mut e = Engine::new(parse_script(""), cfg(0, 0, 0, true, true));
    for _ in 0..5 {
        assert_eq!(e.step(true), Action::Nothing);
    }
    assert_eq!(e.step(false), Action::Halt);
    assert!(e.is_done());
}

#[test]
fn stop_at_the_end_of_a_repeating_pass() {
    let mut e = Engine::new(parse_script("# pause 0"), cfg(0, 0, 0, true, false));
    assert_eq!(e.step(true), Action::Nothing);
    assert_eq!(e.step(true), Action::Progress(1, 1));
    assert_eq!(e.step(true), Action::Nothing);
    assert_eq!(e.step(true), Action::Nothing);
    assert_eq!(e.step(false), Action::Halt);
    assert!(e.is_done());
}

#[test]
fn repeat_keeps_the_delays_last_set() {
    let mut e = Engine::new(parse_script("a\n# MANUAL_DELAY 9"), cfg(0, 1, 0, true, false));
    let mut out = Vec::new();
    for _ in 0..30 {
        match e.step(true) {
            Action::Nothing => {}
            a => out.push(a),
        }
    }
    assert_eq!(
        &out[..8],
        &[
            Action::Progress(1, 2),
            Action::Write('a'),
            Action::Sleep(1),
            Action::Progress(2, 2),
            Action::Progress(1, 2),
            Action::Write('a'),
            Action::Sleep(9),
            Action::Progress(2, 2),
        ]
    );
}

#[test]
fn progress_comes_in_order() {
    let acts = run_wanted("a\n# pause 3\n# key tab\n\n# note", cfg(0, 0, 0, false, true), 200);
    let reports: Vec<Action> = acts.into_iter().filter(|a| matches!(a, Action::Progress(_, _))).collect();
    let want: Vec<Action> = (1..=5).map(|i| Action::Progress(i, 5)).collect();
    assert_eq!(reports, want);
}

#[test]
fn delays_change_for_what_follows() {
    let script = "x\n# MANUAL_DELAY 5\n# MANUAL_WRITE_DELAY 3\ny";
    let acts = run_wanted(script, cfg(0, 1, 0, false, false), 100);
    assert_eq!(
        acts,
        vec![
            Action::Progress(1, 4),
            Action::Write('x'),
            Action::Sleep(1),
            Action::Progress(2, 4),
            Action::Progress(3, 4),
            Action::Progress(4, 4),
            Action::Write('y'),
            Action::Sleep(3),
            Action::Sleep(5),
            Action::Finish,
        ]
    );
}

#[test]
fn keys_types_and_pauses() {
    let script = "# key shift press\n# key nosuchkey\n# type \"hi\" 4\n# pause 70\n# key F2 release";
    let acts = run_wanted(script, cfg(0, 100, 20, false, true), 100);
    assert_eq!(
        acts,
        vec![
            Action::Progress(1, 5),
            Action::Key(KeyCode::Shift, KeyMode::Press),
            Action::Progress(2, 5),
            Action::Progress(3, 5),
            Action::Write('h'),
            Action::Sleep(4),
            Action::Write('i'),
            Action::Sleep(4),
            Action::Progress(4, 5),
            Action::Sleep(50),
            Action::Sleep(20),
            Action::Progress(5, 5),
            Action::Key(KeyCode::F2, KeyMode::Release),
            Action::Finish,
        ]
    );
}

#[test]
fn empty_script_finishes() {
    assert_eq!(run_wanted("", cfg(0, 100, 20, false, true), 10), vec![Action::Finish]);
}

#[test]
fn repeat_runs_the_script_again() {
    let mut e = Engine::new(parse_script("a"), cfg(0, 0, 0, true, false));
    let mut out = Vec::new();
    for _ in 0..20 {
        match e.step(true) {
            Action::Nothing => {}
            a => out.push(a),
        }
    }
    assert_eq!(
        &out[..6],
        &[
            Action::Progress(1, 1),
            Action::Write('a'),
            Action::Sleep(0),
            Action::Progress(1, 1),
            Action::Write('a'),
            Action::Sleep(0),
        ]
    );
    assert!(!e.is_done());
}

#[test]
fn stop_between_commands_halts() {
    let mut e = Engine::new(parse_script("abc\ndef"), cfg(0, 10, 0, false, false));
    assert_eq!(e.step(true), Action::Nothing);
    assert_eq!(e.step(false), Action::Halt);
    assert!(e.is_done());
    assert_eq!(e.step(true), Action::Halt);
}

#[test]
fn stop_while_typing_finishes_the_line_and_halts() {
    let mut e = Engine::new(parse_script("abc\ndef"), cfg(0, 10, 5, false, true));
    let mut acts = Vec::new();
    for _ in 0..4 {
        acts.push(e.step(true));
    }
    assert_eq!(
        acts,
        vec![Action::Nothing, Action::Progress(1, 2), ENTER, Action::Write('a')]
    );
    let mut rest = Vec::new();
    for _ in 0..5 {
        rest.push(e.step(false));
    }
    assert_eq!(rest, vec![Action::Sleep(5), ENTER, Action::Sleep(10), Action::Halt, Action::Halt]);
    assert!(e.is_done());
}

#[test]
fn stop_during_start_delay_and_pause() {
    let mut e = Engine::new(parse_script("# pause 1000\nx"), cfg(1000, 0, 0, false, false));
    assert_eq!(e.step(true), Action::Sleep(50));
    assert_eq!(e.step(false), Action::Nothing);
    assert_eq!(e.step(false), Action::Halt);

    let mut e = Engine::new(parse_script("# pause 1000\nx"), cfg(0, 0, 0, false, false));
    assert_eq!(e.step(true), Action::Nothing);
    assert_eq!(e.step(true), Action::Progress(1, 2));
    assert_eq!(e.step(true), Action::Nothing);
    assert_eq!(e.step(true), Action::Sleep(50));
    assert_eq!(e.step(false), Action::Nothing);
    assert_eq!(e.step(false), Action::Halt);
}

#[test]
fn help_example_runs() {
    let script = "# MANUAL_SLEEP 2000\nHello\n# key enter\nWorld\n# pause 500\n# type \"ABC\" 10";
    let acts = run_wanted(script, cfg(3000, 100, 0, false, true), 1000);
    let mut want = vec![Action::Sleep(50); 60];
    want.push(Action::Progress(1, 6));
    want.push(Action::Progress(2, 6));
    want.push(ENTER);
    for c in "Hello".chars() {
        want.push(Action::Write(c));
    }
    want.push(ENTER);
    want.push(Action::Sleep(100));
    want.push(Action::Progress(3, 6));
    want.push(ENTER);
    want.push(Action::Progress(4, 6));
    want.push(ENTER);
    for c in "World".chars() {
        want.push(Action::Write(c));
    }
    want.push(ENTER);
    want.push(Action::Sleep(100));
    want.push(Action::Progress(5, 6));
    want.extend(vec![Action::Sleep(50); 10]);
    want.push(Action::Progress(6, 6));
    for c in "ABC".chars() {
        want.push(Action::Write(c));
        want.push(Action::Sleep(10));
    }
    want.push(Action::Finish);
    assert_eq!(acts, want);
}

#[test]
fn stop_in_flight_sends_at_most_two_events() {
    let mut e = Engine::new(parse_script("abc\ndef"), cfg(0, 10, 0, false, true));
    assert_eq!(e.step(true), Action::Nothing);
    assert_eq!(e.step(true), Action::Progress(1, 2));
    assert_eq!(e.step(true), ENTER);
    // The flag is cleared while this step, which has seen it set, is under way.
    let mut acts = vec![e.step(true)];
    for _ in 0..4 {
        acts.push(e.step(false));
    }
    assert!(e.is_done());
    let events = acts
        .iter()
        .filter(|a| matches!(a, Action::Key(_, _) | Action::Write(_)))
        .count();
    assert_eq!(events, 2);
    assert_eq!(acts, vec![Action::Write('a'), ENTER, Action::Sleep(10), Action::Halt, Action::Halt]);
}

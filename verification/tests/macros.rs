use rtexter::hotkeys::{hotkey_action, HotkeyAction};
use rtexter::macros::{string_to_key, MacroEvent, MacroEventKind, MacroKey, MacroRecorder, PlaybackStep};

fn press(t: u128, k: &str) -> MacroEvent {
    MacroEvent { time_us: t, kind: MacroEventKind::KeyPress(k.to_string()) }
}

fn release(t: u128, k: &str) -> MacroEvent {
    MacroEvent { time_us: t, kind: MacroEventKind::KeyRelease(k.to_string()) }
}

#[test]
fn new_recorder_is_idle_and_stopped_by_f8() {
    let r = MacroRecorder::new();
    assert!(r.events.is_empty());
    assert!(!r.recording);
    assert_eq!(r.stop_key, "F8");
}

#[test]
fn recording_adds_events_until_the_stop_key() {
    let mut r = MacroRecorder::new();
    r.record(1, MacroEventKind::KeyPress("KeyA".to_string()));
    assert!(r.events.is_empty());
    assert!(r.start());
    assert!(r.recording);
    r.record(10, MacroEventKind::KeyPress("KeyA".to_string()));
    r.record(20, MacroEventKind::KeyRelease("KeyA".to_string()));
    r.record(25, MacroEventKind::KeyRelease("F8".to_string()));
    assert!(r.recording);
    r.record(30, MacroEventKind::KeyPress("F8".to_string()));
    assert!(!r.recording);
    r.record(40, MacroEventKind::KeyPress("KeyB".to_string()));
    assert_eq!(r.events, vec![press(10, "KeyA"), release(20, "KeyA")]);
}

#[test]
fn start_clears_and_does_not_restart() {
    let mut r = MacroRecorder::new();
    assert!(r.start());
    r.record(5, MacroEventKind::KeyPress("Space".to_string()));
    assert!(!r.start());
    assert_eq!(r.events.len(), 1);
    r.stop();
    assert!(!r.recording);
    assert_eq!(r.events.len(), 1);
    assert!(r.start());
    assert!(r.events.is_empty());
}

#[test]
fn playback_waits_the_recorded_gaps() {
    let mut r = MacroRecorder::new();
    r.events = vec![press(100, "KeyA"), release(250, "KeyA"), press(200, "Nope"), release(400, "Num7")];
    let steps = r.play();
    assert_eq!(
        steps,
        vec![
            PlaybackStep { wait_us: 100, press: true, key: Some(MacroKey::KeyA) },
            PlaybackStep { wait_us: 150, press: false, key: Some(MacroKey::KeyA) },
            PlaybackStep { wait_us: 0, press: true, key: None },
            PlaybackStep { wait_us: 200, press: false, key: Some(MacroKey::Num7) },
        ]
    );
    assert!(MacroRecorder::new().play().is_empty());
}

#[test]
fn playback_total_wait_is_the_event_time() {
    let mut r = MacroRecorder::new();
    r.events = vec![press(3, "KeyA"), release(10, "KeyA"), press(10, "KeyB"), release(42, "KeyB")];
    let steps = r.play();
    let mut total = 0u128;
    for (s, e) in steps.iter().zip(r.events.iter()) {
        total += s.wait_us;
        assert_eq!(total, e.time_us);
    }
}

#[test]
fn key_names_round_trip() {
    let names = [
        "Alt", "AltGr", "Backspace", "CapsLock", "ControlLeft", "ControlRight", "Delete",
        "DownArrow", "End", "Escape", "F1", "F2", "F3", "F4", "F5", "F6", "F7", "F8", "F9", "F10",
        "F11", "F12", "Home", "LeftArrow", "MetaLeft", "MetaRight", "PageDown", "PageUp", "Return",
        "RightArrow", "ShiftLeft", "ShiftRight", "Space", "Tab", "UpArrow", "KeyA", "KeyB", "KeyC",
        "KeyD", "KeyE", "KeyF", "KeyG", "KeyH", "KeyI", "KeyJ", "KeyK", "KeyL", "KeyM", "KeyN",
        "KeyO", "KeyP", "KeyQ", "KeyR", "KeyS", "KeyT", "KeyU", "KeyV", "KeyW", "KeyX", "KeyY",
        "KeyZ", "Num0", "Num1", "Num2", "Num3", "Num4", "Num5", "Num6", "Num7", "Num8", "Num9",
    ];
    for n in names {
        let k = string_to_key(n).unwrap();
        assert_eq!(format!("{:?}", k), n);
    }
}

#[test]
fn unknown_key_names() {
    assert_eq!(string_to_key("alt"), None);
    assert_eq!(string_to_key("Key1"), None);
    assert_eq!(string_to_key("Keya"), None);
    assert_eq!(string_to_key("NumA"), None);
    assert_eq!(string_to_key("F13"), None);
    assert_eq!(string_to_key(""), None);
    assert_eq!(string_to_key("Unknown(42)"), None);
    assert_eq!(string_to_key("KeyZ"), Some(MacroKey::KeyZ));
    assert_eq!(string_to_key("Num0"), Some(MacroKey::Num0));
}

#[test]
fn hotkeys() {
    assert_eq!(hotkey_action("F6", "F6", "F7"), Some(HotkeyAction::Start));
    assert_eq!(hotkey_action("F7", "F6", "F7"), Some(HotkeyAction::Stop));
    assert_eq!(hotkey_action("F8", "F6", "F7"), None);
    assert_eq!(hotkey_action("F6", "F6", "F6"), Some(HotkeyAction::Start));
}

#[test]
fn recorded_times_stay_in_order() {
    let mut r = MacroRecorder::new();
    assert!(r.start());
    for (t, k) in [(1u128, "KeyA"), (5, "KeyB"), (5, "KeyC"), (9, "KeyD")] {
        r.record(t, MacroEventKind::KeyPress(k.to_string()));
    }
    let times: Vec<u128> = r.events.iter().map(|e| e.time_us).collect();
    assert_eq!(times, vec![1, 5, 5, 9]);
}

//! Global hotkeys that start and stop a run.
use vstd::prelude::*;
use crate::text::{chars_eq, to_chars};

verus! {

#[derive(Clone, Copy, Debug, PartialEq, Eq, Structural)]
pub enum HotkeyAction {
    Start,
    Stop,
}

/// What a pressed key asks for: the start key starts a run, the stop key
/// stops it (the start key wins where both are the same), any other key
/// asks for nothing.
pub open spec fn hotkey_for(name: Seq<char>, start_key: Seq<char>, stop_key: Seq<char>) -> Option<
    HotkeyAction,
> {
    if name == start_key {
        Some(HotkeyAction::Start)
    } else if name == stop_key {
        Some(HotkeyAction::Stop)
    } else {
        None
    }
}

/// Only the start key starts a run and only the stop key stops one: a key
/// whose name is neither asks for nothing, whatever the names have in common.
pub proof fn lemma_hotkeys_match_whole_names(
    name: Seq<char>,
    start_key: Seq<char>,
    stop_key: Seq<char>,
)
    ensures
        hotkey_for(name, start_key, stop_key) == Some(HotkeyAction::Start) <==> name == start_key,
        hotkey_for(name, start_key, stop_key) == Some(HotkeyAction::Stop) <==> (name == stop_key
            && name != start_key),
        hotkey_for(name, start_key, stop_key) is None <==> (name != start_key && name != stop_key),
{
}

/// What the press of the key named `name` asks for.
pub fn hotkey_action(name: &str, start_key: &str, stop_key: &str) -> (r: Option<HotkeyAction>)
    ensures
        r == hotkey_for(name@, start_key@, stop_key@),
{
    let n = to_chars(name);
    if chars_eq(&n, &to_chars(start_key)) {
        Some(HotkeyAction::Start)
    } else if chars_eq(&n, &to_chars(stop_key)) {
        Some(HotkeyAction::Stop)
    } else {
        None
    }
}

} // verus!

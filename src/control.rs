//! Decisions of the acquisition loop and of the consumer's attach/detach
//! lifecycle; the caller performs the gateway calls that they name.
use vstd::prelude::*;
use crate::store::{OPEN_FAILED, SHUTDOWN};
use crate::text::{parse_signed, signed_value};

verus! {

/// Byte budget of one read of the battle buffer.
pub const BATTLE_BUFFER_LEN: u64 = 1000;

/// Byte budget of one read of the player's name.
pub const NAME_LEN: u64 = 16;

/// Address of the player's name where the settings give none.
pub const DEFAULT_NAME_ADDR: i64 = 0xECB8A8;

/// Address of the battle buffer where the settings give none.
pub const DEFAULT_BATTLE_INFO_ADDR: i64 = 0x65B5DC;

/// Address of the in-battle flag where the settings give none.
pub const DEFAULT_BATTLE_FLAG_ADDR: i64 = 0xD3BEF4;

/// What the acquisition loop does on one tick.
#[derive(PartialEq, Eq, Structural, Debug)]
pub enum TickAction {
    /// The shutdown sentinel was seen: stop for good.
    Terminate,
    /// No open handle: sleep and look again.
    Idle,
    /// Read the battle buffer through this handle.
    Poll(i64),
}

/// The action for a tick that observes connection state `state`.
pub open spec fn tick_spec(state: i64) -> TickAction {
    if state == SHUTDOWN {
        TickAction::Terminate
    } else if state > 0 {
        TickAction::Poll(state)
    } else {
        TickAction::Idle
    }
}

/// Decides one tick of the acquisition loop from the connection state.
pub fn tick_action(state: i64) -> (r: TickAction)
    ensures
        r == tick_spec(state),
{
    if state == SHUTDOWN {
        TickAction::Terminate
    } else if state > 0 {
        TickAction::Poll(state)
    } else {
        TickAction::Idle
    }
}

/// Whether the acquisition loop goes on after a tick: it stops once it has
/// published a roster and the consumer's refresh signal is gone.
pub fn keeps_running(published: bool, signal_available: bool) -> (r: bool)
    ensures
        r == (!published || signal_available),
{
    !published || signal_available
}

/// What the consumer's start/stop control does.
#[derive(PartialEq, Eq, Structural, Debug)]
pub enum ToggleAction {
    /// Release this handle, then set the state to disconnected.
    Detach(i64),
    /// Open the process of this window, then record the outcome.
    Attach(i64),
    /// The window identifier is not a number: set the state to `BAD_WINDOW_ID`.
    Reject,
    /// The window identifier is a number but not a valid one: change nothing.
    Ignore,
}

/// The decimal integer that `s` spells, with an optional sign, where it fits
/// in an `i64`.
pub open spec fn window_id(s: Seq<char>) -> Option<int> {
    signed_value(s, 10)
}

/// Reads a window identifier typed by the user as a signed decimal `i64`.
pub fn parse_window_id(s: &str) -> (r: Option<i64>)
    ensures
        r matches Some(v) ==> window_id(s@) == Some(v as int),
        r is None ==> window_id(s@) is None,
{
    parse_signed(s, 10)
}

/// The action of the start/stop control in connection state `state` with
/// the window identifier text `window`.
pub open spec fn toggle_spec(state: i64, window: Seq<char>) -> ToggleAction {
    if state > 0 {
        ToggleAction::Detach(state)
    } else {
        match window_id(window) {
            None => ToggleAction::Reject,
            Some(w) => if w > 0 {
                ToggleAction::Attach(w as i64)
            } else {
                ToggleAction::Ignore
            },
        }
    }
}

/// Decides what the start/stop control does: detach from an open handle,
/// or else attach to the window that `window` names.
pub fn toggle_action(state: i64, window: &str) -> (r: ToggleAction)
    ensures
        r == toggle_spec(state, window@),
{
    if state > 0 {
        return ToggleAction::Detach(state);
    }
    match parse_window_id(window) {
        None => ToggleAction::Reject,
        Some(w) => {
            if w > 0 {
                ToggleAction::Attach(w)
            } else {
                ToggleAction::Ignore
            }
        },
    }
}

/// The connection state after an attach whose open call returned `opened`.
pub fn attach_result(opened: i64) -> (r: i64)
    ensures
        r == (if opened > 0 { opened } else { OPEN_FAILED }),
{
    if opened > 0 {
        opened
    } else {
        OPEN_FAILED
    }
}

/// A memory address from a setting written in hexadecimal, with an optional
/// sign, or `default` where the setting does not read as an `i64`.
pub fn setting_address(setting: &str, default: i64) -> (r: i64)
    ensures
        r == (match signed_value(setting@, 16) {
            Some(v) => v as i64,
            None => default,
        }),
{
    match parse_signed(setting, 16) {
        Some(v) => v,
        None => default,
    }
}

} // verus!

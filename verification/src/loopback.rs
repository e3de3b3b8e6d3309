//! The OAuth loopback listener on `127.0.0.1:17388`: when it is started, stopped and torn
//! down, and the callback URL it hands to the front end.
//!
//! The listener lives only while an OAuth login is under way: starting it again while it
//! listens is a no-op, a failed bind is reported, and the first callback, a stop request or
//! the ten-minute limit shuts it down.

use vstd::prelude::*;
use crate::decimal::{nat_text, push_u64};
use crate::text::{owned, push_str, string_from};

verus! {

/// The port that the OAuth redirect URI names.
pub const LOOPBACK_PORT: u16 = 17388;

/// Where the listener stands.
pub enum LoopbackPhase {
    /// No listener.
    Idle,
    /// Binding the port (under the lock of the start request).
    Binding,
    /// Serving `/authorize`.
    Listening,
}

/// What happened.
pub enum LoopbackEvent {
    /// `oauth_loopback_start` was called.
    StartRequested,
    /// The port was bound.
    BindSucceeded,
    /// Binding the port failed, with the system's error text.
    BindFailed(String),
    /// `oauth_loopback_stop` was called.
    StopRequested,
    /// The server stopped (after the first callback, a stop, the time limit, or an error).
    ServerExited,
}

/// What the command layer does next.
pub enum LoopbackAction {
    /// Nothing; a start request answers `Ok`.
    Nothing,
    /// Bind `127.0.0.1:17388`.
    Bind,
    /// Start serving (and the ten-minute limit), log the start, answer `Ok`.
    Serve,
    /// Answer the start request with this error.
    Fail(String),
    /// Send the shutdown signal to the server.
    Shutdown,
}

/// The error for a failed bind: `端口 17388 绑定失败（可能被其他程序占用）: <error>`.
pub open spec fn bind_error_message(err: Seq<char>) -> Seq<char> {
    "端口 "@ + nat_text(17388) + " 绑定失败（可能被其他程序占用）: "@ + err
}

/// The phase after an event.
pub open spec fn loopback_after(phase: LoopbackPhase, event: LoopbackEvent) -> LoopbackPhase {
    match (phase, event) {
        (LoopbackPhase::Idle, LoopbackEvent::StartRequested) => LoopbackPhase::Binding,
        (LoopbackPhase::Binding, LoopbackEvent::BindSucceeded) => LoopbackPhase::Listening,
        (LoopbackPhase::Binding, LoopbackEvent::BindFailed(_)) => LoopbackPhase::Idle,
        (LoopbackPhase::Listening, LoopbackEvent::StopRequested) => LoopbackPhase::Idle,
        (_, LoopbackEvent::ServerExited) => LoopbackPhase::Idle,
        (p, _) => p,
    }
}

/// Whether `action` is what an event calls for: bind on a start from idle, serve once
/// bound, report a failed bind, shut down on a stop while listening, and nothing else.
pub open spec fn loopback_action_for(phase: LoopbackPhase, event: LoopbackEvent, action: LoopbackAction) -> bool {
    match (phase, event) {
        (LoopbackPhase::Idle, LoopbackEvent::StartRequested) => action is Bind,
        (LoopbackPhase::Binding, LoopbackEvent::BindSucceeded) => action is Serve,
        (LoopbackPhase::Binding, LoopbackEvent::BindFailed(e)) => action matches LoopbackAction::Fail(m)
            && m@ == bind_error_message(e@),
        (LoopbackPhase::Listening, LoopbackEvent::StopRequested) => action is Shutdown,
        _ => action is Nothing,
    }
}

/// Decides the listener's next phase and the command layer's next action.
pub fn loopback_step(phase: LoopbackPhase, event: LoopbackEvent) -> (r: (LoopbackPhase, LoopbackAction))
    ensures
        r.0 == loopback_after(phase, event),
        loopback_action_for(phase, event, r.1),
{
    match (phase, event) {
        (LoopbackPhase::Idle, LoopbackEvent::StartRequested) => (LoopbackPhase::Binding, LoopbackAction::Bind),
        (LoopbackPhase::Binding, LoopbackEvent::BindSucceeded) => (LoopbackPhase::Listening, LoopbackAction::Serve),
        (LoopbackPhase::Binding, LoopbackEvent::BindFailed(e)) => {
            let mut m: Vec<char> = Vec::new();
            push_str(&mut m, "端口 ");
            push_u64(&mut m, LOOPBACK_PORT as u64);
            push_str(&mut m, " 绑定失败（可能被其他程序占用）: ");
            push_str(&mut m, e.as_str());
            (LoopbackPhase::Idle, LoopbackAction::Fail(string_from(&m)))
        },
        (LoopbackPhase::Listening, LoopbackEvent::StopRequested) => (LoopbackPhase::Idle, LoopbackAction::Shutdown),
        (_, LoopbackEvent::ServerExited) => (LoopbackPhase::Idle, LoopbackAction::Nothing),
        (p, _) => (p, LoopbackAction::Nothing),
    }
}

/// The callback URL handed to the front end: the loopback `/authorize` URL with the raw
/// query string as it came (empty when there was none).
pub open spec fn callback_url_of(query: Option<Seq<char>>) -> Seq<char> {
    "http://127.0.0.1:"@ + nat_text(17388) + "/authorize?"@ + match query {
        Some(q) => q,
        None => Seq::empty(),
    }
}

/// Builds `http://127.0.0.1:17388/authorize?<query>`.
pub fn callback_url(query: Option<String>) -> (r: String)
    ensures
        r@ == callback_url_of(
            match query {
                Some(q) => Some(q@),
                None => None,
            },
        ),
{
    let mut m: Vec<char> = Vec::new();
    push_str(&mut m, "http://127.0.0.1:");
    push_u64(&mut m, LOOPBACK_PORT as u64);
    push_str(&mut m, "/authorize?");
    match &query {
        Some(q) => push_str(&mut m, q.as_str()),
        None => {},
    }
    assert(m@ =~= callback_url_of(
        match query {
            Some(q) => Some(q@),
            None => None,
        },
    ));
    string_from(&m)
}

/// Starting the listener while it listens changes nothing and asks for nothing.
pub proof fn law_loopback_start_idempotent(action: LoopbackAction)
    requires
        loopback_action_for(LoopbackPhase::Listening, LoopbackEvent::StartRequested, action),
    ensures
        loopback_after(LoopbackPhase::Listening, LoopbackEvent::StartRequested) == LoopbackPhase::Listening,
        action is Nothing,
{
}

/// Stopping a listener that does not listen is harmless: nothing changes, nothing is sent.
pub proof fn law_loopback_stop_when_idle(action: LoopbackAction)
    requires
        loopback_action_for(LoopbackPhase::Idle, LoopbackEvent::StopRequested, action),
    ensures
        loopback_after(LoopbackPhase::Idle, LoopbackEvent::StopRequested) == LoopbackPhase::Idle,
        action is Nothing,
{
}

/// However the server stops, the listener is idle afterwards, and a later start binds the
/// port again: the port is not held once the login is over.
pub proof fn law_loopback_exit_then_restart(phase: LoopbackPhase, action: LoopbackAction)
    requires
        loopback_action_for(
            loopback_after(phase, LoopbackEvent::ServerExited),
            LoopbackEvent::StartRequested,
            action,
        ),
    ensures
        loopback_after(phase, LoopbackEvent::ServerExited) == LoopbackPhase::Idle,
        loopback_after(loopback_after(phase, LoopbackEvent::ServerExited), LoopbackEvent::StartRequested)
            == LoopbackPhase::Binding,
        action is Bind,
{
}

/// A stop while listening shuts the server down and leaves the listener idle.
pub proof fn law_loopback_stop_shuts_down(action: LoopbackAction)
    requires
        loopback_action_for(LoopbackPhase::Listening, LoopbackEvent::StopRequested, action),
    ensures
        loopback_after(LoopbackPhase::Listening, LoopbackEvent::StopRequested) == LoopbackPhase::Idle,
        action is Shutdown,
{
}

} // verus!

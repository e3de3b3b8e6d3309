//! Pausing the system proxy for the duration of an OAuth login, and putting it back.
//!
//! While the login page is open in the browser, a system proxy that points at the
//! application's own interception proxy (whose CA the browser may not trust) or at a dead
//! port keeps the page from loading; so the proxy is switched off when the login starts
//! and the earlier setting is restored when it ends.

use vstd::prelude::*;

verus! {

/// The system proxy setting found before pausing.
pub struct SavedProxy {
    /// Whether the proxy was switched on.
    pub enabled: bool,
    /// The proxy server.
    pub server: String,
    /// The bypass list.
    pub bypass: String,
}

/// Where the pause stands.
pub enum ProxyPause {
    /// Not paused.
    Inactive,
    /// Reading the current setting (under the lock of the pause request).
    Reading,
    /// Switching the proxy off; the setting read before is kept for the restore.
    Disabling(SavedProxy),
    /// Paused; holds the setting found before (none when there was no proxy).
    Paused(Option<SavedProxy>),
}

/// What happened.
pub enum ProxyEvent {
    /// `oauth_proxy_pause` was called.
    PauseRequested,
    /// The current setting was read (none when there is no proxy).
    SettingRead(Option<SavedProxy>),
    /// Switching the proxy off succeeded.
    Disabled,
    /// Switching the proxy off failed, with this error.
    DisableFailed(String),
    /// `oauth_proxy_restore` was called.
    RestoreRequested,
}

/// What the command layer does next.
pub enum ProxyAction {
    /// Nothing more; the request answers `Ok`.
    Done,
    /// Read the current system proxy setting.
    ReadSetting,
    /// Switch the system proxy off.
    Disable,
    /// Log that the proxy pointing at `server` was paused; the request answers `Ok`.
    PausedFrom(String),
    /// The request answers with this error.
    Fail(String),
    /// Switch the proxy back on with this server and bypass list.
    Apply(String, String),
}

/// The pause state after an event.
pub open spec fn proxy_after(state: ProxyPause, event: ProxyEvent) -> ProxyPause {
    match (state, event) {
        (ProxyPause::Inactive, ProxyEvent::PauseRequested) => ProxyPause::Reading,
        (ProxyPause::Reading, ProxyEvent::SettingRead(Some(p))) => ProxyPause::Disabling(p),
        (ProxyPause::Reading, ProxyEvent::SettingRead(None)) => ProxyPause::Paused(None),
        (ProxyPause::Disabling(p), ProxyEvent::Disabled) => ProxyPause::Paused(Some(p)),
        (ProxyPause::Disabling(_), ProxyEvent::DisableFailed(_)) => ProxyPause::Inactive,
        (_, ProxyEvent::RestoreRequested) => ProxyPause::Inactive,
        (s, _) => s,
    }
}

/// Whether `action` is what an event calls for: a pause from the inactive state reads the
/// setting; a setting found is switched off (none found: paused at once); a successful
/// switch-off is logged with the old server, a failed one is reported; a restore switches
/// the proxy back on only when it was on before the pause; everything else asks for nothing.
pub open spec fn proxy_action_for(state: ProxyPause, event: ProxyEvent, action: ProxyAction) -> bool {
    match (state, event) {
        (ProxyPause::Inactive, ProxyEvent::PauseRequested) => action is ReadSetting,
        (ProxyPause::Reading, ProxyEvent::SettingRead(Some(_))) => action is Disable,
        (ProxyPause::Disabling(p), ProxyEvent::Disabled) => action matches ProxyAction::PausedFrom(s)
            && s == p.server,
        (ProxyPause::Disabling(_), ProxyEvent::DisableFailed(e)) => action matches ProxyAction::Fail(
            m,
        ) && m == e,
        (ProxyPause::Paused(Some(p)), ProxyEvent::RestoreRequested) => if p.enabled {
            action matches ProxyAction::Apply(s, b) && s == p.server && b == p.bypass
        } else {
            action is Done
        },
        _ => action is Done,
    }
}

/// Decides the next pause state and the command layer's next action.
pub fn proxy_step(state: ProxyPause, event: ProxyEvent) -> (r: (ProxyPause, ProxyAction))
    ensures
        r.0 == proxy_after(state, event),
        proxy_action_for(state, event, r.1),
{
    match (state, event) {
        (ProxyPause::Inactive, ProxyEvent::PauseRequested) => (ProxyPause::Reading, ProxyAction::ReadSetting),
        (ProxyPause::Reading, ProxyEvent::SettingRead(Some(p))) => (ProxyPause::Disabling(p), ProxyAction::Disable),
        (ProxyPause::Reading, ProxyEvent::SettingRead(None)) => (ProxyPause::Paused(None), ProxyAction::Done),
        (ProxyPause::Disabling(p), ProxyEvent::Disabled) => {
            let server = p.server.clone();
            (ProxyPause::Paused(Some(p)), ProxyAction::PausedFrom(server))
        },
        (ProxyPause::Disabling(_), ProxyEvent::DisableFailed(e)) => (ProxyPause::Inactive, ProxyAction::Fail(e)),
        (ProxyPause::Paused(Some(p)), ProxyEvent::RestoreRequested) => {
            if p.enabled {
                (ProxyPause::Inactive, ProxyAction::Apply(p.server, p.bypass))
            } else {
                (ProxyPause::Inactive, ProxyAction::Done)
            }
        },
        (_, ProxyEvent::RestoreRequested) => (ProxyPause::Inactive, ProxyAction::Done),
        (s, _) => (s, ProxyAction::Done),
    }
}

/// Pausing while already paused changes nothing and asks for nothing.
pub proof fn law_pause_idempotent(saved: Option<SavedProxy>, action: ProxyAction)
    requires
        proxy_action_for(ProxyPause::Paused(saved), ProxyEvent::PauseRequested, action),
    ensures
        proxy_after(ProxyPause::Paused(saved), ProxyEvent::PauseRequested) == ProxyPause::Paused(saved),
        action is Done,
{
}

/// Restoring when nothing was paused does nothing.
pub proof fn law_restore_without_pause(action: ProxyAction)
    requires
        proxy_action_for(ProxyPause::Inactive, ProxyEvent::RestoreRequested, action),
    ensures
        proxy_after(ProxyPause::Inactive, ProxyEvent::RestoreRequested) == ProxyPause::Inactive,
        action is Done,
{
}

/// A pause followed by a restore puts back exactly what was there: starting inactive,
/// pausing reads the setting `saved`; when one was found, it is switched off; the restore
/// then switches the proxy on again with the same server and bypass list exactly when it
/// was on before, and leaves the pause inactive.
pub proof fn law_pause_restore_roundtrip(
    saved: Option<SavedProxy>,
    a1: ProxyAction,
    a2: ProxyAction,
    a3: ProxyAction,
)
    requires
        proxy_action_for(ProxyPause::Inactive, ProxyEvent::PauseRequested, a1),
        proxy_action_for(
            proxy_after(ProxyPause::Inactive, ProxyEvent::PauseRequested),
            ProxyEvent::SettingRead(saved),
            a2,
        ),
        proxy_action_for(
            proxy_after(
                proxy_after(ProxyPause::Inactive, ProxyEvent::PauseRequested),
                ProxyEvent::SettingRead(saved),
            ),
            ProxyEvent::Disabled,
            a3,
        ),
    ensures
        ({
            let s1 = proxy_after(ProxyPause::Inactive, ProxyEvent::PauseRequested);
            let s2 = proxy_after(s1, ProxyEvent::SettingRead(saved));
            let paused = match saved {
                Some(_) => proxy_after(s2, ProxyEvent::Disabled),
                None => s2,
            };
            &&& a1 is ReadSetting
            &&& (saved is Some <==> a2 is Disable)
            &&& paused == ProxyPause::Paused(saved)
            &&& proxy_after(paused, ProxyEvent::RestoreRequested) == ProxyPause::Inactive
            &&& forall|a: ProxyAction|
                proxy_action_for(paused, ProxyEvent::RestoreRequested, a) ==> match saved {
                    Some(p) => if p.enabled {
                        a matches ProxyAction::Apply(s, b) && s == p.server && b == p.bypass
                    } else {
                        a is Done
                    },
                    None => a is Done,
                }
        }),
{
}

} // verus!

use vstd::prelude::*;
use crate::platform::PermissionStatus;

verus! {

/// How the engine watches input.
#[derive(Debug, Clone, Copy, PartialEq, Eq, Structural)]
pub enum EngineOperatingMode {
    ActiveLowLevelHooks,
    HeartbeatDeltaFallback,
}

/// Decides between low-level input hooks and the heartbeat fallback.
pub struct FallbackManager {
    is_fallback_forced: bool,
}

impl FallbackManager {
    /// Whether the fallback has been forced.
    pub closed spec fn forced(&self) -> bool {
        self.is_fallback_forced
    }

    pub fn new() -> (r: FallbackManager)
        ensures
            !r.forced(),
    {
        FallbackManager { is_fallback_forced: false }
    }

    /// Forces the fallback on (as when hook permissions are revoked) or lifts it.
    pub fn force_fallback(&mut self, force: bool)
        ensures
            final(self).forced() == force,
    {
        self.is_fallback_forced = force;
    }

    /// Whether the fallback has been forced.
    pub fn is_fallback_forced(&self) -> (r: bool)
        ensures
            r == self.forced(),
    {
        self.is_fallback_forced
    }

    /// The fallback is active when forced or when the platform grants no hooks.
    pub fn is_fallback_active(&self, hooks_available: bool) -> (r: bool)
        ensures
            r == (self.forced() || !hooks_available),
    {
        if self.is_fallback_forced {
            return true;
        }
        !hooks_available
    }

    /// The operating mode for the platform's hook permissions, and the
    /// permission status to report with it.
    pub fn determine_operating_mode(&self, perm: PermissionStatus) -> (r: (
        EngineOperatingMode,
        PermissionStatus,
    ))
        ensures
            (self.forced() || !perm.hooks_available) ==> {
                &&& r.0 == EngineOperatingMode::HeartbeatDeltaFallback
                &&& !r.1.hooks_available
                &&& r.1.elevation_granted == perm.elevation_granted
                &&& r.1.message@ == (if self.forced() {
                    "Hook permissions revoked/forced fallback. Operating in Heartbeat Delta Analysis mode."@
                } else {
                    perm.message@
                })
            },
            !(self.forced() || !perm.hooks_available) ==> {
                &&& r.0 == EngineOperatingMode::ActiveLowLevelHooks
                &&& r.1 == perm
            },
    {
        if self.is_fallback_forced || !perm.hooks_available {
            let message = if self.is_fallback_forced {
                "Hook permissions revoked/forced fallback. Operating in Heartbeat Delta Analysis mode.".to_owned()
            } else {
                perm.message
            };
            (
                EngineOperatingMode::HeartbeatDeltaFallback,
                PermissionStatus {
                    hooks_available: false,
                    elevation_granted: perm.elevation_granted,
                    message,
                },
            )
        } else {
            (EngineOperatingMode::ActiveLowLevelHooks, perm)
        }
    }
}

} // verus!

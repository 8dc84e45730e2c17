//! The capability interface a compositor backend implements, and the pure
//! decision behind backend auto-detection.

use vstd::prelude::*;
use crate::monitor::{monitor_wf, Monitor, MonitorConfig, MonitorV};

verus! {

/// A queried monitor set is well formed: every monitor is well formed,
/// ids follow enumeration order, names are unique within the set, and at
/// most one monitor is focused.
pub open spec fn monitor_set_wf(ms: Seq<MonitorV>) -> bool {
    &&& forall|i: int| 0 <= i < ms.len() ==> monitor_wf(#[trigger] ms[i])
    &&& forall|i: int| 0 <= i < ms.len() ==> (#[trigger] ms[i]).id == i
    &&& forall|i: int, j: int| 0 <= i < j < ms.len() ==> (#[trigger] ms[i]).name != (
    #[trigger] ms[j]).name
    &&& forall|i: int, j: int|
        0 <= i < j < ms.len() && (#[trigger] ms[i]).focused && (#[trigger] ms[j]).focused ==> false
}

/// Compositor-specific display management. One implementation exists per
/// supported environment; every operation reports failure as a descriptive
/// string rather than aborting, and callers keep the session consistent on
/// any error.
pub trait DisplayBackend {
    /// Enumerate all connected monitors with their live configuration and
    /// mode catalogue. On success the returned set is well formed.
    fn query_monitors(&self) -> (r: Result<Vec<Monitor>, String>)
        ensures
            match r {
                Ok(ms) => monitor_set_wf(crate::monitor::views_of(ms@)),
                Err(_) => true,
            },
    ;

    /// Push the given configuration live, with no persistent side effect.
    /// Callers treat any error as "nothing changed".
    fn apply(&self, configs: &[MonitorConfig]) -> Result<(), String>;

    /// Write the configuration to durable storage read at the next
    /// compositor start; returns a human-readable location on success.
    fn persist(&self, configs: &[MonitorConfig]) -> Result<String, String>;

    /// Make the named monitor the seat of the default workspace.
    fn set_primary(&self, monitor_name: &str) -> Result<(), String>;

    /// Best-effort visual identification of each monitor; failure is
    /// non-fatal to the caller.
    fn identify(&self, monitors: &[Monitor]) -> Result<(), String>;

    /// Constant identifier of this backend, for status display.
    fn name(&self) -> &'static str;
}

/// The concrete backend a detection probe selects.
#[derive(Debug)]
pub enum BackendKind {
    Hyprland,
}

/// The outcome `detect_backend` owes for each combination of environment
/// signals, most specific signal first.
pub open spec fn spec_detect(hyprland: bool, wayland: bool, x11: bool) -> Result<
    BackendKind,
    Seq<char>,
> {
    if hyprland {
        Ok(BackendKind::Hyprland)
    } else if wayland {
        Err(
            "Wayland compositor detected but not Hyprland. Only Hyprland is currently supported."@,
        )
    } else if x11 {
        Err("X11 detected. Only Hyprland is currently supported. X11/xrandr backend coming soon."@)
    } else {
        Err("No display server detected."@)
    }
}

/// Decide which backend the environment offers. The three flags say which
/// display-server signals are present (a compositor signature, a generic
/// Wayland display, an X11 display); detection fails closed with a
/// descriptive message when no supported compositor is found.
pub fn detect_backend(hyprland: bool, wayland: bool, x11: bool) -> (r: Result<BackendKind, String>)
    ensures
        match r {
            Ok(k) => spec_detect(hyprland, wayland, x11) == Ok::<BackendKind, Seq<char>>(k),
            Err(e) => spec_detect(hyprland, wayland, x11) == Err::<BackendKind, Seq<char>>(e@),
        },
{
    if hyprland {
        Ok(BackendKind::Hyprland)
    } else if wayland {
        Err(
            String::from_str(
                "Wayland compositor detected but not Hyprland. Only Hyprland is currently supported.",
            ),
        )
    } else if x11 {
        Err(
            String::from_str(
                "X11 detected. Only Hyprland is currently supported. X11/xrandr backend coming soon.",
            ),
        )
    } else {
        Err(String::from_str("No display server detected."))
    }
}

} // verus!

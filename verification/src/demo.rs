//! A demo backend with fixed fake monitors, for exercising the engine on
//! any display server. It is only ever selected explicitly, never by
//! auto-detection.

use vstd::prelude::*;
use crate::backend::{monitor_set_wf, DisplayBackend};
use crate::monitor::{views_of, Monitor, MonitorConfig, MonitorModeV, MonitorV};

verus! {

/// The fixed monitor set the demo backend reports.
pub open spec fn spec_demo_monitors() -> Seq<MonitorV> {
    seq![
        MonitorV {
            id: 0,
            name: "DP-1"@,
            description: "Demo 27\" 4K Monitor"@,
            width: 3840,
            height: 2160,
            refresh_chz: 14400,
            x: 0,
            y: 0,
            scale_pct: 150,
            transform: 0,
            enabled: true,
            dpms: true,
            focused: true,
            available_modes: seq![
                MonitorModeV { width: 3840, height: 2160, refresh_chz: 14400 },
                MonitorModeV { width: 3840, height: 2160, refresh_chz: 6000 },
                MonitorModeV { width: 2560, height: 1440, refresh_chz: 16500 },
                MonitorModeV { width: 2560, height: 1440, refresh_chz: 6000 },
                MonitorModeV { width: 1920, height: 1080, refresh_chz: 6000 },
            ],
        },
        MonitorV {
            id: 1,
            name: "HDMI-A-1"@,
            description: "Demo 24\" 1080p Monitor"@,
            width: 1920,
            height: 1080,
            refresh_chz: 6000,
            x: 3840,
            y: 0,
            scale_pct: 100,
            transform: 0,
            enabled: true,
            dpms: true,
            focused: false,
            available_modes: seq![
                MonitorModeV { width: 1920, height: 1080, refresh_chz: 14400 },
                MonitorModeV { width: 1920, height: 1080, refresh_chz: 6000 },
                MonitorModeV { width: 1280, height: 720, refresh_chz: 6000 },
            ],
        },
        MonitorV {
            id: 2,
            name: "eDP-1"@,
            description: "Demo 14\" Laptop Display"@,
            width: 2880,
            height: 1800,
            refresh_chz: 12000,
            x: 0,
            y: 2160,
            scale_pct: 200,
            transform: 0,
            enabled: true,
            dpms: true,
            focused: false,
            available_modes: seq![
                MonitorModeV { width: 2880, height: 1800, refresh_chz: 12000 },
                MonitorModeV { width: 2880, height: 1800, refresh_chz: 6000 },
                MonitorModeV { width: 1920, height: 1200, refresh_chz: 6000 },
            ],
        },
    ]
}

/// The demo monitor set is well formed; in particular its three names are
/// pairwise distinct and only the first monitor is focused.
pub proof fn lemma_demo_monitors_wf()
    ensures
        monitor_set_wf(spec_demo_monitors()),
{
    reveal_strlit("DP-1");
    reveal_strlit("HDMI-A-1");
    reveal_strlit("eDP-1");
    let ms = spec_demo_monitors();
    assert(ms[0].name.len() == 4);
    assert(ms[1].name.len() == 8);
    assert(ms[2].name.len() == 5);
    assert(forall|i: int| 0 <= i < ms.len() ==> crate::monitor::monitor_wf(#[trigger] ms[i]))
        by {
        assert(crate::monitor::monitor_wf(ms[0]));
        assert(crate::monitor::monitor_wf(ms[1]));
        assert(crate::monitor::monitor_wf(ms[2]));
    }
}

/// A backend with fake monitors, for trying the engine on any machine.
pub struct DemoBackend;

impl DemoBackend {
    pub fn new() -> (r: Self) {
        DemoBackend
    }
}

fn demo_mode(width: i32, height: i32, refresh_chz: i32) -> (r: crate::monitor::MonitorMode)
    ensures
        r@ == (MonitorModeV { width: width as int, height: height as int, refresh_chz:
            refresh_chz as int }),
{
    crate::monitor::MonitorMode { width, height, refresh_chz }
}

impl DisplayBackend for DemoBackend {
    /// Reports the fixed demo monitor set, always successfully.
    fn query_monitors(&self) -> (r: Result<Vec<Monitor>, String>)
        ensures
            match r {
                Ok(ms) => views_of(ms@) == spec_demo_monitors(),
                Err(_) => false,
            },
    {
        let mut modes0: Vec<crate::monitor::MonitorMode> = Vec::new();
        modes0.push(demo_mode(3840, 2160, 14400));
        modes0.push(demo_mode(3840, 2160, 6000));
        modes0.push(demo_mode(2560, 1440, 16500));
        modes0.push(demo_mode(2560, 1440, 6000));
        modes0.push(demo_mode(1920, 1080, 6000));
        let m0 = Monitor {
            id: 0,
            name: String::from_str("DP-1"),
            description: String::from_str("Demo 27\" 4K Monitor"),
            width: 3840,
            height: 2160,
            refresh_chz: 14400,
            x: 0,
            y: 0,
            scale_pct: 150,
            transform: 0,
            enabled: true,
            dpms: true,
            focused: true,
            available_modes: modes0,
        };

        let mut modes1: Vec<crate::monitor::MonitorMode> = Vec::new();
        modes1.push(demo_mode(1920, 1080, 14400));
        modes1.push(demo_mode(1920, 1080, 6000));
        modes1.push(demo_mode(1280, 720, 6000));
        let m1 = Monitor {
            id: 1,
            name: String::from_str("HDMI-A-1"),
            description: String::from_str("Demo 24\" 1080p Monitor"),
            width: 1920,
            height: 1080,
            refresh_chz: 6000,
            x: 3840,
            y: 0,
            scale_pct: 100,
            transform: 0,
            enabled: true,
            dpms: true,
            focused: false,
            available_modes: modes1,
        };

        let mut modes2: Vec<crate::monitor::MonitorMode> = Vec::new();
        modes2.push(demo_mode(2880, 1800, 12000));
        modes2.push(demo_mode(2880, 1800, 6000));
        modes2.push(demo_mode(1920, 1200, 6000));
        let m2 = Monitor {
            id: 2,
            name: String::from_str("eDP-1"),
            description: String::from_str("Demo 14\" Laptop Display"),
            width: 2880,
            height: 1800,
            refresh_chz: 12000,
            x: 0,
            y: 2160,
            scale_pct: 200,
            transform: 0,
            enabled: true,
            dpms: true,
            focused: false,
            available_modes: modes2,
        };

        let mut ms: Vec<Monitor> = Vec::new();
        proof {
            assert(m0@.available_modes =~= spec_demo_monitors()[0].available_modes);
            assert(m1@.available_modes =~= spec_demo_monitors()[1].available_modes);
            assert(m2@.available_modes =~= spec_demo_monitors()[2].available_modes);
        }
        ms.push(m0);
        ms.push(m1);
        ms.push(m2);
        proof {
            assert(views_of(ms@) =~~= spec_demo_monitors());
            lemma_demo_monitors_wf();
        }
        Ok(ms)
    }

    /// The demo backend accepts every configuration without doing anything.
    fn apply(&self, configs: &[MonitorConfig]) -> (r: Result<(), String>)
        ensures
            r is Ok,
    {
        Ok(())
    }

    /// Nothing is written in demo mode; the returned location says so.
    fn persist(&self, configs: &[MonitorConfig]) -> (r: Result<String, String>)
        ensures
            match r {
                Ok(p) => p@ == "(demo mode - not saved)"@,
                Err(_) => false,
            },
    {
        Ok(String::from_str("(demo mode - not saved)"))
    }

    /// Accepted and ignored in demo mode.
    fn set_primary(&self, monitor_name: &str) -> (r: Result<(), String>)
        ensures
            r is Ok,
    {
        Ok(())
    }

    /// Accepted and ignored in demo mode.
    fn identify(&self, monitors: &[Monitor]) -> (r: Result<(), String>)
        ensures
            r is Ok,
    {
        Ok(())
    }

    fn name(&self) -> (r: &'static str)
        ensures
            r@ == "Demo"@,
    {
        "Demo"
    }
}

} // verus!

//! The options of the engine.

use vstd::prelude::*;
use crate::text::str_equal;

pub mod task;

verus! {

/// The options that hold for the whole process. They are set before the
/// first session exists and cannot be changed afterwards.
#[derive(Debug, Clone, Copy, PartialEq, Eq, Structural)]
pub enum StaticOption {
    /// Text recognition runs on the CPU.
    CpuOCR,
    /// Text recognition runs on the GPU with this id.
    GpuOCR { gpu_id: usize },
}

/// The options of one session. They can be changed at any time.
#[derive(Debug, Clone, Copy, PartialEq, Eq, Structural)]
pub enum InstanceOption {
    /// Superseded by [`InstanceOption::TouchMode`].
    MinitouchEnabled(bool),
    /// The touch mode to use.
    TouchMode(TouchMode),
    /// Whether to pause the deployment after each click.
    DeploymentWithPause(bool),
    /// Whether to use ADB Lite.
    AdbLiteEnabled(bool),
    /// Whether to kill ADB on exit.
    KillAdbOnExit(bool),
}

/// How touches reach the device.
#[derive(Debug, Clone, Copy, PartialEq, Eq, Structural)]
pub enum TouchMode {
    /// Through ADB.
    ADB,
    /// Through MiniTouch.
    Minitouch,
    /// Through MaaTouch.
    MaaTouch,
    /// Through the Mac play tools.
    MacPlayTools,
}

/// The name under which the engine knows a touch mode.
pub open spec fn touch_mode_name(mode: TouchMode) -> Seq<char> {
    match mode {
        TouchMode::ADB => "adb"@,
        TouchMode::Minitouch => "minitouch"@,
        TouchMode::MaaTouch => "MAATouch"@,
        TouchMode::MacPlayTools => "MacPlayTools"@,
    }
}

/// The touch mode that `name` stands for. MaaTouch is known under two
/// spellings.
pub open spec fn touch_mode_named(name: Seq<char>) -> Option<TouchMode> {
    if name == "adb"@ {
        Some(TouchMode::ADB)
    } else if name == "minitouch"@ {
        Some(TouchMode::Minitouch)
    } else if name == "maatouch"@ || name == "MAATouch"@ {
        Some(TouchMode::MaaTouch)
    } else if name == "MacPlayTools"@ {
        Some(TouchMode::MacPlayTools)
    } else {
        None
    }
}

impl Default for TouchMode {
    fn default() -> (mode: TouchMode)
        ensures
            mode == TouchMode::ADB,
    {
        TouchMode::ADB
    }
}

impl TouchMode {
    /// The name under which the engine knows the mode.
    pub fn name(&self) -> (name: &'static str)
        ensures
            name@ == touch_mode_name(*self),
    {
        match self {
            TouchMode::ADB => "adb",
            TouchMode::Minitouch => "minitouch",
            TouchMode::MaaTouch => "MAATouch",
            TouchMode::MacPlayTools => "MacPlayTools",
        }
    }

    /// The mode that `name` stands for, if it stands for one.
    pub fn from_name(name: &str) -> (mode: Option<TouchMode>)
        ensures
            mode == touch_mode_named(name@),
    {
        if str_equal(name, "adb") {
            Some(TouchMode::ADB)
        } else if str_equal(name, "minitouch") {
            Some(TouchMode::Minitouch)
        } else if str_equal(name, "maatouch") || str_equal(name, "MAATouch") {
            Some(TouchMode::MaaTouch)
        } else if str_equal(name, "MacPlayTools") {
            Some(TouchMode::MacPlayTools)
        } else {
            None
        }
    }
}

/// Every touch mode is found again under its name.
pub proof fn law_touch_mode_name_round_trip(mode: TouchMode)
    ensures
        touch_mode_named(touch_mode_name(mode)) == Some(mode),
{
    reveal_strlit("adb");
    reveal_strlit("minitouch");
    reveal_strlit("maatouch");
    reveal_strlit("MAATouch");
    reveal_strlit("MacPlayTools");
    assert("adb"@.len() == 3);
    assert("minitouch"@.len() == 9);
    assert("maatouch"@.len() == 8);
    assert("MAATouch"@.len() == 8);
    assert("MacPlayTools"@.len() == 12);
    assert("maatouch"@[0] != "MAATouch"@[0]);
}

} // verus!

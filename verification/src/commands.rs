//! What each command does, decided from what it finds at its target path.

use vstd::prelude::*;

verus! {

/// What `precompile` does about its output path.
#[derive(Clone, Copy, Debug, PartialEq, Eq, Structural)]
pub enum PrecompilePlan {
    /// The output path is a directory: say so and stop, scanning nothing.
    /// This is reported, not failed: the process ends with status zero.
    Conflict,
    /// Scan, and write the generated file unless the run is dry.
    Scan,
}

/// What `clean` does.
#[derive(Clone, Copy, Debug, PartialEq, Eq, Structural)]
pub enum CleanPlan {
    /// The path is a directory: say so and stop.
    Conflict,
    /// There is no generated file to remove: an error.
    Missing,
    /// Remove the generated file, and nothing else.
    Remove,
}

/// What `init` does.
#[derive(Clone, Copy, Debug, PartialEq, Eq, Structural)]
pub enum InitPlan {
    /// A configuration file is there already: an error.
    Exists,
    /// Write the default configuration.
    Create,
}

impl CleanPlan {
    /// The status with which the process ends.
    pub open spec fn status(self) -> int {
        if self == CleanPlan::Missing {
            1
        } else {
            0
        }
    }

    /// Whether the file at the path is removed.
    pub open spec fn removes(self) -> bool {
        self == CleanPlan::Remove
    }

    /// The status with which the process ends.
    pub fn exit_code(self) -> (code: i32)
        ensures
            code == self.status(),
    {
        match self {
            CleanPlan::Missing => 1,
            _ => 0,
        }
    }
}

impl InitPlan {
    /// The status with which the process ends.
    pub open spec fn status(self) -> int {
        if self == InitPlan::Exists {
            1
        } else {
            0
        }
    }

    /// The status with which the process ends.
    pub fn exit_code(self) -> (code: i32)
        ensures
            code == self.status(),
    {
        match self {
            InitPlan::Exists => 1,
            InitPlan::Create => 0,
        }
    }
}

/// Decides what `precompile` does, from whether its output path is a
/// directory.
pub fn plan_precompile(is_directory: bool) -> (plan: PrecompilePlan)
    ensures
        plan == if is_directory {
            PrecompilePlan::Conflict
        } else {
            PrecompilePlan::Scan
        },
{
    if is_directory {
        PrecompilePlan::Conflict
    } else {
        PrecompilePlan::Scan
    }
}

/// Decides what `clean` does, from whether its path is a directory and
/// whether anything is there. A path where nothing is ends the process with
/// a status other than zero; a file that is there is removed, with status
/// zero.
pub fn plan_clean(is_directory: bool, present: bool) -> (plan: CleanPlan)
    ensures
        plan == if is_directory {
            CleanPlan::Conflict
        } else if present {
            CleanPlan::Remove
        } else {
            CleanPlan::Missing
        },
        !is_directory && !present ==> plan.status() != 0 && !plan.removes(),
        !is_directory && present ==> plan.status() == 0 && plan.removes(),
{
    if is_directory {
        CleanPlan::Conflict
    } else if present {
        CleanPlan::Remove
    } else {
        CleanPlan::Missing
    }
}

/// Decides what `init` does, from whether a configuration file is there.
pub fn plan_init(present: bool) -> (plan: InitPlan)
    ensures
        plan == if present {
            InitPlan::Exists
        } else {
            InitPlan::Create
        },
{
    if present {
        InitPlan::Exists
    } else {
        InitPlan::Create
    }
}

} // verus!

//! Severity-classified log events. The core's obligation is to classify
//! correctly and to say which configured behaviours a message reaches; the
//! excluded shell does the delivering.

use vstd::prelude::*;

verus! {

/// Log levels, in ascending severity.
#[derive(Clone, Copy, Debug, PartialEq, Eq, Hash, Structural)]
pub enum LogLevel {
    Debug,
    Info,
    Error,
}

/// Numeric severity: `Debug` lowest, `Error` highest.
pub open spec fn severity(l: LogLevel) -> int {
    match l {
        LogLevel::Debug => 0,
        LogLevel::Info => 1,
        LogLevel::Error => 2,
    }
}

impl LogLevel {
    /// The numeric severity rank of this level.
    pub fn rank(&self) -> (r: u8)
        ensures
            r == severity(*self),
    {
        match self {
            LogLevel::Debug => 0,
            LogLevel::Info => 1,
            LogLevel::Error => 2,
        }
    }

    /// Whether a message of this level passes a behaviour's minimum.
    pub fn reaches(&self, min: &LogLevel) -> (r: bool)
        ensures
            r == (severity(*self) >= severity(*min)),
    {
        self.rank() >= min.rank()
    }
}

/// One way the shell routes log messages, each with the minimum level it
/// accepts.
#[derive(Clone, Debug, PartialEq, Eq, Hash)]
pub enum LogBehaviour {
    /// A toast in the UI.
    UIToast(LogLevel),
    /// Appended to the file at this path.
    File(String, LogLevel),
    /// The standard output stream.
    StdOut(LogLevel),
    /// The standard error stream.
    StdErr(LogLevel),
}

/// The minimum level a behaviour accepts.
pub open spec fn behaviour_min(b: LogBehaviour) -> LogLevel {
    match b {
        LogBehaviour::UIToast(l) => l,
        LogBehaviour::File(_, l) => l,
        LogBehaviour::StdOut(l) => l,
        LogBehaviour::StdErr(l) => l,
    }
}

/// One classified log event.
#[derive(Clone, Debug)]
pub struct LogEvent {
    /// What happened, for a human.
    pub message: String,
    /// How bad it is.
    pub level: LogLevel,
}

/// The behaviours (by position) that accept a message of level `l`, in
/// configuration order.
pub open spec fn spec_routes(behaviours: Seq<LogBehaviour>, l: LogLevel, upto: int) -> Seq<int>
    decreases upto,
{
    if upto <= 0 {
        Seq::empty()
    } else {
        let rest = spec_routes(behaviours, l, upto - 1);
        if severity(l) >= severity(behaviour_min(behaviours[upto - 1])) {
            rest.push(upto - 1)
        } else {
            rest
        }
    }
}

/// Which configured behaviours a message of level `l` is delivered to:
/// exactly those whose minimum level it reaches.
pub fn log_routes(behaviours: &Vec<LogBehaviour>, l: &LogLevel) -> (r: Vec<usize>)
    ensures
        r@.map_values(|x: usize| x as int) == spec_routes(
            behaviours@,
            *l,
            behaviours@.len() as int,
        ),
{
    let n = behaviours.len();
    let mut out: Vec<usize> = Vec::new();
    let mut i: usize = 0;
    proof {
        assert(out@.map_values(|x: usize| x as int) =~= Seq::<int>::empty());
    }
    while i < n
        invariant
            0 <= i <= n,
            n == behaviours@.len(),
            out@.map_values(|x: usize| x as int) == spec_routes(behaviours@, *l, i as int),
        decreases n - i,
    {
        let min = match &behaviours[i] {
            LogBehaviour::UIToast(m) => m,
            LogBehaviour::File(_, m) => m,
            LogBehaviour::StdOut(m) => m,
            LogBehaviour::StdErr(m) => m,
        };
        if l.reaches(min) {
            let ghost prev = out@.map_values(|x: usize| x as int);
            out.push(i);
            proof {
                assert(out@.map_values(|x: usize| x as int) =~= prev.push(i as int));
            }
        }
        i = i + 1;
    }
    out
}

} // verus!

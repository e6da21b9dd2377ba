//! What the platforms have in common, and the parts of each platform.
use vstd::prelude::*;

use crate::text::{cat3, copy_strings, decimal_text};

pub mod linux;
pub mod windows;

verus! {

use crate::text::{decimal, texts};

/// The state of the bypass service, or of its driver.
#[derive(Clone, Copy, PartialEq, Eq, Structural, Debug)]
pub enum ServiceState {
    Unknown,
    Running,
    Stopped,
    NotInstalled,
}

impl Default for ServiceState {
    /// Nothing is known yet.
    fn default() -> (r: Self)
        ensures
            r == ServiceState::Unknown,
    {
        ServiceState::Unknown
    }
}

impl ServiceState {
    /// Whether the service is installed, running or not.
    pub fn installed(self) -> (r: bool)
        ensures
            r == (self is Running || self is Stopped),
    {
        match self {
            ServiceState::Running => true,
            ServiceState::Stopped => true,
            _ => false,
        }
    }
}

/// A command of the bypass engine that is ready to run: what to start, where, and with
/// which arguments.
#[derive(Debug)]
pub struct EngineCommand {
    pub program: String,
    pub cwd: String,
    pub args: Vec<String>,
}

/// A command of the engine as a mathematical value.
#[verifier::ext_equal]
pub struct EngineCommandView {
    pub program: Seq<char>,
    pub cwd: Seq<char>,
    pub args: Seq<Seq<char>>,
}

impl View for EngineCommand {
    type V = EngineCommandView;

    open spec fn view(&self) -> EngineCommandView {
        EngineCommandView { program: self.program@, cwd: self.cwd@, args: texts(self.args@) }
    }
}

impl Clone for EngineCommand {
    fn clone(&self) -> (r: Self)
        ensures
            r@ == self@,
    {
        EngineCommand {
            program: self.program.clone(),
            cwd: self.cwd.clone(),
            args: copy_strings(&self.args),
        }
    }
}

/// What the signals of a running bypass say together, and what is to be said of them in the
/// log.
#[derive(Debug)]
pub struct TriCheck {
    pub running: bool,
    pub warnings: Vec<String>,
}

/// `true` or `false`.
pub open spec fn bool_word(b: bool) -> Seq<char> {
    if b {
        "true"@
    } else {
        "false"@
    }
}

/// A process as it is shown in the log.
pub open spec fn pid_word(pid: Option<u32>) -> Seq<char> {
    match pid {
        Some(p) => "Some("@ + decimal(p as nat) + ")"@,
        None => "None"@,
    }
}

/// `true` or `false`.
pub fn bool_text(b: bool) -> (r: &'static str)
    ensures
        r@ == bool_word(b),
{
    if b {
        "true"
    } else {
        "false"
    }
}

/// A process as it is shown in the log.
pub fn pid_text(pid: Option<u32>) -> (r: String)
    ensures
        r@ == pid_word(pid),
{
    match pid {
        Some(p) => cat3("Some(", decimal_text(p as u64).as_str(), ")"),
        None => "None".to_owned(),
    }
}

/// A state as it is shown in the log.
pub open spec fn state_word(s: ServiceState) -> Seq<char> {
    match s {
        ServiceState::Unknown => "Unknown"@,
        ServiceState::Running => "Running"@,
        ServiceState::Stopped => "Stopped"@,
        ServiceState::NotInstalled => "NotInstalled"@,
    }
}

/// A state as it is shown in the log.
pub fn state_text(s: ServiceState) -> (r: &'static str)
    ensures
        r@ == state_word(s),
{
    match s {
        ServiceState::Unknown => "Unknown",
        ServiceState::Running => "Running",
        ServiceState::Stopped => "Stopped",
        ServiceState::NotInstalled => "NotInstalled",
    }
}

} // verus!

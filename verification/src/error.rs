//! The runtime's error type.
use vstd::prelude::*;

use crate::text::copy_string;

verus! {

/// Errors the runtime reports to its callers; each carries its message.
#[derive(Debug, Clone, PartialEq, Eq)]
pub enum OrbitError {
    InvalidInput(String),
    Execution(String),
    Io(String),
    Store(String),
    SensitiveInput(String),
    /// A status change that the task lifecycle does not allow.
    TaskStatusTransition(String),
    /// A workspace binding that cannot be settled.
    WorkspaceError(String),
}

impl OrbitError {
    pub open spec fn msg(&self) -> Seq<char> {
        match self {
            OrbitError::InvalidInput(m) => m@,
            OrbitError::Execution(m) => m@,
            OrbitError::Io(m) => m@,
            OrbitError::Store(m) => m@,
            OrbitError::SensitiveInput(m) => m@,
            OrbitError::TaskStatusTransition(m) => m@,
            OrbitError::WorkspaceError(m) => m@,
        }
    }

    /// The message carried by the error.
    pub fn message(&self) -> (m: String)
        ensures
            m@ == self.msg(),
    {
        match self {
            OrbitError::InvalidInput(m) => copy_string(m.as_str()),
            OrbitError::Execution(m) => copy_string(m.as_str()),
            OrbitError::Io(m) => copy_string(m.as_str()),
            OrbitError::Store(m) => copy_string(m.as_str()),
            OrbitError::SensitiveInput(m) => copy_string(m.as_str()),
            OrbitError::TaskStatusTransition(m) => copy_string(m.as_str()),
            OrbitError::WorkspaceError(m) => copy_string(m.as_str()),
        }
    }
}

} // verus!

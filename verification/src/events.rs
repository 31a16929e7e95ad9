//! How a command ended, for the log.
use vstd::prelude::*;
use vstd::string::StringExecFns;

verus! {

#[derive(Clone, Copy, Debug, PartialEq, Eq, Structural)]
pub enum ExecutionStatus {
    Success,
    Error,
}

impl ExecutionStatus {
    /// The status in capitals, as the log shows it.
    pub fn to_string(&self) -> (r: String)
        ensures
            r@ == match *self {
                ExecutionStatus::Success => "SUCCESS"@,
                ExecutionStatus::Error => "ERROR"@,
            },
    {
        match self {
            ExecutionStatus::Success => String::from_str("SUCCESS"),
            ExecutionStatus::Error => String::from_str("ERROR"),
        }
    }
}

} // verus!

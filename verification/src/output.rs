use vstd::prelude::*;

use crate::text::string_from;

verus! {

/// A failure with a stable machine code and an optional remediation
/// command.
#[derive(Debug)]
pub enum AiError {
    Check { message: String, code: String, remediation: Option<String> },
}

impl AiError {
    pub fn new(code: &str, message: String, remediation: Option<&str>) -> (r: Self)
        ensures
            r->Check_code@ == code@,
            r->Check_message@ == message@,
            match remediation {
                Some(m) => r->Check_remediation is Some && r->Check_remediation->0@ == m@,
                None => r->Check_remediation is None,
            },
    {
        AiError::Check {
            code: string_from(code),
            message,
            remediation: match remediation {
                Some(m) => Some(string_from(m)),
                None => None,
            },
        }
    }

    pub fn code(&self) -> (r: &str)
        ensures
            r@ == self->Check_code@,
    {
        match self {
            AiError::Check { code, .. } => code.as_str(),
        }
    }
}

/// The process exit code of a failed command: a missing required tool is 3,
/// any other failure 5.
pub fn exit_code_for(code: &str) -> (r: i32)
    ensures
        r == if code@ == "MISSING_REQUIRED_TOOL"@ { 3i32 } else { 5i32 },
{
    if crate::text::same_str(code, "MISSING_REQUIRED_TOOL") { 3 } else { 5 }
}

} // verus!

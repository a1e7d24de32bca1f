//! The `cd` and `help` builtins: which directory `cd` changes to, and what
//! each answers.
//!
//! Reading `HOME` and changing the directory are left to the caller; these
//! functions decide everything around them.

use vstd::prelude::*;
use crate::execute::{ExecutionResult, result_view};

verus! {

/// The directory `cd` changes to, or its error.
///
/// With no argument it is the home directory (an error when `HOME` is not
/// set); with one argument it is that argument; with more it is a usage error.
pub fn cd_target(command: &[String], home: Option<&str>) -> (r: Result<String, String>)
    ensures
        command@.len() < 2 ==> match home {
            Some(h) => r matches Ok(d) && d@ == h@,
            None => r matches Err(m) && m@ == "Environment variable HOME does not set"@,
        },
        command@.len() == 2 ==> (r matches Ok(d) && d@ == command@[1]@),
        command@.len() > 2 ==> (r matches Err(m) && m@ == "cd: cd [DIRECTORY]"@),
{
    if command.len() < 2 {
        match home {
            Some(h) => Ok(h.to_owned()),
            None => Err("Environment variable HOME does not set".to_owned()),
        }
    } else if command.len() == 2 {
        Ok(command[1].clone())
    } else {
        Err("cd: cd [DIRECTORY]".to_owned())
    }
}

/// What `cd` answers once it tried to change to `dir`.
pub fn cd_outcome(dir: &str, changed: bool) -> (r: Result<ExecutionResult, String>)
    ensures
        result_view(r) == if changed {
            Ok(ExecutionResult::Normal(None))
        } else {
            Err("cd: The directory "@ + dir@ + " does not exist"@)
        },
{
    if changed {
        Ok(ExecutionResult::Normal(None))
    } else {
        let mut m = "cd: The directory ".to_owned();
        m.append(dir);
        m.append(" does not exist");
        Err(m)
    }
}

/// What `help` answers once the help text is printed.
pub fn help_outcome() -> (r: Result<ExecutionResult, String>)
    ensures
        result_view(r) == Ok::<ExecutionResult, Seq<char>>(ExecutionResult::Normal(None)),
{
    Ok(ExecutionResult::Normal(None))
}

} // verus!

//! The replies of the commands that only report what the host found.

use vstd::prelude::*;

verus! {

/// The reply to the question where the application keeps its configuration:
/// the directory, or a sentence that says it is unknown.
pub fn a_function_with_a_result(config_dir: Option<String>) -> (r: String)
    ensures
        r@ == match config_dir {
            Some(dir) => dir@,
            None => "Unable to get app config directory"@,
        },
{
    match config_dir {
        Some(dir) => dir,
        None => "Unable to get app config directory".to_owned(),
    }
}

/// The reply after the package manager was run: what it printed, as a
/// success where it exited well and as a failure where it did not.
pub fn scoop_update(succeeded: bool, stdout: String, stderr: String) -> (r: Result<String, String>)
    ensures
        match r {
            Ok(output) => succeeded && output@ == stdout@,
            Err(output) => !succeeded && output@ == stderr@,
        },
{
    if succeeded {
        Ok(stdout)
    } else {
        Err(stderr)
    }
}

} // verus!

//! What a new terminal starts: which shell, and in which directory.
use vstd::prelude::*;

verus! {

/// The shell a terminal runs: the user's `$SHELL` (`None` when it is unset), else
/// `/bin/bash`.
pub fn shell_program(env_shell: Option<String>) -> (r: String)
    ensures
        r@ == match env_shell {
            Some(s) => s@,
            None => "/bin/bash"@,
        },
{
    match env_shell {
        Some(s) => s,
        None => String::from_str("/bin/bash"),
    }
}

/// The directory a terminal starts in: the one asked for (a workspace's directory, or
/// the directory of the session being cloned) when there is one, else the home
/// directory, else wherever the process runs.
pub fn start_dir(wanted: Option<String>, home: Option<String>) -> (r: Option<String>)
    ensures
        r == match wanted {
            Some(d) => Some(d),
            None => home,
        },
{
    match wanted {
        Some(d) => Some(d),
        None => home,
    }
}

} // verus!

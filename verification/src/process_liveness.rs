//! Whether a process is still running, as Linux's `/proc` shows it.
use vstd::prelude::*;

use crate::text::{concat, i64_to_string, signed_decimal};

verus! {

/// Whether a path names an existing entry of the file system, by
/// `std::path::Path::exists`. The answer depends on the file system at the
/// time of the call; nothing is stated of it.
#[verifier::external_body]
fn path_exists(path: &str) -> bool {
    std::path::Path::new(path).exists()
}

/// The `/proc` entry of a process id.
pub open spec fn proc_path(pid: i32) -> Seq<char> {
    "/proc/"@ + signed_decimal(pid as int)
}

/// The `/proc` entry of a process id.
pub fn pid_proc_path(pid: i32) -> (p: String)
    ensures
        p@ == proc_path(pid),
{
    let n = i64_to_string(pid as i64);
    concat("/proc/", n.as_str())
}

/// Whether the process with id `pid` is alive: whether its `/proc` entry
/// exists. Linux always gives an answer.
pub fn check_pid_alive(pid: i32) -> (r: Option<bool>)
    ensures
        r is Some,
{
    let path = pid_proc_path(pid);
    Some(path_exists(path.as_str()))
}

} // verus!

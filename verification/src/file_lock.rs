//! The lock file that keeps a second process out of a raft log directory.
//!
//! Locking the file is the caller's; the names and messages are here.

use vstd::prelude::*;

use crate::text::push_str;

verus! {

/// The name of the lock file in a raft log directory.
pub const LOCK_FILE_NAME: &'static str = "LOCK";

/// The path of the lock file of directory `dir`.
pub fn lock_path(dir: &str) -> (r: String)
    ensures
        r@ == dir@ + "/LOCK"@,
{
    let mut s = String::new();
    push_str(&mut s, dir);
    push_str(&mut s, "/LOCK");
    s
}

/// The error message when directory `dir` is locked by another process,
/// which locking reported as `error`.
pub open spec fn locked_message(dir: Seq<char>, error: Seq<char>) -> Seq<char> {
    "Directory '"@ + dir + "' is already locked by another process, shutdown other process to continue; error:("@
        + error + ")"@
}

pub fn locked_error_message(dir: &str, error: &str) -> (r: String)
    ensures
        r@ == locked_message(dir@, error@),
{
    let mut s = String::new();
    push_str(&mut s, "Directory '");
    push_str(&mut s, dir);
    push_str(&mut s, "' is already locked by another process, shutdown other process to continue; error:(");
    push_str(&mut s, error);
    push_str(&mut s, ")");
    s
}

} // verus!

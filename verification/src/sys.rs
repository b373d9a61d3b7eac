use vstd::prelude::*;

verus! {

/// Relies on nix::unistd::pipe: on success the OS hands back a fresh
/// anonymous pipe as two raw descriptor numbers, the read end first,
/// the write end second; on failure the errno. Which numbers come back
/// depends on the process's descriptor table, so nothing is promised
/// of them here: `make_pipes` checks what it needs of the values.
#[verifier::external_body]
pub(crate) fn sys_pipe() -> (r: Result<(i32, i32), i32>) {
    match nix::unistd::pipe() {
        Ok((rd, wr)) => Ok((rd, wr)),
        Err(e) => Err(e as i32),
    }
}

/// Relies on nix::unistd::dup2: makes `newfd` refer to what `oldfd`
/// refers to. dup2(2) returns the new descriptor on success, so an
/// `Ok` value is `newfd` itself; on failure the errno.
#[verifier::external_body]
pub(crate) fn sys_dup2(oldfd: i32, newfd: i32) -> (r: Result<i32, i32>)
    ensures
        r matches Ok(fd) ==> fd == newfd,
{
    match nix::unistd::dup2(oldfd, newfd) {
        Ok(fd) => Ok(fd),
        Err(e) => Err(e as i32),
    }
}

/// Relies on nix::unistd::close: closes the descriptor; on failure the
/// errno.
#[verifier::external_body]
pub(crate) fn sys_close(fd: i32) -> (r: Result<(), i32>) {
    match nix::unistd::close(fd) {
        Ok(()) => Ok(()),
        Err(e) => Err(e as i32),
    }
}

/// Relies on nix::sys::wait::waitpid with no pid and no options: blocks
/// until some child process changes state and collects it, or fails at
/// once (ECHILD) when the process has no children. Nothing can be
/// promised of which child is collected or when.
#[verifier::external_body]
pub(crate) fn sys_wait_any() -> (r: Result<(), i32>) {
    match nix::sys::wait::waitpid(None::<nix::unistd::Pid>, None) {
        Ok(_) => Ok(()),
        Err(e) => Err(e as i32),
    }
}

} // verus!

use vstd::prelude::*;
use crate::wiring::{pipe_fds_wf, Action};
use crate::sys::{sys_close, sys_dup2, sys_pipe, sys_wait_any};

verus! {

/// Why a job's processes could not be set up: the OS refused a
/// resource (the errno is kept for reporting), or a pipe came back on
/// a descriptor number the wiring model cannot use.
#[derive(Clone, Copy, Debug, PartialEq, Eq, Structural)]
pub enum ResourceError {
    Sys(i32),
    UnusableDescriptor,
}

/// Creates the `count` anonymous pipes an `count + 1`-stage pipeline
/// needs, and checks that the OS handed back usable descriptors: all
/// above the console streams and no number twice. The wiring plans
/// require exactly that. An error can only come out of a pipe call,
/// so asking for no pipes always succeeds.
pub fn make_pipes(count: usize) -> (r: Result<Vec<(i32, i32)>, ResourceError>)
    ensures
        (r matches Ok(ps) ==> ps@.len() == count && pipe_fds_wf(ps@)),
        count == 0 ==> r is Ok,
{
    let mut ps: Vec<(i32, i32)> = Vec::new();
    let mut c: usize = 0;
    while c < count
        invariant
            c <= count,
            ps@.len() == c,
            pipe_fds_wf(ps@),
        decreases count - c,
    {
        let (rd, wr) = match sys_pipe() {
            Ok(p) => p,
            Err(e) => {
                return Err(ResourceError::Sys(e));
            },
        };
        if rd <= 2 || wr <= 2 || rd == wr {
            return Err(ResourceError::UnusableDescriptor);
        }
        let mut j: usize = 0;
        while j < ps.len()
            invariant
                0 < count,
                j <= ps@.len(),
                forall|k: int|
                    0 <= k < j ==> (#[trigger] ps@[k]).0 != rd && ps@[k].0 != wr && ps@[k].1 != rd
                        && ps@[k].1 != wr,
            decreases ps@.len() - j,
        {
            let (a, b) = ps[j];
            if a == rd || a == wr || b == rd || b == wr {
                return Err(ResourceError::UnusableDescriptor);
            }
            j += 1;
        }
        let ghost ps0 = ps@;
        ps.push((rd, wr));
        proof {
            assert forall|jj: int| 0 <= jj < ps@.len() implies (#[trigger] ps@[jj]).0 > 2
                && ps@[jj].1 > 2 && ps@[jj].0 != ps@[jj].1 by {
                if jj < ps0.len() {
                    assert(ps@[jj] == ps0[jj]);
                }
            }
            assert forall|jj: int, kk: int| 0 <= jj < kk < ps@.len() implies (#[trigger] ps@[jj]).0
                != (#[trigger] ps@[kk]).0 && ps@[jj].0 != ps@[kk].1 && ps@[jj].1 != ps@[kk].0
                && ps@[jj].1 != ps@[kk].1 by {
                assert(ps@[jj] == ps0[jj]);
                if kk < ps0.len() {
                    assert(ps@[kk] == ps0[kk]);
                }
            }
        }
        c += 1;
    }
    Ok(ps)
}

/// Performs a list of descriptor actions in order through dup2(2) and
/// close(2), stopping at the first failure with its errno. What the
/// actions mean for the process's descriptor table is stated, over the
/// model, on the functions that build the plans; what the live calls
/// return depends on the process's real table, so only the order of
/// application is fixed here. An error can only come out of a call,
/// so the empty plan — a plain single-stage command's plan — always
/// succeeds.
pub fn run_actions(acts: &Vec<Action>) -> (r: Result<(), i32>)
    ensures
        acts@.len() == 0 ==> r is Ok,
{
    let mut i: usize = 0;
    while i < acts.len()
        invariant
            i <= acts@.len(),
        decreases acts@.len() - i,
    {
        let outcome = match acts[i] {
            Action::Dup2(oldfd, newfd) => {
                match sys_dup2(oldfd, newfd) {
                    Ok(_) => Ok(()),
                    Err(e) => Err(e),
                }
            },
            Action::Close(fd) => sys_close(fd),
        };
        match outcome {
            Ok(()) => {},
            Err(e) => {
                return Err(e);
            },
        }
        i += 1;
    }
    Ok(())
}

/// The supervisor's waiting decision, performed: a foreground job
/// blocks on one wait per spawned child so that every one is
/// collected; a background job performs no wait at all and control
/// returns at once. The result is the number of waits performed.
/// Each wait collects whichever child terminates first, not
/// necessarily one of this job's: a zombie left by an earlier
/// background job can be collected in its place, and this job's child
/// may then still be running when control returns — the cost of
/// keeping pids out of the supervision decision, as the original
/// design does.
pub fn supervise(background: bool, children: usize) -> (waits: usize)
    ensures
        background ==> waits == 0,
        !background ==> waits == children,
{
    if background {
        return 0;
    }
    let mut c: usize = 0;
    while c < children
        invariant
            c <= children,
        decreases children - c,
    {
        let _ = sys_wait_any();
        c += 1;
    }
    c
}

} // verus!

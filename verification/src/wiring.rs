use vstd::prelude::*;
use vstd::map::*;
use crate::job::RedirKind;

verus! {

/// One descriptor operation a spawned child performs before replacing
/// its image: duplicate a descriptor onto another number, or close one.
#[derive(Clone, Copy, Debug, PartialEq, Eq, Structural)]
pub enum Action {
    /// `Dup2(oldfd, newfd)`: make `newfd` refer to what `oldfd` refers
    /// to, silently closing what `newfd` referred to before.
    Dup2(i32, i32),
    /// `Close(fd)`: close the descriptor.
    Close(i32),
}

/// What a descriptor refers to in the model of a process's descriptor
/// table: one of the inherited console streams, an end of pipe `k`, or
/// the file a redirection opened.
pub enum FdTarget {
    ConsoleIn,
    ConsoleOut,
    ConsoleErr,
    PipeRead(int),
    PipeWrite(int),
    RedirFile,
}

/// True of a descriptor that refers to a pipe end.
pub open spec fn is_pipe_target(t: FdTarget) -> bool {
    match t {
        FdTarget::PipeRead(_) => true,
        FdTarget::PipeWrite(_) => true,
        _ => false,
    }
}

/// The effect of one action on a descriptor table, as dup2(2) and
/// close(2) describe it.
pub open spec fn apply_action(t: Map<int, FdTarget>, a: Action) -> Map<int, FdTarget> {
    match a {
        Action::Dup2(oldfd, newfd) => if t.dom().contains(oldfd as int) {
            t.insert(newfd as int, t[oldfd as int])
        } else {
            t
        },
        Action::Close(fd) => t.remove(fd as int),
    }
}

/// The effect of a whole action list, first action first.
pub open spec fn apply_actions(t: Map<int, FdTarget>, acts: Seq<Action>) -> Map<int, FdTarget>
    decreases acts.len(),
{
    if acts.len() == 0 {
        t
    } else {
        apply_actions(apply_action(t, acts[0]), acts.skip(1))
    }
}

/// Appending one action applies it after the rest.
pub proof fn lemma_apply_actions_push(t: Map<int, FdTarget>, acts: Seq<Action>, a: Action)
    ensures
        apply_actions(t, acts.push(a)) == apply_action(apply_actions(t, acts), a),
    decreases acts.len(),
{
    if acts.len() == 0 {
        assert(acts.push(a)[0] == a);
        assert(acts.push(a).skip(1) =~= Seq::<Action>::empty());
        assert(apply_actions(t, acts.push(a)) == apply_actions(
            apply_action(t, a),
            acts.push(a).skip(1),
        ));
        assert(apply_actions(apply_action(t, a), acts.push(a).skip(1)) == apply_action(t, a));
        assert(apply_actions(t, acts) == t);
    } else {
        assert(acts.push(a)[0] == acts[0]);
        assert(acts.push(a).skip(1) =~= acts.skip(1).push(a));
        assert(apply_actions(t, acts.push(a)) == apply_actions(
            apply_action(t, acts[0]),
            acts.skip(1).push(a),
        ));
        lemma_apply_actions_push(apply_action(t, acts[0]), acts.skip(1), a);
        assert(apply_actions(t, acts) == apply_actions(apply_action(t, acts[0]), acts.skip(1)));
    }
}

/// The descriptor table every job starts from: the three console
/// streams on 0, 1 and 2.
pub open spec fn std_table() -> Map<int, FdTarget> {
    map![0int => FdTarget::ConsoleIn, 1int => FdTarget::ConsoleOut, 2int => FdTarget::ConsoleErr]
}

/// The parent's table once the pipes for a job exist: the console
/// streams plus both ends of every pipe. Every child inherits a copy
/// of it at spawn time.
pub open spec fn pipes_table(ps: Seq<(i32, i32)>) -> Map<int, FdTarget>
    decreases ps.len(),
{
    if ps.len() == 0 {
        std_table()
    } else {
        pipes_table(ps.drop_last()).insert(
            ps.last().0 as int,
            FdTarget::PipeRead(ps.len() - 1),
        ).insert(ps.last().1 as int, FdTarget::PipeWrite(ps.len() - 1))
    }
}

/// Usable pipe descriptors: all above the three console streams, and
/// no number handed out twice.
pub open spec fn pipe_fds_wf(ps: Seq<(i32, i32)>) -> bool {
    &&& forall|j: int|
        0 <= j < ps.len() ==> (#[trigger] ps[j]).0 > 2 && ps[j].1 > 2 && ps[j].0 != ps[j].1
    &&& forall|j: int, k: int|
        0 <= j < k < ps.len() ==> (#[trigger] ps[j]).0 != (#[trigger] ps[k]).0 && ps[j].0
            != ps[k].1 && ps[j].1 != ps[k].0 && ps[j].1 != ps[k].1
}

/// True when `fd` is an end of one of the pipes `ps[j..]`.
pub open spec fn pipe_fd_from(ps: Seq<(i32, i32)>, j: int, fd: int) -> bool {
    exists|k: int| j <= k < ps.len() && (fd == (#[trigger] ps[k]).0 as int || fd == ps[k].1 as int)
}

/// What the parent's table holds once the pipes exist.
pub proof fn lemma_pipes_table(ps: Seq<(i32, i32)>)
    requires
        pipe_fds_wf(ps),
    ensures
        forall|fd: int|
            #[trigger] pipes_table(ps).dom().contains(fd) <==> (fd == 0 || fd == 1 || fd == 2
                || pipe_fd_from(ps, 0, fd)),
        pipes_table(ps)[0] == FdTarget::ConsoleIn,
        pipes_table(ps)[1] == FdTarget::ConsoleOut,
        pipes_table(ps)[2] == FdTarget::ConsoleErr,
        forall|k: int|
            0 <= k < ps.len() ==> pipes_table(ps)[(#[trigger] ps[k]).0 as int]
                == FdTarget::PipeRead(k) && pipes_table(ps)[ps[k].1 as int] == FdTarget::PipeWrite(
                k,
            ),
    decreases ps.len(),
{
    if ps.len() == 0 {
        assert forall|fd: int| #[trigger] pipes_table(ps).dom().contains(fd) implies (fd == 0 || fd
            == 1 || fd == 2 || pipe_fd_from(ps, 0, fd)) by {}
        assert forall|fd: int| (fd == 0 || fd == 1 || fd == 2 || pipe_fd_from(ps, 0, fd)) implies
            #[trigger] pipes_table(ps).dom().contains(fd) by {
            if pipe_fd_from(ps, 0, fd) {
                let k = choose|k: int|
                    0 <= k < ps.len() && (fd == (#[trigger] ps[k]).0 as int || fd
                        == ps[k].1 as int);
                assert(false);
            }
        }
    } else {
        let ps0 = ps.drop_last();
        let m = ps.len() - 1;
        let a = ps.last().0 as int;
        let b = ps.last().1 as int;
        assert forall|j: int| 0 <= j < ps0.len() implies (#[trigger] ps0[j]).0 > 2 && ps0[j].1 > 2
            && ps0[j].0 != ps0[j].1 by {
            assert(ps0[j] == ps[j]);
        }
        assert forall|j: int, k: int| 0 <= j < k < ps0.len() implies (#[trigger] ps0[j]).0
            != (#[trigger] ps0[k]).0 && ps0[j].0 != ps0[k].1 && ps0[j].1 != ps0[k].0 && ps0[j].1
            != ps0[k].1 by {
            assert(ps0[j] == ps[j]);
            assert(ps0[k] == ps[k]);
        }
        lemma_pipes_table(ps0);
        assert(ps[m] == ps.last());
        assert forall|fd: int| #[trigger] pipes_table(ps).dom().contains(fd) implies (fd == 0 || fd
            == 1 || fd == 2 || pipe_fd_from(ps, 0, fd)) by {
            if fd == a || fd == b {
                assert(fd == ps[m].0 as int || fd == ps[m].1 as int);
                assert(pipe_fd_from(ps, 0, fd));
            } else {
                assert(pipes_table(ps0).dom().contains(fd));
                if pipe_fd_from(ps0, 0, fd) {
                    let k = choose|k: int|
                        0 <= k < ps0.len() && (fd == (#[trigger] ps0[k]).0 as int || fd
                            == ps0[k].1 as int);
                    assert(ps0[k] == ps[k]);
                    assert(pipe_fd_from(ps, 0, fd));
                }
            }
        }
        assert forall|fd: int| (fd == 0 || fd == 1 || fd == 2 || pipe_fd_from(ps, 0, fd)) implies
            #[trigger] pipes_table(ps).dom().contains(fd) by {
            if pipe_fd_from(ps, 0, fd) {
                let k = choose|k: int|
                    0 <= k < ps.len() && (fd == (#[trigger] ps[k]).0 as int || fd
                        == ps[k].1 as int);
                if k < m {
                    assert(ps0[k] == ps[k]);
                    assert(pipe_fd_from(ps0, 0, fd));
                    assert(pipes_table(ps0).dom().contains(fd));
                }
            }
        }
        assert forall|k: int| 0 <= k < ps.len() implies pipes_table(ps)[(#[trigger] ps[k]).0 as int]
            == FdTarget::PipeRead(k) && pipes_table(ps)[ps[k].1 as int] == FdTarget::PipeWrite(
            k,
        ) by {
            if k < m {
                assert(ps0[k] == ps[k]);
                assert(ps[k].0 as int != a && ps[k].0 as int != b);
                assert(ps[k].1 as int != a && ps[k].1 as int != b);
            }
        }
    }
}

/// Where a stage's standard input comes from: the upstream pipe's read
/// end for every stage but the first, the console for the first.
pub open spec fn stage_stdin(i: int) -> FdTarget {
    if i > 0 {
        FdTarget::PipeRead(i - 1)
    } else {
        FdTarget::ConsoleIn
    }
}

/// Where a stage's standard output goes: the downstream pipe's write
/// end for every stage but the last, the console for the last.
pub open spec fn stage_stdout(i: int, n: int) -> FdTarget {
    if i < n - 1 {
        FdTarget::PipeWrite(i)
    } else {
        FdTarget::ConsoleOut
    }
}

/// The whole descriptor table stage `i` of an `n`-stage pipeline must
/// show at exec time: nothing open but 0, 1 and 2, each wired to its
/// place in the topology.
pub open spec fn child_table(i: int, n: int) -> Map<int, FdTarget> {
    map![0int => stage_stdin(i), 1int => stage_stdout(i, n), 2int => FdTarget::ConsoleErr]
}

/// The descriptor actions stage `i` of an `n`-stage pipeline performs
/// between fork and exec: wire stdin and stdout to the adjacent pipe
/// ends, then close every pipe descriptor, the duplicated ones
/// included. Applied to the inherited table, they leave exactly
/// `child_table(i, n)`.
pub fn child_plan(i: usize, n: usize, pipes: &Vec<(i32, i32)>) -> (acts: Vec<Action>)
    requires
        1 <= n,
        i < n,
        pipes@.len() == n - 1,
        pipe_fds_wf(pipes@),
    ensures
        apply_actions(pipes_table(pipes@), acts@) == child_table(i as int, n as int),
{
    let ghost t0 = pipes_table(pipes@);
    proof {
        lemma_pipes_table(pipes@);
    }
    let mut acts: Vec<Action> = Vec::new();
    if i > 0 {
        let a = Action::Dup2(pipes[i - 1].0, 0);
        let ghost acts0 = acts@;
        acts.push(a);
        proof {
            lemma_apply_actions_push(t0, acts0, a);
        }
    }
    if i + 1 < n {
        let a = Action::Dup2(pipes[i].1, 1);
        let ghost acts0 = acts@;
        acts.push(a);
        proof {
            lemma_apply_actions_push(t0, acts0, a);
        }
    }
    proof {
        let t1 = apply_actions(t0, acts@);
        assert(t1[0] == stage_stdin(i as int));
        assert(t1[1] == stage_stdout(i as int, n as int));
        assert(t1[2] == FdTarget::ConsoleErr);
        assert(t1.dom().contains(0) && t1.dom().contains(1) && t1.dom().contains(2));
        assert forall|fd: int| #[trigger] t1.dom().contains(fd) implies (fd == 0 || fd == 1 || fd
            == 2 || pipe_fd_from(pipes@, 0, fd)) by {}
    }
    let mut j: usize = 0;
    while j < pipes.len()
        invariant
            j <= pipes@.len(),
            1 <= n,
            i < n,
            pipes@.len() == n - 1,
            pipe_fds_wf(pipes@),
            t0 == pipes_table(pipes@),
            apply_actions(t0, acts@)[0] == stage_stdin(i as int),
            apply_actions(t0, acts@)[1] == stage_stdout(i as int, n as int),
            apply_actions(t0, acts@)[2] == FdTarget::ConsoleErr,
            apply_actions(t0, acts@).dom().contains(0) && apply_actions(t0, acts@).dom().contains(
                1,
            ) && apply_actions(t0, acts@).dom().contains(2),
            forall|fd: int|
                #[trigger] apply_actions(t0, acts@).dom().contains(fd) ==> (fd == 0 || fd == 1 || fd
                    == 2 || pipe_fd_from(pipes@, j as int, fd)),
        decreases pipes@.len() - j,
    {
        let ghost tcur = apply_actions(t0, acts@);
        let a = Action::Close(pipes[j].0);
        let ghost acts0 = acts@;
        acts.push(a);
        proof {
            lemma_apply_actions_push(t0, acts0, a);
        }
        let b = Action::Close(pipes[j].1);
        let ghost acts1 = acts@;
        acts.push(b);
        proof {
            lemma_apply_actions_push(t0, acts1, b);
            let tnext = apply_actions(t0, acts@);
            assert(tnext == tcur.remove(pipes@[j as int].0 as int).remove(
                pipes@[j as int].1 as int,
            ));
            assert forall|fd: int| #[trigger] tnext.dom().contains(fd) implies (fd == 0 || fd == 1
                || fd == 2 || pipe_fd_from(pipes@, j as int + 1, fd)) by {
                if !(fd == 0 || fd == 1 || fd == 2) {
                    assert(tcur.dom().contains(fd));
                    assert(pipe_fd_from(pipes@, j as int, fd));
                    let k = choose|k: int|
                        j as int <= k < pipes@.len() && (fd == (#[trigger] pipes@[k]).0 as int || fd
                            == pipes@[k].1 as int);
                    assert(fd != pipes@[j as int].0 as int && fd != pipes@[j as int].1 as int);
                    assert(k != j as int);
                    assert(pipe_fd_from(pipes@, j as int + 1, fd));
                }
            }
        }
        j += 1;
    }
    proof {
        let tfin = apply_actions(t0, acts@);
        assert forall|fd: int| #[trigger] tfin.dom().contains(fd) implies (fd == 0 || fd == 1 || fd
            == 2) by {
            if pipe_fd_from(pipes@, pipes@.len() as int, fd) {
                let k = choose|k: int|
                    pipes@.len() as int <= k < pipes@.len() && (fd == (#[trigger] pipes@[k]).0 as int
                        || fd == pipes@[k].1 as int);
                assert(false);
            }
        }
        assert(tfin =~= child_table(i as int, n as int));
    }
    acts
}

/// The table the redirected child starts from: the console streams
/// plus the freshly opened file on `file_fd`.
pub open spec fn redirect_start_table(file_fd: i32) -> Map<int, FdTarget> {
    std_table().insert(file_fd as int, FdTarget::RedirFile)
}

/// The table a redirected command must show at exec time: the file on
/// stdin or stdout according to the direction, the console elsewhere,
/// and nothing else open.
pub open spec fn redirect_table(kind: RedirKind) -> Map<int, FdTarget> {
    map![
        0int => if kind is In { FdTarget::RedirFile } else { FdTarget::ConsoleIn },
        1int => if kind is Out { FdTarget::RedirFile } else { FdTarget::ConsoleOut },
        2int => FdTarget::ConsoleErr,
    ]
}

/// The descriptor actions a redirected command performs between fork
/// and exec, once the target file is open on `file_fd`: wire the file
/// onto stdin or stdout, then close the original descriptor.
pub fn redirect_child_plan(file_fd: i32, kind: RedirKind) -> (acts: Vec<Action>)
    requires
        file_fd > 2,
    ensures
        apply_actions(redirect_start_table(file_fd), acts@) == redirect_table(kind),
{
    let ghost t0 = redirect_start_table(file_fd);
    let dst: i32 = if kind == RedirKind::Out {
        1
    } else {
        0
    };
    let mut acts: Vec<Action> = Vec::new();
    let a = Action::Dup2(file_fd, dst);
    let ghost acts0 = acts@;
    acts.push(a);
    proof {
        lemma_apply_actions_push(t0, acts0, a);
    }
    let b = Action::Close(file_fd);
    let ghost acts1 = acts@;
    acts.push(b);
    proof {
        lemma_apply_actions_push(t0, acts1, b);
        assert(apply_actions(t0, acts@) =~= redirect_table(kind));
    }
    acts
}

/// The descriptor actions the parent performs once every stage is
/// spawned: close both ends of every pipe, leaving only the console
/// streams — the parent never reads or writes pipeline data itself.
pub fn parent_plan(pipes: &Vec<(i32, i32)>) -> (acts: Vec<Action>)
    requires
        pipe_fds_wf(pipes@),
    ensures
        apply_actions(pipes_table(pipes@), acts@) == std_table(),
{
    let ghost t0 = pipes_table(pipes@);
    proof {
        lemma_pipes_table(pipes@);
    }
    let mut acts: Vec<Action> = Vec::new();
    let mut j: usize = 0;
    while j < pipes.len()
        invariant
            j <= pipes@.len(),
            pipe_fds_wf(pipes@),
            t0 == pipes_table(pipes@),
            apply_actions(t0, acts@)[0] == FdTarget::ConsoleIn,
            apply_actions(t0, acts@)[1] == FdTarget::ConsoleOut,
            apply_actions(t0, acts@)[2] == FdTarget::ConsoleErr,
            apply_actions(t0, acts@).dom().contains(0) && apply_actions(t0, acts@).dom().contains(
                1,
            ) && apply_actions(t0, acts@).dom().contains(2),
            forall|fd: int|
                #[trigger] apply_actions(t0, acts@).dom().contains(fd) ==> (fd == 0 || fd == 1 || fd
                    == 2 || pipe_fd_from(pipes@, j as int, fd)),
        decreases pipes@.len() - j,
    {
        let ghost tcur = apply_actions(t0, acts@);
        let a = Action::Close(pipes[j].0);
        let ghost acts0 = acts@;
        acts.push(a);
        proof {
            lemma_apply_actions_push(t0, acts0, a);
        }
        let b = Action::Close(pipes[j].1);
        let ghost acts1 = acts@;
        acts.push(b);
        proof {
            lemma_apply_actions_push(t0, acts1, b);
            let tnext = apply_actions(t0, acts@);
            assert(tnext == tcur.remove(pipes@[j as int].0 as int).remove(
                pipes@[j as int].1 as int,
            ));
            assert forall|fd: int| #[trigger] tnext.dom().contains(fd) implies (fd == 0 || fd == 1
                || fd == 2 || pipe_fd_from(pipes@, j as int + 1, fd)) by {
                if !(fd == 0 || fd == 1 || fd == 2) {
                    assert(tcur.dom().contains(fd));
                    assert(pipe_fd_from(pipes@, j as int, fd));
                    let k = choose|k: int|
                        j as int <= k < pipes@.len() && (fd == (#[trigger] pipes@[k]).0 as int || fd
                            == pipes@[k].1 as int);
                    assert(fd != pipes@[j as int].0 as int && fd != pipes@[j as int].1 as int);
                    assert(k != j as int);
                    assert(pipe_fd_from(pipes@, j as int + 1, fd));
                }
            }
        }
        j += 1;
    }
    proof {
        let tfin = apply_actions(t0, acts@);
        assert forall|fd: int| #[trigger] tfin.dom().contains(fd) implies (fd == 0 || fd == 1 || fd
            == 2) by {
            if pipe_fd_from(pipes@, pipes@.len() as int, fd) {
                let k = choose|k: int|
                    pipes@.len() as int <= k < pipes@.len() && (fd == (#[trigger] pipes@[k]).0 as int
                        || fd == pipes@[k].1 as int);
                assert(false);
            }
        }
        assert(tfin =~= std_table());
    }
    acts
}

/// The closing-descriptor law: at exec time a stage has nothing open
/// but descriptors 0, 1 and 2, and of those only stdin and stdout can
/// refer to a pipe — the upstream read end when the stage has an
/// upstream, the downstream write end when it has a downstream. A
/// single-stage job keeps the console on both ends.
pub proof fn lemma_stage_descriptor_bound(i: int, n: int)
    requires
        0 <= i < n,
    ensures
        forall|fd: int| #[trigger] child_table(i, n).dom().contains(fd) ==> 0 <= fd <= 2,
        forall|fd: int|
            child_table(i, n).dom().contains(fd) && is_pipe_target(#[trigger] child_table(i, n)[fd])
                ==> (fd == 0 && i > 0) || (fd == 1 && i < n - 1),
{
}

/// A single plain command is wired to nothing: with one stage and no
/// pipes, the table at exec time is exactly the inherited console
/// table, so the command observes the same streams it would observe
/// run directly.
pub proof fn lemma_single_stage_inherits()
    ensures
        child_table(0, 1) == std_table(),
{
    assert(child_table(0, 1) =~= std_table());
}

/// Adjacent stages are wired to the one pipe between them: what stage
/// `i` writes on its stdout is what stage `i + 1` reads on its stdin.
pub proof fn lemma_adjacent_stages_share_pipe(i: int, n: int)
    requires
        0 <= i,
        i + 1 < n,
    ensures
        child_table(i, n)[1] == FdTarget::PipeWrite(i),
        child_table(i + 1, n)[0] == FdTarget::PipeRead(i),
{
}

} // verus!

use osh_core::history::{resolve_line, History};
use osh_core::job::RedirKind;
use osh_core::process::{make_pipes, run_actions, supervise};
use osh_core::wiring::{child_plan, parent_plan, redirect_child_plan, Action};

#[test]
fn single_stage_needs_no_actions() {
    let pipes: Vec<(i32, i32)> = Vec::new();
    let acts = child_plan(0, 1, &pipes);
    assert!(acts.is_empty());
    let pacts = parent_plan(&pipes);
    assert!(pacts.is_empty());
}

#[test]
fn two_stage_plans_share_the_pipe() {
    let pipes = vec![(3, 4)];
    let up = child_plan(0, 2, &pipes);
    let down = child_plan(1, 2, &pipes);
    // Stage 0 writes the pipe that stage 1 reads; both close every
    // pipe descriptor, the duplicated ones included.
    assert_eq!(up, vec![Action::Dup2(4, 1), Action::Close(3), Action::Close(4)]);
    assert_eq!(down, vec![Action::Dup2(3, 0), Action::Close(3), Action::Close(4)]);
}

#[test]
fn middle_stage_of_three_keeps_only_its_two_ends() {
    let pipes = vec![(3, 4), (5, 6)];
    let mid = child_plan(1, 3, &pipes);
    assert_eq!(
        mid,
        vec![
            Action::Dup2(3, 0),
            Action::Dup2(6, 1),
            Action::Close(3),
            Action::Close(4),
            Action::Close(5),
            Action::Close(6),
        ]
    );
    let first = child_plan(0, 3, &pipes);
    assert_eq!(first[0], Action::Dup2(4, 1));
    let last = child_plan(2, 3, &pipes);
    assert_eq!(last[0], Action::Dup2(5, 0));
}

#[test]
fn parent_closes_both_ends_of_every_pipe() {
    let pipes = vec![(3, 4), (5, 6)];
    let acts = parent_plan(&pipes);
    assert_eq!(
        acts,
        vec![Action::Close(3), Action::Close(4), Action::Close(5), Action::Close(6)]
    );
}

#[test]
fn redirect_plans_wire_the_file_then_drop_it() {
    assert_eq!(
        redirect_child_plan(7, RedirKind::Out),
        vec![Action::Dup2(7, 1), Action::Close(7)]
    );
    assert_eq!(
        redirect_child_plan(7, RedirKind::In),
        vec![Action::Dup2(7, 0), Action::Close(7)]
    );
}

#[test]
fn no_pipes_and_no_actions_always_succeed() {
    let ps = make_pipes(0).unwrap();
    assert!(ps.is_empty());
    assert_eq!(run_actions(&Vec::new()), Ok(()));
}

#[test]
fn make_pipes_returns_distinct_usable_descriptors() {
    let ps = make_pipes(3).unwrap();
    assert_eq!(ps.len(), 3);
    let mut all: Vec<i32> = Vec::new();
    for (r, w) in &ps {
        assert!(*r > 2 && *w > 2);
        all.push(*r);
        all.push(*w);
    }
    for i in 0..all.len() {
        for j in 0..all.len() {
            if i != j {
                assert_ne!(all[i], all[j]);
            }
        }
    }
    // The parent's plan closes every end; running it again must fail,
    // which shows the close really reached the OS.
    let acts = parent_plan(&ps);
    assert_eq!(run_actions(&acts), Ok(()));
    assert!(run_actions(&acts).is_err());
}

#[test]
fn run_actions_duplicates_through_the_os() {
    let ps = make_pipes(1).unwrap();
    let (r, w) = ps[0];
    // Duplicating the read end onto the write end's number closes the
    // write end; closing both numbers then leaves nothing of the pipe.
    let acts = vec![Action::Dup2(r, w), Action::Close(r), Action::Close(w)];
    assert_eq!(run_actions(&acts), Ok(()));
    assert!(run_actions(&vec![Action::Close(r)]).is_err());
}

#[test]
fn background_job_performs_no_wait() {
    // A background job must hand control back at once: zero blocking
    // wait calls, however many children were spawned.
    assert_eq!(supervise(true, 5), 0);
    assert_eq!(supervise(false, 0), 0);
}

#[test]
fn foreground_job_waits_once_per_child() {
    // With no children each wait returns at once with ECHILD; the
    // supervisor still performs one wait per spawned child.
    assert_eq!(supervise(false, 3), 3);
}

#[test]
fn history_recall_reruns_last_line_and_grows_by_one() {
    let mut h = History::new();
    assert_eq!(h.len(), 0);
    assert!(h.recall_last().is_none());
    assert!(resolve_line(&b"!!".to_vec(), &h).is_none());

    let first = b"echo foo".to_vec();
    assert_eq!(resolve_line(&first, &h), Some(first.clone()));
    h.record(&first);
    assert_eq!(h.len(), 1);

    let recalled = resolve_line(&b"!!".to_vec(), &h).unwrap();
    assert_eq!(recalled, first);
    h.record(&recalled);
    assert_eq!(h.len(), 2);
    assert_eq!(h.recall_last(), Some(first));
}

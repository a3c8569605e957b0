//! Trace-level tests: drive the engine with scripted replies and check the
//! exact sequence of actions it asks for and the final flag it reports.

use rush::ast::{Cmd, Fd, Simple};
use rush::engine::{Action, BKind, Runner, Step};

fn simple(cmd: &str, args: &[&str]) -> Simple {
    Simple {
        cmd: cmd.to_string(),
        args: args.iter().map(|a| a.to_string()).collect(),
        env: None,
        stdin: Fd::Stdin,
        stdout: Fd::Stdout,
    }
}

fn leaf(cmd: &str, args: &[&str]) -> Cmd {
    Cmd::Simple(simple(cmd, args))
}

/// Run the machine, answering its actions from `replies` in order.
/// Returns the actions asked for and the final flag, if reached.
fn run_script(tree: Cmd, capture: bool, replies: &[bool]) -> (Vec<Action>, Option<bool>) {
    let mut runner = Runner::new(tree, capture);
    let mut acts = Vec::new();
    let mut k = 0;
    loop {
        match runner.poll() {
            Step::Done(b) => return (acts, Some(b)),
            Step::Act(a) => {
                acts.push(a);
                if k >= replies.len() {
                    return (acts, None);
                }
                runner.feed(replies[k]);
                k += 1;
            }
        }
    }
}

fn has_start(acts: &[Action]) -> bool {
    acts.iter().any(|a| matches!(a, Action::Start(_)))
}

#[test]
fn empty_succeeds_without_actions() {
    let (acts, fin) = run_script(Cmd::Empty, false, &[]);
    assert_eq!(acts, vec![]);
    assert_eq!(fin, Some(true));
}

#[test]
fn not_inverts_and_double_not_restores() {
    let (acts, fin) = run_script(Cmd::Not(Box::new(Cmd::Empty)), false, &[]);
    assert_eq!(acts, vec![]);
    assert_eq!(fin, Some(false));

    let double = Cmd::Not(Box::new(Cmd::Not(Box::new(Cmd::Empty))));
    let (acts, fin) = run_script(double, false, &[]);
    assert_eq!(acts, vec![]);
    assert_eq!(fin, Some(true));
}

#[test]
fn not_flips_spawned_command_status() {
    let tree = Cmd::Not(Box::new(leaf("false", &[])));
    // spawn succeeds, child exits non-zero; negation turns that into success
    let (acts, fin) = run_script(tree, false, &[true, false]);
    assert_eq!(
        acts,
        vec![Action::Start(simple("false", &[])), Action::Await(0)]
    );
    assert_eq!(fin, Some(true));
}

#[test]
fn and_short_circuits_on_failure() {
    let tree = Cmd::And(Box::new(leaf("ls", &[])), Box::new(leaf("touch", &["x"])));
    // left spawns fine but exits non-zero: the right side must never start
    let (acts, fin) = run_script(tree, false, &[true, false]);
    assert_eq!(acts, vec![Action::Start(simple("ls", &[])), Action::Await(0)]);
    assert_eq!(fin, Some(false));
}

#[test]
fn and_runs_right_on_success() {
    let tree = Cmd::And(Box::new(leaf("ls", &[])), Box::new(leaf("touch", &["x"])));
    let (acts, fin) = run_script(tree, false, &[true, true, true, true]);
    assert_eq!(
        acts,
        vec![
            Action::Start(simple("ls", &[])),
            Action::Await(0),
            Action::Start(simple("touch", &["x"])),
            Action::Await(2),
        ]
    );
    assert_eq!(fin, Some(true));
}

#[test]
fn or_skips_right_on_success() {
    let tree = Cmd::Or(Box::new(leaf("ls", &[])), Box::new(leaf("touch", &["x"])));
    let (acts, fin) = run_script(tree, false, &[true, true]);
    assert_eq!(acts, vec![Action::Start(simple("ls", &[])), Action::Await(0)]);
    assert_eq!(fin, Some(true));
}

#[test]
fn or_runs_right_on_failure() {
    let tree = Cmd::Or(Box::new(leaf("ls", &[])), Box::new(leaf("touch", &["x"])));
    let (acts, fin) = run_script(tree, false, &[true, false, true, true]);
    assert_eq!(
        acts,
        vec![
            Action::Start(simple("ls", &[])),
            Action::Await(0),
            Action::Start(simple("touch", &["x"])),
            Action::Await(2),
        ]
    );
    assert_eq!(fin, Some(true));
}

#[test]
fn pipeline_success_is_rights_only() {
    let tree = Cmd::Pipeline(Box::new(leaf("yes", &[])), Box::new(leaf("head", &["-n", "1"])));
    // the left child exits non-zero (reply false to its wait); the pipeline
    // still succeeds because the right child succeeds
    let (acts, fin) = run_script(tree, false, &[true, true, true, false, true]);
    let left_started = Simple {
        stdout: Fd::PipeOut(0),
        ..simple("yes", &[])
    };
    let right_started = Simple {
        stdin: Fd::PipeIn(0),
        ..simple("head", &["-n", "1"])
    };
    assert_eq!(
        acts,
        vec![
            Action::OpenPipe(0),
            Action::Start(left_started),
            Action::Start(right_started),
            Action::Await(1),
            Action::Await(2),
        ]
    );
    assert_eq!(fin, Some(true));
}

#[test]
fn pipeline_spawns_both_before_any_wait() {
    let tree = Cmd::Pipeline(
        Box::new(leaf("yes", &[])),
        Box::new(leaf("head", &["-n", "100000"])),
    );
    let (acts, _fin) = run_script(tree, false, &[true, true, true, true, true]);
    let first_wait = acts
        .iter()
        .position(|a| matches!(a, Action::Await(_)))
        .expect("a pipeline of two external commands must wait");
    let last_start = acts
        .iter()
        .rposition(|a| matches!(a, Action::Start(_)))
        .expect("a pipeline of two external commands must spawn");
    assert!(
        last_start < first_wait,
        "both children must be started before either is waited for"
    );
}

#[test]
fn capture_binds_root_stdout_to_capture_pipe() {
    let (acts, fin) = run_script(leaf("echo", &["hi"]), true, &[true, true, true]);
    let echo_started = Simple {
        stdout: Fd::PipeOut(0),
        ..simple("echo", &["hi"])
    };
    assert_eq!(
        acts,
        vec![Action::OpenPipe(0), Action::Start(echo_started), Action::Await(1)]
    );
    assert_eq!(fin, Some(true));
}

#[test]
fn explicit_redirection_beats_pipeline_wiring() {
    let mut left = simple("ls", &[]);
    left.stdout = Fd::FileOut("out.log".to_string());
    let tree = Cmd::Pipeline(Box::new(Cmd::Simple(left)), Box::new(leaf("cat", &[])));
    let (acts, fin) = run_script(tree, false, &[true, true, true, true, true, true]);
    let left_started = Simple {
        stdout: Fd::FileOut("out.log".to_string()),
        ..simple("ls", &[])
    };
    let right_started = Simple {
        stdin: Fd::PipeIn(0),
        ..simple("cat", &[])
    };
    // the unused write end is closed, so the right side sees end-of-stream,
    // and the left side's file redirection is untouched
    assert_eq!(
        acts,
        vec![
            Action::OpenPipe(0),
            Action::Close(0, true),
            Action::Start(left_started),
            Action::Start(right_started),
            Action::Await(2),
            Action::Await(3),
        ]
    );
    assert_eq!(fin, Some(true));
}

#[test]
fn exec_without_arguments_fails() {
    let (acts, fin) = run_script(leaf("exec", &[]), false, &[true]);
    assert_eq!(acts, vec![Action::Report]);
    assert_eq!(fin, Some(false));
}

#[test]
fn exec_without_arguments_short_circuits_an_and() {
    let tree = Cmd::And(Box::new(leaf("exec", &[])), Box::new(leaf("touch", &["x"])));
    let (acts, fin) = run_script(tree, false, &[true]);
    assert_eq!(acts, vec![Action::Report]);
    assert_eq!(fin, Some(false));
    assert!(!has_start(&acts));
}

#[test]
fn exec_with_arguments_fails_when_it_returns() {
    let (acts, fin) = run_script(leaf("exec", &["ls"]), false, &[true]);
    assert_eq!(acts, vec![Action::Exec(vec!["ls".to_string()])]);
    assert_eq!(fin, Some(false));
}

#[test]
fn builtin_reports_its_own_flag() {
    let (acts, fin) = run_script(leaf("cd", &["/tmp"]), false, &[true]);
    assert_eq!(
        acts,
        vec![Action::Builtin(BKind::Cd, vec!["/tmp".to_string()])]
    );
    assert_eq!(fin, Some(true));

    let (acts, fin) = run_script(leaf("cd", &["/nowhere"]), false, &[false]);
    assert_eq!(
        acts,
        vec![Action::Builtin(BKind::Cd, vec!["/nowhere".to_string()])]
    );
    assert_eq!(fin, Some(false));
}

#[test]
fn builtin_as_pipeline_left_releases_the_write_end() {
    let tree = Cmd::Pipeline(Box::new(leaf("cd", &["/tmp"])), Box::new(leaf("cat", &[])));
    let (acts, fin) = run_script(tree, false, &[true, true, true, true, true]);
    let right_started = Simple {
        stdin: Fd::PipeIn(0),
        ..simple("cat", &[])
    };
    assert_eq!(
        acts,
        vec![
            Action::OpenPipe(0),
            Action::Close(0, true),
            Action::Builtin(BKind::Cd, vec!["/tmp".to_string()]),
            Action::Start(right_started),
            Action::Await(3),
        ]
    );
    assert_eq!(fin, Some(true));
}

#[test]
fn spawn_failure_fails_the_node_without_waiting() {
    let (acts, fin) = run_script(leaf("no-such-program", &[]), false, &[false]);
    assert_eq!(acts, vec![Action::Start(simple("no-such-program", &[]))]);
    assert_eq!(fin, Some(false));
}

#[test]
fn empty_as_capture_tree_closes_the_capture_pipe() {
    let (acts, fin) = run_script(Cmd::Empty, true, &[true, true]);
    assert_eq!(acts, vec![Action::OpenPipe(0), Action::Close(0, true)]);
    assert_eq!(fin, Some(true));
}

#[test]
fn env_overlay_is_carried_into_the_start_action() {
    let mut s = simple("env", &[]);
    s.env = Some(vec![("GREETING".to_string(), "hello".to_string())]);
    let (acts, fin) = run_script(Cmd::Simple(s), false, &[true, true]);
    let mut started = simple("env", &[]);
    started.env = Some(vec![("GREETING".to_string(), "hello".to_string())]);
    assert_eq!(acts, vec![Action::Start(started), Action::Await(0)]);
    assert_eq!(fin, Some(true));
}

#[test]
fn nested_pipeline_wires_all_stages() {
    // a | b | c, parsed left-associated: Pipeline(Pipeline(a, b), c)
    let tree = Cmd::Pipeline(
        Box::new(Cmd::Pipeline(
            Box::new(leaf("a", &[])),
            Box::new(leaf("b", &[])),
        )),
        Box::new(leaf("c", &[])),
    );
    let (acts, fin) = run_script(tree, false, &[true; 8]);
    let a_started = Simple {
        stdout: Fd::PipeOut(1),
        ..simple("a", &[])
    };
    let b_started = Simple {
        stdin: Fd::PipeIn(1),
        stdout: Fd::PipeOut(0),
        ..simple("b", &[])
    };
    let c_started = Simple {
        stdin: Fd::PipeIn(0),
        ..simple("c", &[])
    };
    assert_eq!(
        acts,
        vec![
            Action::OpenPipe(0),
            Action::OpenPipe(1),
            Action::Start(a_started),
            Action::Start(b_started),
            Action::Await(2),
            Action::Start(c_started),
            Action::Await(3),
            Action::Await(5),
        ]
    );
    assert_eq!(fin, Some(true));
}

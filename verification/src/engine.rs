//! The execution engine: a verified decision core.
//!
//! Walking a [`Cmd`] tree needs operating-system work — opening pipes,
//! starting and waiting for child processes, running built-ins — that the
//! engine cannot perform itself.  It therefore runs as a step machine: the
//! driver asks [`Runner::poll`] for the next [`Action`], performs it, and
//! hands the boolean result back through [`Runner::feed`].  Every decision
//! — combinator semantics, descriptor reconciliation, built-in dispatch,
//! the order of spawns and waits in a pipeline — is made here and verified:
//! the machine's behaviour is exactly the spec function [`runs`] of the
//! tree, the capture flag and the replies received so far.

use vstd::prelude::*;

use crate::ast::{env_dup, fd_dup, strings_dup, Cmd, Fd, Simple};

verus! {

// ------------------------------------------------------------------
// What crosses the boundary between the engine and its driver.
// ------------------------------------------------------------------

/// The commands the interpreter runs itself instead of spawning a process.
#[derive(Debug, Clone, Copy, PartialEq, Eq)]
pub enum BKind {
    Exit,
    Cd,
    SetOpt,
}

/// Per-visit record of inherited pipe ends: at most one pipe read end to
/// become this subtree's stdin, and at most one write end to become its
/// final stdout.  It exists for one visit and is consumed or closed there.
#[derive(Debug, Clone, Copy, PartialEq, Eq)]
pub struct CmdMeta {
    pub stdin: Option<usize>,
    pub stdout: Option<usize>,
}

impl CmdMeta {
    /// No constraint: the subtree keeps the interpreter's own streams.
    pub fn inherit() -> (m: CmdMeta)
        ensures
            m == (CmdMeta { stdin: None, stdout: None }),
    {
        CmdMeta { stdin: None, stdout: None }
    }

    /// The subtree's final stdout is the write end of pipe `writer`.
    pub fn pipe_out(writer: usize) -> (m: CmdMeta)
        ensures
            m == (CmdMeta { stdin: None, stdout: Some(writer) }),
    {
        CmdMeta { stdin: None, stdout: Some(writer) }
    }

    /// The same constraints, with stdin replaced by the read end of pipe
    /// `reader`.
    pub fn new_in(self, reader: usize) -> (m: CmdMeta)
        ensures
            m == (CmdMeta { stdin: Some(reader), stdout: self.stdout }),
    {
        CmdMeta { stdin: Some(reader), stdout: self.stdout }
    }
}

/// What a finished subtree hands back: either a settled success flag, or a
/// child process that was started and not yet waited for.  `Started(t, n)`
/// is the child begun by the `Start` action answered at reply index `t`;
/// `n` records whether surrounding negations flip its exit status.
///
/// Keeping a pipeline's left side unforced until its right side has been
/// started is what makes a large-output pipeline free of deadlock: both
/// children run before either is waited for.
#[derive(Debug, Clone, Copy, PartialEq, Eq)]
pub enum Outcome {
    Ready(bool),
    Started(usize, bool),
}

/// One piece of operating-system work the driver performs for the engine.
/// Every action is answered by exactly one boolean reply; where no
/// meaningful answer exists the reply is ignored.
///
/// - `OpenPipe(p)`: create a pipe; its ends are known from now on as
///   `Fd::PipeIn(p)` and `Fd::PipeOut(p)`.  Reply ignored.
/// - `Close(p, w)`: drop the write end (`w` true) or read end of pipe `p`,
///   so that its reader can reach end-of-stream.  Reply ignored.
/// - `Start(s)`: spawn `s` with its reconciled descriptors, without
///   waiting.  Reply: whether descriptor conversion and spawn succeeded.
/// - `Await(t)`: wait for the child started by the `Start` answered at
///   reply index `t`.  Reply: whether it exited with status zero.
/// - `Builtin(k, args)`: run a built-in.  Reply: its success flag.
/// - `Exec(args)`: replace the process image; on success this never
///   returns.  Reply ignored: the node fails whenever it is reached again.
/// - `Report`: tell the user that `exec` was called without arguments.
///   Reply ignored.
#[derive(Debug, PartialEq, Eq)]
pub enum Action {
    OpenPipe(usize),
    Close(usize, bool),
    Start(Simple),
    Await(usize),
    Builtin(BKind, Vec<String>),
    Exec(Vec<String>),
    Report,
}

/// What `poll` returns: the next action, or the tree's final success flag.
#[derive(Debug, PartialEq, Eq)]
pub enum Step {
    Act(Action),
    Done(bool),
}

// ------------------------------------------------------------------
// The mathematical model: actions and simple commands as plain values.
// ------------------------------------------------------------------

/// A simple command as the specification sees it.
pub struct SimpleS {
    pub cmd: String,
    pub args: Seq<String>,
    pub env: Option<Seq<(String, String)>>,
    pub stdin: Fd,
    pub stdout: Fd,
}

/// An action as the specification sees it.
pub enum ActionS {
    OpenPipe(usize),
    Close(usize, bool),
    Start(SimpleS),
    Await(usize),
    Builtin(BKind, Seq<String>),
    Exec(Seq<String>),
    Report,
}

pub open spec fn simple_s(s: Simple) -> SimpleS {
    SimpleS {
        cmd: s.cmd,
        args: s.args@,
        env: match s.env {
            Option::None => Option::None,
            Option::Some(v) => Option::Some(v@),
        },
        stdin: s.stdin,
        stdout: s.stdout,
    }
}

pub open spec fn act_s(a: Action) -> ActionS {
    match a {
        Action::OpenPipe(p) => ActionS::OpenPipe(p),
        Action::Close(p, w) => ActionS::Close(p, w),
        Action::Start(s) => ActionS::Start(simple_s(s)),
        Action::Await(t) => ActionS::Await(t),
        Action::Builtin(k, args) => ActionS::Builtin(k, args@),
        Action::Exec(args) => ActionS::Exec(args@),
        Action::Report => ActionS::Report,
    }
}

/// Trace and completion of one subtree: the actions it emits and, when the
/// recorded replies suffice, its outcome and the next reply index.
pub struct SemR {
    pub acts: Seq<ActionS>,
    pub fin: Option<(Outcome, int)>,
}

/// Trace and completion of a list of reply-ignoring actions.
pub struct SemPre {
    pub acts: Seq<ActionS>,
    pub fin: Option<int>,
}

/// Trace and completion of forcing an outcome to a success flag.
pub struct SemF {
    pub acts: Seq<ActionS>,
    pub fin: Option<(bool, int)>,
}

/// Trace and completion of a whole run.
pub struct RunR {
    pub acts: Seq<ActionS>,
    pub fin: Option<bool>,
}

// ------------------------------------------------------------------
// The semantics.
// ------------------------------------------------------------------

/// The `Close` actions owed for the pipe ends of a context that is dropped
/// without being bound: stdout's write end first, then stdin's read end.
pub open spec fn meta_closes(ctx: CmdMeta) -> Seq<ActionS> {
    (match ctx.stdout {
        Option::Some(w) => seq![ActionS::Close(w, true)],
        Option::None => seq![],
    }) + (match ctx.stdin {
        Option::Some(r) => seq![ActionS::Close(r, false)],
        Option::None => seq![],
    })
}

/// Emitting actions whose replies carry no information, each still
/// consuming one reply, starting at reply index `i` with `n` replies
/// recorded.
pub open spec fn emit_ignored(acts: Seq<ActionS>, i: int, n: int) -> SemPre {
    if i + acts.len() <= n {
        SemPre { acts: acts, fin: Option::Some(i + acts.len()) }
    } else {
        SemPre { acts: acts.take(n - i + 1), fin: Option::None }
    }
}

/// Negation applied to an outcome: a settled flag is flipped; for a started
/// child the flip is recorded for the eventual wait.
pub open spec fn flip(o: Outcome) -> Outcome {
    match o {
        Outcome::Ready(b) => Outcome::Ready(!b),
        Outcome::Started(t, n) => Outcome::Started(t, !n),
    }
}

/// Forcing an outcome to a success flag: a settled one is read off; a
/// started child is waited for and the reply, negated as recorded, is the
/// flag.
pub open spec fn force_sem(o: Outcome, i: int, rs: Seq<bool>) -> SemF {
    match o {
        Outcome::Ready(b) => SemF { acts: seq![], fin: Option::Some((b, i)) },
        Outcome::Started(t, n) => if i < rs.len() {
            SemF {
                acts: seq![ActionS::Await(t)],
                fin: Option::Some((if n { !rs[i] } else { rs[i] }, i + 1)),
            }
        } else {
            SemF { acts: seq![ActionS::Await(t)], fin: Option::None }
        },
    }
}

/// Which built-in, if any, a command name denotes.
pub open spec fn spec_builtin(cmd: String) -> Option<BKind> {
    if cmd@ == "exit"@ {
        Option::Some(BKind::Exit)
    } else if cmd@ == "cd"@ {
        Option::Some(BKind::Cd)
    } else if cmd@ == "set"@ {
        Option::Some(BKind::SetOpt)
    } else {
        Option::None
    }
}

/// Whether a command name is the quasi-built-in `exec`.
pub open spec fn is_exec_name(cmd: String) -> bool {
    cmd@ == "exec"@
}

/// Descriptor reconciliation: an inherited pipe end is bound only where the
/// cell still holds the default; an explicit binding always wins.
pub open spec fn reconciled(s: SimpleS, ctx: CmdMeta) -> SimpleS {
    SimpleS {
        cmd: s.cmd,
        args: s.args,
        env: s.env,
        stdin: match ctx.stdin {
            Option::Some(r) => if s.stdin is Stdin {
                Fd::PipeIn(r)
            } else {
                s.stdin
            },
            Option::None => s.stdin,
        },
        stdout: match ctx.stdout {
            Option::Some(w) => if s.stdout is Stdout {
                Fd::PipeOut(w)
            } else {
                s.stdout
            },
            Option::None => s.stdout,
        },
    }
}

/// The pipe ends reconciliation does not bind — the cell held an explicit
/// binding — and therefore closes, stdout first.
pub open spec fn reconcile_closes(s: SimpleS, ctx: CmdMeta) -> Seq<ActionS> {
    (match ctx.stdout {
        Option::Some(w) => if s.stdout is Stdout {
            seq![]
        } else {
            seq![ActionS::Close(w, true)]
        },
        Option::None => seq![],
    }) + (match ctx.stdin {
        Option::Some(r) => if s.stdin is Stdin {
            seq![]
        } else {
            seq![ActionS::Close(r, false)]
        },
        Option::None => seq![],
    })
}

/// The run of one simple command: reconcile the descriptor cells with the
/// context, then dispatch.  Built-ins and `exec` take no part in
/// reconciliation, so both context ends are closed for them; an external
/// command is started and, if the spawn succeeded, left running.
pub open spec fn sem_simple(s: SimpleS, ctx: CmdMeta, i: int, rs: Seq<bool>) -> SemR {
    match spec_builtin(s.cmd) {
        Option::Some(k) => {
            let pre = emit_ignored(meta_closes(ctx), i, rs.len() as int);
            match pre.fin {
                Option::None => SemR { acts: pre.acts, fin: Option::None },
                Option::Some(j) => if j < rs.len() {
                    SemR {
                        acts: pre.acts + seq![ActionS::Builtin(k, s.args)],
                        fin: Option::Some((Outcome::Ready(rs[j]), j + 1)),
                    }
                } else {
                    SemR {
                        acts: pre.acts + seq![ActionS::Builtin(k, s.args)],
                        fin: Option::None,
                    }
                },
            }
        },
        Option::None => if is_exec_name(s.cmd) {
            let pre = emit_ignored(meta_closes(ctx), i, rs.len() as int);
            match pre.fin {
                Option::None => SemR { acts: pre.acts, fin: Option::None },
                Option::Some(j) => {
                    let a = if s.args.len() == 0 {
                        ActionS::Report
                    } else {
                        ActionS::Exec(s.args)
                    };
                    if j < rs.len() {
                        SemR {
                            acts: pre.acts + seq![a],
                            fin: Option::Some((Outcome::Ready(false), j + 1)),
                        }
                    } else {
                        SemR { acts: pre.acts + seq![a], fin: Option::None }
                    }
                },
            }
        } else {
            let pre = emit_ignored(reconcile_closes(s, ctx), i, rs.len() as int);
            match pre.fin {
                Option::None => SemR { acts: pre.acts, fin: Option::None },
                Option::Some(j) => {
                    let a = ActionS::Start(reconciled(s, ctx));
                    if j < rs.len() {
                        SemR {
                            acts: pre.acts + seq![a],
                            fin: Option::Some(
                                (
                                    if rs[j] {
                                        Outcome::Started(j as usize, false)
                                    } else {
                                        Outcome::Ready(false)
                                    },
                                    j + 1,
                                ),
                            ),
                        }
                    } else {
                        SemR { acts: pre.acts + seq![a], fin: Option::None }
                    }
                },
            }
        },
    }
}

/// The run of one subtree under context `ctx`, starting at reply index `i`,
/// with the replies received so far.  Each emitted action consumes one
/// reply, in order; `fin` is the subtree's outcome and the next reply index
/// once the replies suffice.
///
/// - `Empty` closes whatever the context carries and succeeds.
/// - `Not` forwards the context and flips the outcome.
/// - `And` / `Or` run the left side with fully inherited streams, force its
///   flag, and only on success / failure run the right side, which alone
///   receives the context.
/// - `Pipeline` opens a pipe, runs the left side into its write end, runs
///   the right side from its read end — forwarding the outer context to the
///   right side only — and waits for a started left child only after the
///   right side has finished starting; its outcome is the right side's.
pub open spec fn sem(c: Cmd, ctx: CmdMeta, i: int, rs: Seq<bool>) -> SemR
    decreases c,
{
    match c {
        Cmd::Empty => {
            let pre = emit_ignored(meta_closes(ctx), i, rs.len() as int);
            match pre.fin {
                Option::None => SemR { acts: pre.acts, fin: Option::None },
                Option::Some(j) => SemR {
                    acts: pre.acts,
                    fin: Option::Some((Outcome::Ready(true), j)),
                },
            }
        },
        Cmd::Not(t) => {
            let r = sem(*t, ctx, i, rs);
            match r.fin {
                Option::None => r,
                Option::Some((o, j)) => SemR { acts: r.acts, fin: Option::Some((flip(o), j)) },
            }
        },
        Cmd::And(l, r) => {
            let lr = sem(*l, CmdMeta { stdin: Option::None, stdout: Option::None }, i, rs);
            match lr.fin {
                Option::None => lr,
                Option::Some((ol, j)) => {
                    let f = force_sem(ol, j, rs);
                    match f.fin {
                        Option::None => SemR { acts: lr.acts + f.acts, fin: Option::None },
                        Option::Some((bl, k)) => if bl {
                            let rr = sem(*r, ctx, k, rs);
                            SemR { acts: lr.acts + f.acts + rr.acts, fin: rr.fin }
                        } else {
                            let pre = emit_ignored(meta_closes(ctx), k, rs.len() as int);
                            match pre.fin {
                                Option::None => SemR {
                                    acts: lr.acts + f.acts + pre.acts,
                                    fin: Option::None,
                                },
                                Option::Some(m) => SemR {
                                    acts: lr.acts + f.acts + pre.acts,
                                    fin: Option::Some((Outcome::Ready(false), m)),
                                },
                            }
                        },
                    }
                },
            }
        },
        Cmd::Or(l, r) => {
            let lr = sem(*l, CmdMeta { stdin: Option::None, stdout: Option::None }, i, rs);
            match lr.fin {
                Option::None => lr,
                Option::Some((ol, j)) => {
                    let f = force_sem(ol, j, rs);
                    match f.fin {
                        Option::None => SemR { acts: lr.acts + f.acts, fin: Option::None },
                        Option::Some((bl, k)) => if !bl {
                            let rr = sem(*r, ctx, k, rs);
                            SemR { acts: lr.acts + f.acts + rr.acts, fin: rr.fin }
                        } else {
                            let pre = emit_ignored(meta_closes(ctx), k, rs.len() as int);
                            match pre.fin {
                                Option::None => SemR {
                                    acts: lr.acts + f.acts + pre.acts,
                                    fin: Option::None,
                                },
                                Option::Some(m) => SemR {
                                    acts: lr.acts + f.acts + pre.acts,
                                    fin: Option::Some((Outcome::Ready(true), m)),
                                },
                            }
                        },
                    }
                },
            }
        },
        Cmd::Pipeline(l, r) => {
            if i < rs.len() {
                let p = i as usize;
                let pre = emit_ignored(
                    match ctx.stdin {
                        Option::Some(old_r) => seq![ActionS::Close(old_r, false)],
                        Option::None => seq![],
                    },
                    i + 1,
                    rs.len() as int,
                );
                match pre.fin {
                    Option::None => SemR {
                        acts: seq![ActionS::OpenPipe(p)] + pre.acts,
                        fin: Option::None,
                    },
                    Option::Some(j) => {
                        let lr = sem(*l, CmdMeta { stdin: Option::None, stdout: Option::Some(p) }, j, rs);
                        match lr.fin {
                            Option::None => SemR {
                                acts: seq![ActionS::OpenPipe(p)] + pre.acts + lr.acts,
                                fin: Option::None,
                            },
                            Option::Some((ol, k)) => {
                                let rr = sem(
                                    *r,
                                    CmdMeta { stdin: Option::Some(p), stdout: ctx.stdout },
                                    k,
                                    rs,
                                );
                                match rr.fin {
                                    Option::None => SemR {
                                        acts: seq![ActionS::OpenPipe(p)] + pre.acts + lr.acts
                                            + rr.acts,
                                        fin: Option::None,
                                    },
                                    Option::Some((orr, m)) => match ol {
                                        Outcome::Ready(_) => SemR {
                                            acts: seq![ActionS::OpenPipe(p)] + pre.acts + lr.acts
                                                + rr.acts,
                                            fin: Option::Some((orr, m)),
                                        },
                                        Outcome::Started(t, _) => if m < rs.len() {
                                            SemR {
                                                acts: seq![ActionS::OpenPipe(p)] + pre.acts
                                                    + lr.acts + rr.acts + seq![ActionS::Await(t)],
                                                fin: Option::Some((orr, m + 1)),
                                            }
                                        } else {
                                            SemR {
                                                acts: seq![ActionS::OpenPipe(p)] + pre.acts
                                                    + lr.acts + rr.acts + seq![ActionS::Await(t)],
                                                fin: Option::None,
                                            }
                                        },
                                    },
                                }
                            },
                        }
                    },
                }
            } else {
                SemR { acts: seq![ActionS::OpenPipe(i as usize)], fin: Option::None }
            }
        },
        Cmd::Simple(s) => sem_simple(simple_s(s), ctx, i, rs),
    }
}

/// The whole run of one tree.  In capture mode the very first action opens
/// the capture pipe, whose id is 0, and the tree's final stdout is bound to
/// its write end; the driver reads the pipe once the run is done.  The
/// finished tree's outcome is forced to the final success flag.
pub open spec fn runs(tree: Cmd, capture: bool, rs: Seq<bool>) -> RunR {
    if capture {
        if 0 < rs.len() {
            run_tail(
                seq![ActionS::OpenPipe(0)],
                sem(tree, CmdMeta { stdin: Option::None, stdout: Option::Some(0) }, 1, rs),
                rs,
            )
        } else {
            RunR { acts: seq![ActionS::OpenPipe(0)], fin: Option::None }
        }
    } else {
        run_tail(seq![], sem(tree, CmdMeta { stdin: Option::None, stdout: Option::None }, 0, rs), rs)
    }
}

/// Forcing the root's outcome at the end of a run.
pub open spec fn run_tail(prefix: Seq<ActionS>, m: SemR, rs: Seq<bool>) -> RunR {
    match m.fin {
        Option::None => RunR { acts: prefix + m.acts, fin: Option::None },
        Option::Some((o, j)) => {
            let f = force_sem(o, j, rs);
            match f.fin {
                Option::None => RunR { acts: prefix + m.acts + f.acts, fin: Option::None },
                Option::Some((b, _k)) => RunR {
                    acts: prefix + m.acts + f.acts,
                    fin: Option::Some(b),
                },
            }
        },
    }
}

// ------------------------------------------------------------------
// The executable engine.
// ------------------------------------------------------------------

/// Result of replaying one subtree: the next action it is blocked on, or
/// its outcome and the next reply index.
#[derive(Debug, PartialEq, Eq)]
pub enum Rep {
    Blocked(Action),
    Fin(Outcome, usize),
}

/// How an executable replay result realizes a semantic one: a finished
/// replay carries exactly the semantic outcome; a blocked one returns the
/// one action of the trace that has no reply yet — its last.
pub open spec fn rep_matches(r: Rep, m: SemR) -> bool {
    match r {
        Rep::Fin(o, j) => m.fin == Option::Some((o, j as int)),
        Rep::Blocked(a) => m.fin is None && m.acts.len() > 0 && act_s(a) == m.acts.last(),
    }
}

/// Relies on `str`'s `==` (core's `PartialEq` for `str`): two string
/// slices are equal exactly when their character sequences are equal.
#[verifier::external_body]
fn str_eq(a: &str, b: &str) -> (r: bool)
    ensures
        r == (a@ == b@),
{
    a == b
}

/// Which built-in, if any, this command name denotes.
fn builtin_kind(cmd: &String) -> (r: Option<BKind>)
    ensures
        r == spec_builtin(*cmd),
{
    if str_eq(cmd.as_str(), "exit") {
        Some(BKind::Exit)
    } else if str_eq(cmd.as_str(), "cd") {
        Some(BKind::Cd)
    } else if str_eq(cmd.as_str(), "set") {
        Some(BKind::SetOpt)
    } else {
        None
    }
}

/// Whether this command name is the quasi-built-in `exec`.
fn is_exec(cmd: &String) -> (r: bool)
    ensures
        r == is_exec_name(*cmd),
{
    str_eq(cmd.as_str(), "exec")
}

fn flip_out(o: Outcome) -> (r: Outcome)
    ensures
        r == flip(o),
{
    match o {
        Outcome::Ready(b) => Outcome::Ready(!b),
        Outcome::Started(t, n) => Outcome::Started(t, !n),
    }
}

/// Result of emitting a list of reply-ignoring actions.
pub enum CloseRes {
    Blocked(Action),
    Done(usize),
}

/// Emit the `Close` actions owed for a dropped context.
fn drop_meta(ctx: CmdMeta, i: usize, n: usize) -> (r: CloseRes)
    requires
        i <= n,
    ensures
        ({
            let pre = emit_ignored(meta_closes(ctx), i as int, n as int);
            match r {
                CloseRes::Done(j) => pre.fin == Option::Some(j as int) && i <= j <= n,
                CloseRes::Blocked(a) => pre.fin is None && pre.acts.len() > 0 && act_s(a)
                    == pre.acts.last(),
            }
        }),
{
    let mut j = i;
    if let Some(w) = ctx.stdout {
        if j == n {
            proof {
                let cl = meta_closes(ctx);
                assert(cl[0] == ActionS::Close(w, true));
                assert(cl.take(1) =~= seq![ActionS::Close(w, true)]);
            }
            return CloseRes::Blocked(Action::Close(w, true));
        }
        j = j + 1;
    }
    if let Some(rd) = ctx.stdin {
        if j == n {
            proof {
                let cl = meta_closes(ctx);
                match ctx.stdout {
                    Option::Some(w) => {
                        assert(cl =~= seq![
                            ActionS::Close(w, true),
                            ActionS::Close(rd, false),
                        ]);
                        assert(cl.take(2) =~= cl);
                    },
                    Option::None => {
                        assert(cl =~= seq![ActionS::Close(rd, false)]);
                        assert(cl.take(1) =~= cl);
                    },
                }
            }
            return CloseRes::Blocked(Action::Close(rd, false));
        }
        j = j + 1;
    }
    proof {
        let cl = meta_closes(ctx);
        match (ctx.stdout, ctx.stdin) {
            (Option::Some(_), Option::Some(_)) => assert(cl.len() == 2),
            (Option::Some(_), Option::None) => assert(cl.len() == 1),
            (Option::None, Option::Some(_)) => assert(cl.len() == 1),
            (Option::None, Option::None) => assert(cl.len() == 0),
        }
    }
    CloseRes::Done(j)
}

/// Emit the `Close` actions owed for the context ends reconciliation does
/// not bind into this command's cells.
fn drop_unbound(s: &Simple, ctx: CmdMeta, i: usize, n: usize) -> (r: CloseRes)
    requires
        i <= n,
    ensures
        ({
            let pre = emit_ignored(reconcile_closes(simple_s(*s), ctx), i as int, n as int);
            match r {
                CloseRes::Done(j) => pre.fin == Option::Some(j as int) && i <= j <= n,
                CloseRes::Blocked(a) => pre.fin is None && pre.acts.len() > 0 && act_s(a)
                    == pre.acts.last(),
            }
        }),
{
    let ghost cl = reconcile_closes(simple_s(*s), ctx);
    let mut j = i;
    let close_out: Option<usize> = match (ctx.stdout, &s.stdout) {
        (Some(_), Fd::Stdout) => None,
        (Some(w), _) => Some(w),
        (None, _) => None,
    };
    let close_in: Option<usize> = match (ctx.stdin, &s.stdin) {
        (Some(_), Fd::Stdin) => None,
        (Some(rd), _) => Some(rd),
        (None, _) => None,
    };
    if let Some(w) = close_out {
        if j == n {
            proof {
                assert(cl[0] == ActionS::Close(w, true));
                assert(cl.take(1) =~= seq![ActionS::Close(w, true)]);
            }
            return CloseRes::Blocked(Action::Close(w, true));
        }
        j = j + 1;
    }
    if let Some(rd) = close_in {
        if j == n {
            proof {
                match close_out {
                    Some(_) => {
                        assert(cl.len() == 2);
                        assert(cl[1] == ActionS::Close(rd, false));
                        assert(cl.take(2) =~= cl);
                    },
                    None => {
                        assert(cl =~= seq![ActionS::Close(rd, false)]);
                        assert(cl.take(1) =~= cl);
                    },
                }
            }
            return CloseRes::Blocked(Action::Close(rd, false));
        }
        j = j + 1;
    }
    proof {
        match (close_out, close_in) {
            (Some(_), Some(_)) => assert(cl.len() == 2),
            (Some(_), None) => assert(cl.len() == 1),
            (None, Some(_)) => assert(cl.len() == 1),
            (None, None) => assert(cl.len() == 0),
        }
    }
    CloseRes::Done(j)
}

/// Result of forcing an outcome.
pub enum ForceRes {
    Blocked(Action),
    Done(bool, usize),
}

/// Force an outcome to a success flag, waiting for a started child.
fn force_outcome(o: Outcome, i: usize, rs: &Vec<bool>) -> (r: ForceRes)
    requires
        i <= rs.len(),
    ensures
        ({
            let f = force_sem(o, i as int, rs@);
            match r {
                ForceRes::Done(b, j) => f.fin == Option::Some((b, j as int)) && i <= j <= rs.len(),
                ForceRes::Blocked(a) => f.fin is None && f.acts.len() > 0 && act_s(a)
                    == f.acts.last(),
            }
        }),
{
    match o {
        Outcome::Ready(b) => ForceRes::Done(b, i),
        Outcome::Started(t, neg) => {
            if i < rs.len() {
                let s = rs[i];
                ForceRes::Done(if neg { !s } else { s }, i + 1)
            } else {
                ForceRes::Blocked(Action::Await(t))
            }
        },
    }
}

/// Reconcile a command's descriptor cells with the context: bind an
/// inherited pipe end only into a cell that still holds the default; an
/// explicit redirection always wins over positional pipe or capture wiring.
pub fn reconcile_io(simple: &Simple, stdio: CmdMeta) -> (r: Simple)
    ensures
        simple_s(r) == reconciled(simple_s(*simple), stdio),
{
    let new_stdin = if let Some(rd) = stdio.stdin {
        if matches!(simple.stdin, Fd::Stdin) {
            Fd::PipeIn(rd)
        } else {
            fd_dup(&simple.stdin)
        }
    } else {
        fd_dup(&simple.stdin)
    };
    let new_stdout = if let Some(w) = stdio.stdout {
        if matches!(simple.stdout, Fd::Stdout) {
            Fd::PipeOut(w)
        } else {
            fd_dup(&simple.stdout)
        }
    } else {
        fd_dup(&simple.stdout)
    };
    Simple {
        cmd: simple.cmd.clone(),
        args: strings_dup(&simple.args),
        env: env_dup(&simple.env),
        stdin: new_stdin,
        stdout: new_stdout,
    }
}

/// Replay one subtree against the replies received so far: either its
/// outcome, or the action whose reply is missing.
#[verifier::rlimit(100)]
#[verifier::spinoff_prover]
pub fn replay(c: &Cmd, ctx: CmdMeta, i: usize, rs: &Vec<bool>) -> (r: Rep)
    requires
        i <= rs.len(),
    ensures
        rep_matches(r, sem(*c, ctx, i as int, rs@)),
        r matches Rep::Fin(_, j) ==> i <= j <= rs.len(),
    decreases *c,
{
    let n = rs.len();
    match c {
        Cmd::Empty => {
            match drop_meta(ctx, i, n) {
                CloseRes::Blocked(a) => Rep::Blocked(a),
                CloseRes::Done(j) => Rep::Fin(Outcome::Ready(true), j),
            }
        },
        Cmd::Not(t) => {
            match replay(t, ctx, i, rs) {
                Rep::Blocked(a) => Rep::Blocked(a),
                Rep::Fin(o, j) => Rep::Fin(flip_out(o), j),
            }
        },
        Cmd::And(l, r) => {
            match replay(l, CmdMeta::inherit(), i, rs) {
                Rep::Blocked(a) => Rep::Blocked(a),
                Rep::Fin(ol, j) => match force_outcome(ol, j, rs) {
                    ForceRes::Blocked(a) => Rep::Blocked(a),
                    ForceRes::Done(bl, k) => if bl {
                        replay(r, ctx, k, rs)
                    } else {
                        match drop_meta(ctx, k, n) {
                            CloseRes::Blocked(a) => Rep::Blocked(a),
                            CloseRes::Done(m) => Rep::Fin(Outcome::Ready(false), m),
                        }
                    },
                },
            }
        },
        Cmd::Or(l, r) => {
            match replay(l, CmdMeta::inherit(), i, rs) {
                Rep::Blocked(a) => Rep::Blocked(a),
                Rep::Fin(ol, j) => match force_outcome(ol, j, rs) {
                    ForceRes::Blocked(a) => Rep::Blocked(a),
                    ForceRes::Done(bl, k) => if !bl {
                        replay(r, ctx, k, rs)
                    } else {
                        match drop_meta(ctx, k, n) {
                            CloseRes::Blocked(a) => Rep::Blocked(a),
                            CloseRes::Done(m) => Rep::Fin(Outcome::Ready(true), m),
                        }
                    },
                },
            }
        },
        Cmd::Pipeline(l, r) => {
            if i == n {
                return Rep::Blocked(Action::OpenPipe(i));
            }
            let p = i;
            let mut j = i + 1;
            if let Some(old_rd) = ctx.stdin {
                if j == n {
                    return Rep::Blocked(Action::Close(old_rd, false));
                }
                j = j + 1;
            }
            match replay(l, CmdMeta::pipe_out(p), j, rs) {
                Rep::Blocked(a) => Rep::Blocked(a),
                Rep::Fin(ol, k) => {
                    match replay(r, CmdMeta { stdin: Some(p), stdout: ctx.stdout }, k, rs) {
                        Rep::Blocked(a) => Rep::Blocked(a),
                        Rep::Fin(orr, m) => match ol {
                            Outcome::Ready(_) => Rep::Fin(orr, m),
                            Outcome::Started(t, _) => {
                                if m < n {
                                    Rep::Fin(orr, m + 1)
                                } else {
                                    Rep::Blocked(Action::Await(t))
                                }
                            },
                        },
                    }
                },
            }
        },
        Cmd::Simple(s) => {
            match builtin_kind(&s.cmd) {
                Some(k) => match drop_meta(ctx, i, n) {
                    CloseRes::Blocked(a) => Rep::Blocked(a),
                    CloseRes::Done(j) => {
                        if j < n {
                            Rep::Fin(Outcome::Ready(rs[j]), j + 1)
                        } else {
                            Rep::Blocked(Action::Builtin(k, strings_dup(&s.args)))
                        }
                    },
                },
                None => if is_exec(&s.cmd) {
                    match drop_meta(ctx, i, n) {
                        CloseRes::Blocked(a) => Rep::Blocked(a),
                        CloseRes::Done(j) => {
                            if j < n {
                                Rep::Fin(Outcome::Ready(false), j + 1)
                            } else if s.args.len() == 0 {
                                Rep::Blocked(Action::Report)
                            } else {
                                Rep::Blocked(Action::Exec(strings_dup(&s.args)))
                            }
                        },
                    }
                } else {
                    match drop_unbound(s, ctx, i, n) {
                        CloseRes::Blocked(a) => Rep::Blocked(a),
                        CloseRes::Done(j) => {
                            if j < n {
                                let ok = rs[j];
                                Rep::Fin(
                                    if ok {
                                        Outcome::Started(j, false)
                                    } else {
                                        Outcome::Ready(false)
                                    },
                                    j + 1,
                                )
                            } else {
                                Rep::Blocked(Action::Start(reconcile_io(s, ctx)))
                            }
                        },
                    }
                },
            }
        },
    }
}

/// How a `poll` result realizes a run: `Done` carries exactly the run's
/// final flag; an action is the one action of the run's trace that has no
/// reply yet — its last.
pub open spec fn step_matches(s: Step, r: RunR) -> bool {
    match s {
        Step::Done(b) => r.fin == Option::Some(b),
        Step::Act(a) => r.fin is None && r.acts.len() > 0 && act_s(a) == r.acts.last(),
    }
}

/// The execution engine for one command tree.
///
/// `Runner` is a deterministic decision core.  The driver repeatedly asks
/// it what to do next with [`Runner::poll`], performs the returned
/// [`Action`], and records the result with [`Runner::feed`]; `poll` then
/// takes the run one action further.  The machine's whole behaviour is the
/// function [`runs`] of the tree, the capture flag and the recorded
/// replies, so every combinator decision is pinned by that one spec.
pub struct Runner {
    pub tree: Cmd,
    pub capture: bool,
    pub replies: Vec<bool>,
}

impl Runner {
    /// A fresh engine for one tree.  With `capture` set, the run's first
    /// action opens the capture pipe (id 0); the driver reads its read end
    /// to a string once the run is done.
    pub fn new(tree: Cmd, capture: bool) -> (r: Runner)
        ensures
            r.tree == tree,
            r.capture == capture,
            r.replies@.len() == 0,
    {
        Runner { tree, capture, replies: Vec::new() }
    }

    /// The next thing to do: the first action of the run not yet answered,
    /// or the run's final success flag.
    pub fn poll(&self) -> (s: Step)
        ensures
            step_matches(s, runs(self.tree, self.capture, self.replies@)),
    {
        if self.capture {
            if self.replies.len() == 0 {
                return Step::Act(Action::OpenPipe(0));
            }
            let rep = replay(&self.tree, CmdMeta::pipe_out(0), 1, &self.replies);
            match rep {
                Rep::Blocked(a) => Step::Act(a),
                Rep::Fin(o, j) => match force_outcome(o, j, &self.replies) {
                    ForceRes::Blocked(a) => Step::Act(a),
                    ForceRes::Done(b, _) => Step::Done(b),
                },
            }
        } else {
            let rep = replay(&self.tree, CmdMeta::inherit(), 0, &self.replies);
            match rep {
                Rep::Blocked(a) => Step::Act(a),
                Rep::Fin(o, j) => match force_outcome(o, j, &self.replies) {
                    ForceRes::Blocked(a) => Step::Act(a),
                    ForceRes::Done(b, _) => Step::Done(b),
                },
            }
        }
    }

    /// Record the driver's reply to the action the last `poll` returned.
    pub fn feed(&mut self, reply: bool)
        ensures
            final(self).tree == old(self).tree,
            final(self).capture == old(self).capture,
            final(self).replies@ == old(self).replies@.push(reply),
    {
        self.replies.push(reply);
    }
}

} // verus!

//! The engine's combinator laws, proved once and for all over the
//! semantics [`sem`] / [`runs`] that [`crate::engine::Runner`] is verified
//! against.

use vstd::prelude::*;

use crate::ast::{Cmd, Fd, Simple};
use crate::engine::{
    emit_ignored, flip, force_sem, is_exec_name, meta_closes, reconcile_closes, reconciled,
    run_tail, runs, sem, sem_simple, simple_s, spec_builtin, ActionS, CmdMeta, Outcome, SemR,
    SimpleS,
};

verus! {

/// Forcing a flipped outcome waits exactly as forcing the outcome itself
/// and yields the negated flag.
proof fn force_flip(o: Outcome, i: int, rs: Seq<bool>)
    ensures
        force_sem(flip(o), i, rs).acts == force_sem(o, i, rs).acts,
        force_sem(flip(o), i, rs).fin == match force_sem(o, i, rs).fin {
            Option::Some((b, j)) => Option::Some((!b, j)),
            Option::None => Option::None::<(bool, int)>,
        },
{
}

/// Negation inverts a run's success and changes nothing else: `Not(t)`
/// emits the same actions as `t`, blocks exactly when `t` blocks, and
/// finishes with the inverted flag.
pub proof fn law_not_inverts(t: Box<Cmd>, capture: bool, rs: Seq<bool>)
    ensures
        runs(Cmd::Not(t), capture, rs).acts == runs(*t, capture, rs).acts,
        runs(Cmd::Not(t), capture, rs).fin == match runs(*t, capture, rs).fin {
            Option::Some(b) => Option::Some(!b),
            Option::None => Option::None::<bool>,
        },
{
    let ctx = if capture {
        CmdMeta { stdin: Option::None, stdout: Option::Some(0) }
    } else {
        CmdMeta { stdin: Option::None, stdout: Option::None }
    };
    let i: int = if capture { 1 } else { 0 };
    let m = sem(*t, ctx, i, rs);
    match m.fin {
        Option::None => {},
        Option::Some((o, j)) => {
            force_flip(o, j, rs);
        },
    }
}

/// Double negation is the identity on a run: actions, blocking and final
/// flag of `Not(Not(t))` are those of `t`.
pub proof fn law_double_not(nt: Box<Cmd>, t: Box<Cmd>, capture: bool, rs: Seq<bool>)
    requires
        *nt == Cmd::Not(t),
    ensures
        runs(Cmd::Not(nt), capture, rs).acts == runs(*t, capture, rs).acts,
        runs(Cmd::Not(nt), capture, rs).fin == runs(*t, capture, rs).fin,
{
    law_not_inverts(nt, capture, rs);
    law_not_inverts(t, capture, rs);
    match runs(*t, capture, rs).fin {
        Option::Some(b) => {
            assert(runs(Cmd::Not(nt), capture, rs).fin == Option::Some(!!b));
        },
        Option::None => {},
    }
}

/// `And(l, r)` runs its left side with fully inherited streams and forces
/// its flag; the right side runs — and alone receives the context — exactly
/// when that flag is true, and the node then finishes as the right side
/// does.  When the left side fails, nothing of the right side appears in
/// the trace: only the left side's actions, the wait that forced it, and
/// the closing of the dropped context's pipe ends, and the node fails.
pub proof fn law_and_runs_right_iff_left_succeeds(
    l: Box<Cmd>,
    r: Box<Cmd>,
    ctx: CmdMeta,
    i: int,
    rs: Seq<bool>,
)
    ensures
        ({
            let lr = sem(*l, CmdMeta { stdin: Option::None, stdout: Option::None }, i, rs);
            let whole = sem(Cmd::And(l, r), ctx, i, rs);
            &&& (lr.fin is None ==> whole == lr)
            &&& (lr.fin matches Option::Some((ol, j)) ==> {
                let f = force_sem(ol, j, rs);
                &&& (f.fin is None ==> whole.acts == lr.acts + f.acts && whole.fin is None)
                &&& (f.fin matches Option::Some((bl, k)) ==> if bl {
                    let rr = sem(*r, ctx, k, rs);
                    whole.acts == lr.acts + f.acts + rr.acts && whole.fin == rr.fin
                } else {
                    let pre = emit_ignored(meta_closes(ctx), k, rs.len() as int);
                    &&& whole.acts == lr.acts + f.acts + pre.acts
                    &&& (pre.fin matches Option::Some(m) ==> whole.fin == Option::Some(
                        (Outcome::Ready(false), m),
                    ))
                    &&& (pre.fin is None ==> whole.fin is None)
                })
            })
        }),
{
}

/// `Or(l, r)` is symmetric to `And`: the right side runs — and alone
/// receives the context — exactly when the left side's forced flag is
/// false; a succeeding left side ends the node at once with success, the
/// dropped context's pipe ends closed and nothing of the right side in the
/// trace.
pub proof fn law_or_runs_right_iff_left_fails(
    l: Box<Cmd>,
    r: Box<Cmd>,
    ctx: CmdMeta,
    i: int,
    rs: Seq<bool>,
)
    ensures
        ({
            let lr = sem(*l, CmdMeta { stdin: Option::None, stdout: Option::None }, i, rs);
            let whole = sem(Cmd::Or(l, r), ctx, i, rs);
            &&& (lr.fin is None ==> whole == lr)
            &&& (lr.fin matches Option::Some((ol, j)) ==> {
                let f = force_sem(ol, j, rs);
                &&& (f.fin is None ==> whole.acts == lr.acts + f.acts && whole.fin is None)
                &&& (f.fin matches Option::Some((bl, k)) ==> if !bl {
                    let rr = sem(*r, ctx, k, rs);
                    whole.acts == lr.acts + f.acts + rr.acts && whole.fin == rr.fin
                } else {
                    let pre = emit_ignored(meta_closes(ctx), k, rs.len() as int);
                    &&& whole.acts == lr.acts + f.acts + pre.acts
                    &&& (pre.fin matches Option::Some(m) ==> whole.fin == Option::Some(
                        (Outcome::Ready(true), m),
                    ))
                    &&& (pre.fin is None ==> whole.fin is None)
                })
            })
        }),
{
}

/// A pipeline's outcome is its right side's outcome, independent of the
/// left side's exit status: whatever outcome the left side reached, once
/// both sides have finished the node hands on exactly what the right side
/// produced (only waiting, in passing, for a left child still running).
pub proof fn law_pipeline_success_is_rights(
    l: Box<Cmd>,
    r: Box<Cmd>,
    ctx: CmdMeta,
    i: int,
    rs: Seq<bool>,
)
    ensures
        i < rs.len() ==> ({
            let p = i as usize;
            let pre = emit_ignored(
                match ctx.stdin {
                    Option::Some(old_r) => seq![ActionS::Close(old_r, false)],
                    Option::None => seq![],
                },
                i + 1,
                rs.len() as int,
            );
            pre.fin matches Option::Some(j) ==> {
                let lr = sem(*l, CmdMeta { stdin: Option::None, stdout: Option::Some(p) }, j, rs);
                lr.fin matches Option::Some((ol, k)) ==> {
                    let rr = sem(*r, CmdMeta { stdin: Option::Some(p), stdout: ctx.stdout }, k, rs);
                    rr.fin matches Option::Some((orr, m)) ==> {
                        let whole = sem(Cmd::Pipeline(l, r), ctx, i, rs);
                        &&& (ol is Ready ==> whole.fin == Option::Some((orr, m)))
                        &&& (ol is Started && m < rs.len() ==> whole.fin == Option::Some(
                            (orr, m + 1),
                        ))
                    }
                }
            }
        }),
{
}

/// `Empty` succeeds unconditionally and spawns nothing: its trace holds
/// only the closing of the dropped context's pipe ends — with no context,
/// no actions at all.
pub proof fn law_empty_succeeds_without_spawn(ctx: CmdMeta, i: int, rs: Seq<bool>)
    requires
        0 <= i <= rs.len(),
    ensures
        ({
            let m = sem(Cmd::Empty, ctx, i, rs);
            &&& (forall|q: int| 0 <= q < m.acts.len() ==> (#[trigger] m.acts[q]) is Close)
            &&& (m.fin matches Option::Some((o, _j)) ==> o == Outcome::Ready(true))
        }),
        sem(Cmd::Empty, CmdMeta { stdin: Option::None, stdout: Option::None }, i, rs).acts
            =~= Seq::<ActionS>::empty(),
        sem(Cmd::Empty, CmdMeta { stdin: Option::None, stdout: Option::None }, i, rs).fin
            == Option::Some((Outcome::Ready(true), i)),
{
    let cl = meta_closes(ctx);
    assert(forall|q: int| 0 <= q < cl.len() ==> (#[trigger] cl[q]) is Close) by {
        match (ctx.stdout, ctx.stdin) {
            (Option::Some(w), Option::Some(rd)) => {
                assert(cl =~= seq![ActionS::Close(w, true), ActionS::Close(rd, false)]);
            },
            (Option::Some(w), Option::None) => {
                assert(cl =~= seq![ActionS::Close(w, true)]);
            },
            (Option::None, Option::Some(rd)) => {
                assert(cl =~= seq![ActionS::Close(rd, false)]);
            },
            (Option::None, Option::None) => {
                assert(cl =~= Seq::<ActionS>::empty());
            },
        }
    }
    let m = sem(Cmd::Empty, ctx, i, rs);
    assert(forall|q: int| 0 <= q < m.acts.len() ==> (#[trigger] m.acts[q]) is Close) by {
        assert(forall|q: int| 0 <= q < m.acts.len() ==> m.acts[q] == cl[q]);
    }
    assert(meta_closes(CmdMeta { stdin: Option::None, stdout: Option::None })
        =~= Seq::<ActionS>::empty());
}

/// `exec` without arguments reports the mistake and fails; nothing is
/// spawned and no process image is replaced, so the combinators around the
/// node treat it like any other failed command.
pub proof fn law_exec_no_args_fails(s: Simple, ctx: CmdMeta, i: int, rs: Seq<bool>)
    requires
        is_exec_name(s.cmd),
        s.args@.len() == 0,
        0 <= i <= rs.len(),
    ensures
        ({
            let m = sem(Cmd::Simple(s), ctx, i, rs);
            &&& (forall|q: int|
                0 <= q < m.acts.len() ==> (#[trigger] m.acts[q]) is Close || m.acts[q] is Report)
            &&& (m.fin matches Option::Some((o, _j)) ==> o == Outcome::Ready(false))
        }),
{
    lemma_exec_is_no_builtin(s.cmd);
    let ss = simple_s(s);
    let cl = meta_closes(ctx);
    assert(forall|q: int| 0 <= q < cl.len() ==> (#[trigger] cl[q]) is Close) by {
        match (ctx.stdout, ctx.stdin) {
            (Option::Some(w), Option::Some(rd)) => {
                assert(cl =~= seq![ActionS::Close(w, true), ActionS::Close(rd, false)]);
            },
            (Option::Some(w), Option::None) => {
                assert(cl =~= seq![ActionS::Close(w, true)]);
            },
            (Option::None, Option::Some(rd)) => {
                assert(cl =~= seq![ActionS::Close(rd, false)]);
            },
            (Option::None, Option::None) => {
                assert(cl =~= Seq::<ActionS>::empty());
            },
        }
    }
    let pre = emit_ignored(cl, i, rs.len() as int);
    assert(pre.acts.len() <= cl.len());
    assert(forall|q: int| 0 <= q < pre.acts.len() ==> (#[trigger] pre.acts[q]) is Close) by {
        assert(forall|q: int| 0 <= q < pre.acts.len() ==> pre.acts[q] == cl[q]);
    }
    let m = sem(Cmd::Simple(s), ctx, i, rs);
    match pre.fin {
        Option::None => {},
        Option::Some(j) => {
            assert(m.acts == pre.acts + seq![ActionS::Report]);
            assert(forall|q: int|
                0 <= q < m.acts.len() ==> (#[trigger] m.acts[q]) is Close || m.acts[q]
                    is Report) by {
                assert(forall|q: int| 0 <= q < pre.acts.len() ==> m.acts[q] == pre.acts[q]);
                assert(m.acts[pre.acts.len() as int] == ActionS::Report);
            }
        },
    }
}

/// The name `exec` denotes none of the built-ins.
proof fn lemma_exec_is_no_builtin(cmd: String)
    requires
        is_exec_name(cmd),
    ensures
        spec_builtin(cmd) is None,
{
    reveal_strlit("exec");
    reveal_strlit("exit");
    reveal_strlit("cd");
    reveal_strlit("set");
    assert("exec"@[2] != "exit"@[2]);
    assert("exec"@.len() != "cd"@.len());
    assert("exec"@.len() != "set"@.len());
}

/// Explicit redirection beats pipeline and capture wiring: a descriptor
/// cell that does not hold the default keeps its binding, and the unbound
/// pipe end of the context is closed, so the pipe's reader sees
/// end-of-stream with no bytes from this command.
pub proof fn law_redirect_wins(s: SimpleS, ctx: CmdMeta, w: usize)
    requires
        ctx.stdout == Option::Some(w),
        !(s.stdout is Stdout),
    ensures
        reconciled(s, ctx).stdout == s.stdout,
        reconcile_closes(s, ctx).len() >= 1,
        reconcile_closes(s, ctx)[0] == ActionS::Close(w, true),
{
}

/// In a pipeline of two external commands with default descriptor cells,
/// both children are started before either is waited for: the trace is
/// open the pipe, start the left child, start the right child, and only
/// then wait.  No synchronous wait stands between the two spawns, so a
/// left side with more output than a pipe buffer holds cannot deadlock
/// the run.
pub proof fn law_pipeline_spawns_before_waits(
    l: Box<Cmd>,
    r: Box<Cmd>,
    sl: Simple,
    sr: Simple,
    rs: Seq<bool>,
)
    requires
        *l == Cmd::Simple(sl),
        *r == Cmd::Simple(sr),
        spec_builtin(sl.cmd) is None,
        !is_exec_name(sl.cmd),
        sl.stdin is Stdin,
        sl.stdout is Stdout,
        spec_builtin(sr.cmd) is None,
        !is_exec_name(sr.cmd),
        sr.stdin is Stdin,
        sr.stdout is Stdout,
        rs.len() == 4,
        rs[1] == true,
        rs[2] == true,
    ensures
        ({
            let m = sem(
                Cmd::Pipeline(l, r),
                CmdMeta { stdin: Option::None, stdout: Option::None },
                0,
                rs,
            );
            &&& m.acts =~= seq![
                ActionS::OpenPipe(0),
                ActionS::Start(
                    reconciled(
                        simple_s(sl),
                        CmdMeta { stdin: Option::None, stdout: Option::Some(0) },
                    ),
                ),
                ActionS::Start(
                    reconciled(
                        simple_s(sr),
                        CmdMeta { stdin: Option::Some(0), stdout: Option::None },
                    ),
                ),
                ActionS::Await(1),
            ]
            &&& m.fin == Option::Some((Outcome::Started(2, false), 4int))
        }),
{
    let ctx_l = CmdMeta { stdin: Option::None, stdout: Option::Some(0) };
    let ctx_r = CmdMeta { stdin: Option::Some(0), stdout: Option::None };
    assert(reconcile_closes(simple_s(sl), ctx_l) =~= Seq::<ActionS>::empty());
    assert(reconcile_closes(simple_s(sr), ctx_r) =~= Seq::<ActionS>::empty());
    let lr = sem(*l, ctx_l, 1, rs);
    assert(lr.acts =~= seq![ActionS::Start(reconciled(simple_s(sl), ctx_l))]);
    assert(lr.fin == Option::Some((Outcome::Started(1, false), 2int)));
    let rr = sem(*r, ctx_r, 2, rs);
    assert(rr.acts =~= seq![ActionS::Start(reconciled(simple_s(sr), ctx_r))]);
    assert(rr.fin == Option::Some((Outcome::Started(2, false), 3int)));
}



/// A finished subtree consumed replies between its start index and the
/// number recorded: its next reply index is well formed.
pub proof fn sem_bounds(c: Cmd, ctx: CmdMeta, i: int, rs: Seq<bool>)
    requires
        0 <= i <= rs.len(),
    ensures
        sem(c, ctx, i, rs).fin matches Option::Some((_o, j)) ==> i <= j <= rs.len(),
    decreases c,
{
    match c {
        Cmd::Empty => {},
        Cmd::Not(t) => {
            sem_bounds(*t, ctx, i, rs);
        },
        Cmd::And(l, r) => {
            let inh = CmdMeta { stdin: Option::None, stdout: Option::None };
            sem_bounds(*l, inh, i, rs);
            let lr = sem(*l, inh, i, rs);
            match lr.fin {
                Option::None => {},
                Option::Some((ol, j)) => {
                    let f = force_sem(ol, j, rs);
                    match f.fin {
                        Option::None => {},
                        Option::Some((bl, k)) => {
                            if bl {
                                sem_bounds(*r, ctx, k, rs);
                            }
                        },
                    }
                },
            }
        },
        Cmd::Or(l, r) => {
            let inh = CmdMeta { stdin: Option::None, stdout: Option::None };
            sem_bounds(*l, inh, i, rs);
            let lr = sem(*l, inh, i, rs);
            match lr.fin {
                Option::None => {},
                Option::Some((ol, j)) => {
                    let f = force_sem(ol, j, rs);
                    match f.fin {
                        Option::None => {},
                        Option::Some((bl, k)) => {
                            if !bl {
                                sem_bounds(*r, ctx, k, rs);
                            }
                        },
                    }
                },
            }
        },
        Cmd::Pipeline(l, r) => {
            if i < rs.len() {
                let p = i as usize;
                let pre = emit_ignored(
                    match ctx.stdin {
                        Option::Some(old_r) => seq![ActionS::Close(old_r, false)],
                        Option::None => seq![],
                    },
                    i + 1,
                    rs.len() as int,
                );
                match pre.fin {
                    Option::None => {},
                    Option::Some(j) => {
                        let ctx_l = CmdMeta { stdin: Option::None, stdout: Option::Some(p) };
                        sem_bounds(*l, ctx_l, j, rs);
                        let lr = sem(*l, ctx_l, j, rs);
                        match lr.fin {
                            Option::None => {},
                            Option::Some((ol, k)) => {
                                sem_bounds(
                                    *r,
                                    CmdMeta { stdin: Option::Some(p), stdout: ctx.stdout },
                                    k,
                                    rs,
                                );
                            },
                        }
                    },
                }
            }
        },
        Cmd::Simple(_s) => {},
    }
}


proof fn lemma_take_prefix(s: Seq<ActionS>, k: int)
    requires
        0 <= k <= s.len(),
    ensures
        s.take(k).is_prefix_of(s),
{
    assert(s.take(k) =~= s.subrange(0, s.take(k).len() as int));
}

proof fn lemma_take_take_prefix(s: Seq<ActionS>, k1: int, k2: int)
    requires
        0 <= k1 <= k2 <= s.len(),
    ensures
        s.take(k1).is_prefix_of(s.take(k2)),
{
    assert(s.take(k1) =~= s.take(k2).subrange(0, s.take(k1).len() as int));
}

proof fn lemma_prefix_extend(a: Seq<ActionS>, b: Seq<ActionS>)
    ensures
        a.is_prefix_of(a + b),
{
    assert(a =~= (a + b).subrange(0, a.len() as int));
}

proof fn lemma_prefix_concat_left(x: Seq<ActionS>, a: Seq<ActionS>, b: Seq<ActionS>)
    requires
        a.is_prefix_of(b),
    ensures
        (x + a).is_prefix_of(x + b),
{
    assert(a =~= b.subrange(0, a.len() as int));
    assert((x + a) =~= (x + b).subrange(0, (x + a).len() as int));
}

proof fn lemma_prefix_trans(a: Seq<ActionS>, b: Seq<ActionS>, c: Seq<ActionS>)
    requires
        a.is_prefix_of(b),
        b.is_prefix_of(c),
    ensures
        a.is_prefix_of(c),
{
    assert(a =~= b.subrange(0, a.len() as int));
    assert(b =~= c.subrange(0, b.len() as int));
    assert(a =~= c.subrange(0, a.len() as int));
}

proof fn lemma_prefix_index(rs1: Seq<bool>, rs2: Seq<bool>, j: int)
    requires
        rs1.is_prefix_of(rs2),
        0 <= j < rs1.len(),
    ensures
        rs2[j] == rs1[j],
{
    assert(rs1[j] == rs2.subrange(0, rs1.len() as int)[j]);
}

/// Recording more replies leaves a finished list of reply-ignoring actions
/// as it was and only extends a blocked one.
proof fn lemma_emit_stable(acts: Seq<ActionS>, i: int, n1: int, n2: int)
    requires
        0 <= i <= n1 <= n2,
    ensures
        ({
            let p1 = emit_ignored(acts, i, n1);
            let p2 = emit_ignored(acts, i, n2);
            &&& (p1.fin is Some ==> p2 == p1)
            &&& (p1.fin is None ==> p1.acts.is_prefix_of(p2.acts))
        }),
{
    let p1 = emit_ignored(acts, i, n1);
    let p2 = emit_ignored(acts, i, n2);
    if i + acts.len() <= n1 {
    } else if i + acts.len() <= n2 {
        lemma_take_prefix(acts, n1 - i + 1);
    } else {
        lemma_take_take_prefix(acts, n1 - i + 1, n2 - i + 1);
    }
}

/// Recording more replies leaves a forced outcome as it was and changes a
/// blocked wait in nothing but its now-available answer.
proof fn lemma_force_stable(o: Outcome, j: int, rs1: Seq<bool>, rs2: Seq<bool>)
    requires
        0 <= j <= rs1.len(),
        rs1.is_prefix_of(rs2),
    ensures
        ({
            let f1 = force_sem(o, j, rs1);
            let f2 = force_sem(o, j, rs2);
            &&& (f1.fin is Some ==> f2 == f1)
            &&& (f1.fin is None ==> f2.acts == f1.acts)
            &&& (f1.fin matches Option::Some((_b, k)) ==> j <= k <= rs1.len())
        }),
{
    match o {
        Outcome::Ready(_b) => {},
        Outcome::Started(_t, _n) => {
            if j < rs1.len() {
                lemma_prefix_index(rs1, rs2, j);
            }
        },
    }
}


proof fn lemma_prefix_refl(a: Seq<ActionS>)
    ensures
        a.is_prefix_of(a),
{
    assert(a =~= a.subrange(0, a.len() as int));
}

/// Stability of one simple command's run under recording more replies.
proof fn lemma_simple_stable(ss: SimpleS, ctx: CmdMeta, i: int, rs1: Seq<bool>, rs2: Seq<bool>)
    requires
        0 <= i <= rs1.len(),
        rs1.is_prefix_of(rs2),
    ensures
        ({
            let m1 = sem_simple(ss, ctx, i, rs1);
            let m2 = sem_simple(ss, ctx, i, rs2);
            &&& (m1.fin is Some ==> m2 == m1)
            &&& (m1.fin is None ==> m1.acts.is_prefix_of(m2.acts))
        }),
{
    let n1 = rs1.len() as int;
    let n2 = rs2.len() as int;
    let cl = if spec_builtin(ss.cmd) is Some || is_exec_name(ss.cmd) {
        meta_closes(ctx)
    } else {
        reconcile_closes(ss, ctx)
    };
    let a = match spec_builtin(ss.cmd) {
        Option::Some(k) => ActionS::Builtin(k, ss.args),
        Option::None => if is_exec_name(ss.cmd) {
            if ss.args.len() == 0 {
                ActionS::Report
            } else {
                ActionS::Exec(ss.args)
            }
        } else {
            ActionS::Start(reconciled(ss, ctx))
        },
    };
    lemma_emit_stable(cl, i, n1, n2);
    let p1 = emit_ignored(cl, i, n1);
    let p2 = emit_ignored(cl, i, n2);
    match p1.fin {
        Option::None => {
            match p2.fin {
                Option::None => {},
                Option::Some(_j2) => {
                    lemma_prefix_extend(p2.acts, seq![a]);
                    lemma_prefix_trans(p1.acts, p2.acts, p2.acts + seq![a]);
                },
            }
        },
        Option::Some(j) => {
            if j < n1 {
                lemma_prefix_index(rs1, rs2, j);
            } else {
                lemma_prefix_refl(p1.acts + seq![a]);
            }
        },
    }
}

/// What makes the reply protocol sound: recording more replies never
/// revises history.  A subtree that had finished stays exactly as it was;
/// a blocked one keeps every action already asked for, in place, and only
/// gains new ones.  The driver can therefore perform each action as it is
/// handed out: no later poll will disown it.
#[verifier::rlimit(100)]
#[verifier::spinoff_prover]
pub proof fn law_replies_only_extend(c: Cmd, ctx: CmdMeta, i: int, rs1: Seq<bool>, rs2: Seq<bool>)
    requires
        0 <= i <= rs1.len(),
        rs1.is_prefix_of(rs2),
    ensures
        ({
            let m1 = sem(c, ctx, i, rs1);
            let m2 = sem(c, ctx, i, rs2);
            &&& (m1.fin is Some ==> m2 == m1)
            &&& (m1.fin is None ==> m1.acts.is_prefix_of(m2.acts))
        }),
    decreases c, 1int,
{
    let n1 = rs1.len() as int;
    let n2 = rs2.len() as int;
    match c {
        Cmd::Empty => {
            lemma_emit_stable(meta_closes(ctx), i, n1, n2);
        },
        Cmd::Not(t) => {
            law_replies_only_extend(*t, ctx, i, rs1, rs2);
        },
        Cmd::And(l, r) => {
            let inh = CmdMeta { stdin: Option::None, stdout: Option::None };
            law_replies_only_extend(*l, inh, i, rs1, rs2);
            let lr1 = sem(*l, inh, i, rs1);
            let lr2 = sem(*l, inh, i, rs2);
            match lr1.fin {
                Option::None => {
                    match lr2.fin {
                        Option::None => {},
                        Option::Some((ol2, j2)) => {
                            let f2 = force_sem(ol2, j2, rs2);
                            match f2.fin {
                                Option::None => {
                                    lemma_prefix_extend(lr2.acts, f2.acts);
                                    lemma_prefix_trans(lr1.acts, lr2.acts, lr2.acts + f2.acts);
                                },
                                Option::Some((bl2, k2)) => {
                                    lemma_prefix_extend(lr2.acts, f2.acts);
                                    lemma_prefix_trans(lr1.acts, lr2.acts, lr2.acts + f2.acts);
                                    if bl2 {
                                        let rr2 = sem(*r, ctx, k2, rs2);
                                        lemma_prefix_extend(lr2.acts + f2.acts, rr2.acts);
                                        lemma_prefix_trans(
                                            lr1.acts,
                                            lr2.acts + f2.acts,
                                            lr2.acts + f2.acts + rr2.acts,
                                        );
                                    } else {
                                        let pre2 = emit_ignored(meta_closes(ctx), k2, n2);
                                        lemma_prefix_extend(lr2.acts + f2.acts, pre2.acts);
                                        lemma_prefix_trans(
                                            lr1.acts,
                                            lr2.acts + f2.acts,
                                            lr2.acts + f2.acts + pre2.acts,
                                        );
                                    }
                                },
                            }
                        },
                    }
                },
                Option::Some((ol, j)) => {
                    sem_bounds(*l, inh, i, rs1);
                    lemma_force_stable(ol, j, rs1, rs2);
                    let f1 = force_sem(ol, j, rs1);
                    match f1.fin {
                        Option::None => {
                            let f2 = force_sem(ol, j, rs2);
                            match f2.fin {
                                Option::None => {
                                    lemma_prefix_refl(lr1.acts + f1.acts);
                                },
                                Option::Some((bl2, k2)) => {
                                    lemma_prefix_refl(lr1.acts + f1.acts);
                                    if bl2 {
                                        let rr2 = sem(*r, ctx, k2, rs2);
                                        lemma_prefix_extend(lr1.acts + f1.acts, rr2.acts);
                                        lemma_prefix_trans(
                                            lr1.acts + f1.acts,
                                            lr1.acts + f1.acts,
                                            lr1.acts + f1.acts + rr2.acts,
                                        );
                                    } else {
                                        let pre2 = emit_ignored(meta_closes(ctx), k2, n2);
                                        lemma_prefix_extend(lr1.acts + f1.acts, pre2.acts);
                                        lemma_prefix_trans(
                                            lr1.acts + f1.acts,
                                            lr1.acts + f1.acts,
                                            lr1.acts + f1.acts + pre2.acts,
                                        );
                                    }
                                },
                            }
                        },
                        Option::Some((bl, k)) => {
                            if bl {
                                law_replies_only_extend(*r, ctx, k, rs1, rs2);
                                let rr1 = sem(*r, ctx, k, rs1);
                                let rr2 = sem(*r, ctx, k, rs2);
                                match rr1.fin {
                                    Option::None => {
                                        lemma_prefix_concat_left(
                                            lr1.acts + f1.acts,
                                            rr1.acts,
                                            rr2.acts,
                                        );
                                    },
                                    Option::Some(_) => {},
                                }
                            } else {
                                lemma_emit_stable(meta_closes(ctx), k, n1, n2);
                                let pre1 = emit_ignored(meta_closes(ctx), k, n1);
                                let pre2 = emit_ignored(meta_closes(ctx), k, n2);
                                match pre1.fin {
                                    Option::None => {
                                        lemma_prefix_concat_left(
                                            lr1.acts + f1.acts,
                                            pre1.acts,
                                            pre2.acts,
                                        );
                                    },
                                    Option::Some(_) => {},
                                }
                            }
                        },
                    }
                },
            }
        },
        Cmd::Or(l, r) => {
            let inh = CmdMeta { stdin: Option::None, stdout: Option::None };
            law_replies_only_extend(*l, inh, i, rs1, rs2);
            let lr1 = sem(*l, inh, i, rs1);
            let lr2 = sem(*l, inh, i, rs2);
            match lr1.fin {
                Option::None => {
                    match lr2.fin {
                        Option::None => {},
                        Option::Some((ol2, j2)) => {
                            let f2 = force_sem(ol2, j2, rs2);
                            match f2.fin {
                                Option::None => {
                                    lemma_prefix_extend(lr2.acts, f2.acts);
                                    lemma_prefix_trans(lr1.acts, lr2.acts, lr2.acts + f2.acts);
                                },
                                Option::Some((bl2, k2)) => {
                                    lemma_prefix_extend(lr2.acts, f2.acts);
                                    lemma_prefix_trans(lr1.acts, lr2.acts, lr2.acts + f2.acts);
                                    if !bl2 {
                                        let rr2 = sem(*r, ctx, k2, rs2);
                                        lemma_prefix_extend(lr2.acts + f2.acts, rr2.acts);
                                        lemma_prefix_trans(
                                            lr1.acts,
                                            lr2.acts + f2.acts,
                                            lr2.acts + f2.acts + rr2.acts,
                                        );
                                    } else {
                                        let pre2 = emit_ignored(meta_closes(ctx), k2, n2);
                                        lemma_prefix_extend(lr2.acts + f2.acts, pre2.acts);
                                        lemma_prefix_trans(
                                            lr1.acts,
                                            lr2.acts + f2.acts,
                                            lr2.acts + f2.acts + pre2.acts,
                                        );
                                    }
                                },
                            }
                        },
                    }
                },
                Option::Some((ol, j)) => {
                    sem_bounds(*l, inh, i, rs1);
                    lemma_force_stable(ol, j, rs1, rs2);
                    let f1 = force_sem(ol, j, rs1);
                    match f1.fin {
                        Option::None => {
                            let f2 = force_sem(ol, j, rs2);
                            match f2.fin {
                                Option::None => {
                                    lemma_prefix_refl(lr1.acts + f1.acts);
                                },
                                Option::Some((bl2, k2)) => {
                                    lemma_prefix_refl(lr1.acts + f1.acts);
                                    if !bl2 {
                                        let rr2 = sem(*r, ctx, k2, rs2);
                                        lemma_prefix_extend(lr1.acts + f1.acts, rr2.acts);
                                        lemma_prefix_trans(
                                            lr1.acts + f1.acts,
                                            lr1.acts + f1.acts,
                                            lr1.acts + f1.acts + rr2.acts,
                                        );
                                    } else {
                                        let pre2 = emit_ignored(meta_closes(ctx), k2, n2);
                                        lemma_prefix_extend(lr1.acts + f1.acts, pre2.acts);
                                        lemma_prefix_trans(
                                            lr1.acts + f1.acts,
                                            lr1.acts + f1.acts,
                                            lr1.acts + f1.acts + pre2.acts,
                                        );
                                    }
                                },
                            }
                        },
                        Option::Some((bl, k)) => {
                            if !bl {
                                law_replies_only_extend(*r, ctx, k, rs1, rs2);
                                let rr1 = sem(*r, ctx, k, rs1);
                                let rr2 = sem(*r, ctx, k, rs2);
                                match rr1.fin {
                                    Option::None => {
                                        lemma_prefix_concat_left(
                                            lr1.acts + f1.acts,
                                            rr1.acts,
                                            rr2.acts,
                                        );
                                    },
                                    Option::Some(_) => {},
                                }
                            } else {
                                lemma_emit_stable(meta_closes(ctx), k, n1, n2);
                                let pre1 = emit_ignored(meta_closes(ctx), k, n1);
                                let pre2 = emit_ignored(meta_closes(ctx), k, n2);
                                match pre1.fin {
                                    Option::None => {
                                        lemma_prefix_concat_left(
                                            lr1.acts + f1.acts,
                                            pre1.acts,
                                            pre2.acts,
                                        );
                                    },
                                    Option::Some(_) => {},
                                }
                            }
                        },
                    }
                },
            }
        },
        Cmd::Pipeline(l, r) => {
            lemma_pipeline_stable(l, r, ctx, i, rs1, rs2);
        },
        Cmd::Simple(s) => {
            lemma_simple_stable(simple_s(s), ctx, i, rs1, rs2);
        },
    }
}

/// Stability of a pipeline's run under recording more replies.
#[verifier::rlimit(100)]
#[verifier::spinoff_prover]
proof fn lemma_pipeline_stable(
    l: Box<Cmd>,
    r: Box<Cmd>,
    ctx: CmdMeta,
    i: int,
    rs1: Seq<bool>,
    rs2: Seq<bool>,
)
    requires
        0 <= i <= rs1.len(),
        rs1.is_prefix_of(rs2),
    ensures
        ({
            let m1 = sem(Cmd::Pipeline(l, r), ctx, i, rs1);
            let m2 = sem(Cmd::Pipeline(l, r), ctx, i, rs2);
            &&& (m1.fin is Some ==> m2 == m1)
            &&& (m1.fin is None ==> m1.acts.is_prefix_of(m2.acts))
        }),
    decreases Cmd::Pipeline(l, r), 0int,
{
    let n1 = rs1.len() as int;
    let n2 = rs2.len() as int;
    let p = i as usize;
    let open_act = seq![ActionS::OpenPipe(p)];
    let cl0 = match ctx.stdin {
        Option::Some(old_r) => seq![ActionS::Close(old_r, false)],
        Option::None => seq![],
    };
    if i == n1 {
        if i < n2 {
            let pre2 = emit_ignored(cl0, i + 1, n2);
            lemma_prefix_extend(open_act, pre2.acts);
            match pre2.fin {
                Option::None => {},
                Option::Some(j2) => {
                    let ctx_l = CmdMeta { stdin: Option::None, stdout: Option::Some(p) };
                    let lr2 = sem(*l, ctx_l, j2, rs2);
                    lemma_prefix_extend(open_act + pre2.acts, lr2.acts);
                    lemma_prefix_trans(
                        open_act,
                        open_act + pre2.acts,
                        open_act + pre2.acts + lr2.acts,
                    );
                    match lr2.fin {
                        Option::None => {},
                        Option::Some((ol2, k2)) => {
                            let ctx_r = CmdMeta { stdin: Option::Some(p), stdout: ctx.stdout };
                            let rr2 = sem(*r, ctx_r, k2, rs2);
                            lemma_prefix_extend(open_act + pre2.acts + lr2.acts, rr2.acts);
                            lemma_prefix_trans(
                                open_act,
                                open_act + pre2.acts + lr2.acts,
                                open_act + pre2.acts + lr2.acts + rr2.acts,
                            );
                            match rr2.fin {
                                Option::None => {},
                                Option::Some((_orr2, _m2)) => {
                                    match ol2 {
                                        Outcome::Ready(_) => {},
                                        Outcome::Started(t2, _) => {
                                            lemma_prefix_extend(
                                                open_act + pre2.acts + lr2.acts + rr2.acts,
                                                seq![ActionS::Await(t2)],
                                            );
                                            lemma_prefix_trans(
                                                open_act,
                                                open_act + pre2.acts + lr2.acts + rr2.acts,
                                                open_act + pre2.acts + lr2.acts + rr2.acts
                                                    + seq![ActionS::Await(t2)],
                                            );
                                        },
                                    }
                                },
                            }
                        },
                    }
                },
            }
        } else {
            lemma_prefix_refl(open_act);
        }
    } else {
        lemma_emit_stable(cl0, i + 1, n1, n2);
        let pre1 = emit_ignored(cl0, i + 1, n1);
        let pre2 = emit_ignored(cl0, i + 1, n2);
        match pre1.fin {
            Option::None => {
                match pre2.fin {
                    Option::None => {
                        lemma_prefix_concat_left(open_act, pre1.acts, pre2.acts);
                    },
                    Option::Some(j2) => {
                        lemma_prefix_concat_left(open_act, pre1.acts, pre2.acts);
                        let ctx_l = CmdMeta { stdin: Option::None, stdout: Option::Some(p) };
                        let lr2 = sem(*l, ctx_l, j2, rs2);
                        lemma_prefix_extend(open_act + pre2.acts, lr2.acts);
                        lemma_prefix_trans(
                            open_act + pre1.acts,
                            open_act + pre2.acts,
                            open_act + pre2.acts + lr2.acts,
                        );
                        match lr2.fin {
                            Option::None => {},
                            Option::Some((ol2, k2)) => {
                                let ctx_r = CmdMeta { stdin: Option::Some(p), stdout: ctx.stdout };
                                let rr2 = sem(*r, ctx_r, k2, rs2);
                                lemma_prefix_extend(open_act + pre2.acts + lr2.acts, rr2.acts);
                                lemma_prefix_trans(
                                    open_act + pre1.acts,
                                    open_act + pre2.acts + lr2.acts,
                                    open_act + pre2.acts + lr2.acts + rr2.acts,
                                );
                                match rr2.fin {
                                    Option::None => {},
                                    Option::Some((_orr2, _m2)) => {
                                        match ol2 {
                                            Outcome::Ready(_) => {},
                                            Outcome::Started(t2, _) => {
                                                lemma_prefix_extend(
                                                    open_act + pre2.acts + lr2.acts + rr2.acts,
                                                    seq![ActionS::Await(t2)],
                                                );
                                                lemma_prefix_trans(
                                                    open_act + pre1.acts,
                                                    open_act + pre2.acts + lr2.acts + rr2.acts,
                                                    open_act + pre2.acts + lr2.acts + rr2.acts
                                                        + seq![ActionS::Await(t2)],
                                                );
                                            },
                                        }
                                    },
                                }
                            },
                        }
                    },
                }
            },
            Option::Some(j) => {
                let ctx_l = CmdMeta { stdin: Option::None, stdout: Option::Some(p) };
                law_replies_only_extend(*l, ctx_l, j, rs1, rs2);
                let lr1 = sem(*l, ctx_l, j, rs1);
                let lr2 = sem(*l, ctx_l, j, rs2);
                match lr1.fin {
                    Option::None => {
                        lemma_prefix_concat_left(open_act + pre1.acts, lr1.acts, lr2.acts);
                        match lr2.fin {
                            Option::None => {},
                            Option::Some((ol2, k2)) => {
                                let ctx_r = CmdMeta { stdin: Option::Some(p), stdout: ctx.stdout };
                                let rr2 = sem(*r, ctx_r, k2, rs2);
                                lemma_prefix_extend(open_act + pre1.acts + lr2.acts, rr2.acts);
                                lemma_prefix_trans(
                                    open_act + pre1.acts + lr1.acts,
                                    open_act + pre1.acts + lr2.acts,
                                    open_act + pre1.acts + lr2.acts + rr2.acts,
                                );
                                match rr2.fin {
                                    Option::None => {},
                                    Option::Some((_orr2, _m2)) => {
                                        match ol2 {
                                            Outcome::Ready(_) => {},
                                            Outcome::Started(t2, _) => {
                                                lemma_prefix_extend(
                                                    open_act + pre1.acts + lr2.acts + rr2.acts,
                                                    seq![ActionS::Await(t2)],
                                                );
                                                lemma_prefix_trans(
                                                    open_act + pre1.acts + lr1.acts,
                                                    open_act + pre1.acts + lr2.acts + rr2.acts,
                                                    open_act + pre1.acts + lr2.acts + rr2.acts
                                                        + seq![ActionS::Await(t2)],
                                                );
                                            },
                                        }
                                    },
                                }
                            },
                        }
                    },
                    Option::Some((ol, k)) => {
                        sem_bounds(*l, ctx_l, j, rs1);
                        let ctx_r = CmdMeta { stdin: Option::Some(p), stdout: ctx.stdout };
                        law_replies_only_extend(*r, ctx_r, k, rs1, rs2);
                        let rr1 = sem(*r, ctx_r, k, rs1);
                        let rr2 = sem(*r, ctx_r, k, rs2);
                        match rr1.fin {
                            Option::None => {
                                lemma_prefix_concat_left(
                                    open_act + pre1.acts + lr1.acts,
                                    rr1.acts,
                                    rr2.acts,
                                );
                            },
                            Option::Some((orr, m)) => {
                                sem_bounds(*r, ctx_r, k, rs1);
                                match ol {
                                    Outcome::Ready(_) => {},
                                    Outcome::Started(t, _) => {
                                        if m == n1 {
                                            lemma_prefix_refl(
                                                open_act + pre1.acts + lr1.acts + rr1.acts
                                                    + seq![ActionS::Await(t)],
                                            );
                                        }
                                    },
                                }
                            },
                        }
                    },
                }
            },
        }
    }
}


/// Stability of the final forcing step under recording more replies.
proof fn lemma_run_tail_stable(prefix: Seq<ActionS>, m1: SemR, m2: SemR, rs1: Seq<bool>, rs2: Seq<bool>)
    requires
        rs1.is_prefix_of(rs2),
        m1.fin is Some ==> m2 == m1,
        m1.fin is None ==> m1.acts.is_prefix_of(m2.acts),
        m1.fin matches Option::Some((_o, j)) ==> 0 <= j <= rs1.len(),
    ensures
        ({
            let r1 = run_tail(prefix, m1, rs1);
            let r2 = run_tail(prefix, m2, rs2);
            &&& (r1.fin is Some ==> r2 == r1)
            &&& (r1.fin is None ==> r1.acts.is_prefix_of(r2.acts))
        }),
{
    match m1.fin {
        Option::None => {
            lemma_prefix_concat_left(prefix, m1.acts, m2.acts);
            match m2.fin {
                Option::None => {},
                Option::Some((o2, j2)) => {
                    let f2 = force_sem(o2, j2, rs2);
                    lemma_prefix_extend(prefix + m2.acts, f2.acts);
                    lemma_prefix_trans(
                        prefix + m1.acts,
                        prefix + m2.acts,
                        prefix + m2.acts + f2.acts,
                    );
                },
            }
        },
        Option::Some((o, j)) => {
            lemma_force_stable(o, j, rs1, rs2);
            let f1 = force_sem(o, j, rs1);
            match f1.fin {
                Option::None => {
                    lemma_prefix_refl(prefix + m1.acts + f1.acts);
                },
                Option::Some(_) => {},
            }
        },
    }
}

/// The guarantee the driver lives by, at the whole-run level: a reply never
/// revises history.  Once a run has reported its final flag, further
/// replies change nothing; while it is still asking for actions, every
/// action already handed out keeps its place and meaning.
pub proof fn law_run_history_is_stable(tree: Cmd, capture: bool, rs1: Seq<bool>, rs2: Seq<bool>)
    requires
        rs1.is_prefix_of(rs2),
    ensures
        ({
            let r1 = runs(tree, capture, rs1);
            let r2 = runs(tree, capture, rs2);
            &&& (r1.fin is Some ==> r2 == r1)
            &&& (r1.fin is None ==> r1.acts.is_prefix_of(r2.acts))
        }),
{
    if capture {
        let ctx0 = CmdMeta { stdin: Option::None, stdout: Option::Some(0) };
        let open_act = seq![ActionS::OpenPipe(0)];
        if rs1.len() == 0 {
            if rs2.len() == 0 {
                lemma_prefix_refl(open_act);
            } else {
                let m2 = sem(tree, ctx0, 1, rs2);
                lemma_prefix_extend(open_act, m2.acts);
                match m2.fin {
                    Option::None => {},
                    Option::Some((o2, j2)) => {
                        let f2 = force_sem(o2, j2, rs2);
                        lemma_prefix_extend(open_act + m2.acts, f2.acts);
                        lemma_prefix_trans(
                            open_act,
                            open_act + m2.acts,
                            open_act + m2.acts + f2.acts,
                        );
                    },
                }
            }
        } else {
            law_replies_only_extend(tree, ctx0, 1, rs1, rs2);
            sem_bounds(tree, ctx0, 1, rs1);
            lemma_run_tail_stable(
                open_act,
                sem(tree, ctx0, 1, rs1),
                sem(tree, ctx0, 1, rs2),
                rs1,
                rs2,
            );
        }
    } else {
        let ctx0 = CmdMeta { stdin: Option::None, stdout: Option::None };
        law_replies_only_extend(tree, ctx0, 0, rs1, rs2);
        sem_bounds(tree, ctx0, 0, rs1);
        lemma_run_tail_stable(
            Seq::<ActionS>::empty(),
            sem(tree, ctx0, 0, rs1),
            sem(tree, ctx0, 0, rs2),
            rs1,
            rs2,
        );
    }
}

} // verus!

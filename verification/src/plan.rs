//! What a run does: the actions that a script plans while the run stays
//! wanted, and what a run does once it is no longer wanted.
use vstd::prelude::*;
use crate::engine::{KeyCode, KeyMode};
use crate::machine::{
    char_delay, lemma_next_wf, pause_ms, text_of, transition, wf, Action, EngineModel, OpModel,
    Stage,
};

verus! {

/// Typing a text: each character, each followed by the pause `d` where it
/// is not zero.
pub open spec fn typed(t: Seq<char>, d: u64) -> Seq<Action>
    decreases t.len(),
{
    if t.len() == 0 {
        seq![]
    } else {
        seq![Action::Write(t[0])] + (if d > 0 {
            seq![Action::Sleep(d)]
        } else {
            seq![]
        }) + typed(t.drop_first(), d)
    }
}

/// Waiting `ms` milliseconds in sleeps of at most 50.
pub open spec fn chunks(ms: nat) -> Seq<Action>
    decreases ms,
{
    if ms == 0 {
        seq![]
    } else {
        let s: nat = if ms < 50 {
            ms
        } else {
            50
        };
        seq![Action::Sleep(s as u64)] + chunks((ms - s) as nat)
    }
}

pub open spec fn enter(press_enter: bool) -> Seq<Action> {
    if press_enter {
        seq![Action::Key(KeyCode::Return, KeyMode::Click)]
    } else {
        seq![]
    }
}

/// What follows the text of an op: for a line, Enter (where wanted) and the
/// delay after the line.
pub open spec fn text_tail(op: OpModel, line_delay: u64, press_enter: bool) -> Seq<Action> {
    if op is Line {
        enter(press_enter) + seq![Action::Sleep(line_delay)]
    } else {
        seq![]
    }
}

/// The actions of one command, after its progress report.
pub open spec fn op_actions(
    op: OpModel,
    line_delay: u64,
    write_delay: u64,
    press_enter: bool,
) -> Seq<Action> {
    match op {
        OpModel::Line(t) => if t.len() == 0 {
            seq![Action::Sleep(line_delay)]
        } else {
            enter(press_enter) + typed(t, write_delay) + text_tail(op, line_delay, press_enter)
        },
        OpModel::Key(k, mode) => match k {
            Some(key) => seq![Action::Key(key, mode)],
            None => seq![],
        },
        OpModel::Type(t, ms) => typed(t, ms),
        OpModel::Pause(ms) => chunks(ms as nat),
        _ => seq![],
    }
}

pub open spec fn line_delay_after(op: OpModel, line_delay: u64) -> u64 {
    match op {
        OpModel::SetDelay(ms) => ms,
        _ => line_delay,
    }
}

pub open spec fn write_delay_after(op: OpModel, write_delay: u64) -> u64 {
    match op {
        OpModel::SetWriteDelay(ms) => ms,
        _ => write_delay,
    }
}

/// The actions of the commands from `i` to the end of a pass: for each, its
/// number and then its actions, with the delays that the commands before
/// it have set.
pub open spec fn pass_actions(
    ops: Seq<OpModel>,
    i: int,
    line_delay: u64,
    write_delay: u64,
    press_enter: bool,
) -> Seq<Action>
    decreases ops.len() - i,
{
    if i < 0 || i >= ops.len() {
        seq![]
    } else {
        seq![Action::Progress((i + 1) as usize, ops.len() as usize)] + op_actions(
            ops[i],
            line_delay,
            write_delay,
            press_enter,
        ) + pass_actions(
            ops,
            i + 1,
            line_delay_after(ops[i], line_delay),
            write_delay_after(ops[i], write_delay),
            press_enter,
        )
    }
}

/// How a pass ends: a run that does not repeat says that it is over.
pub open spec fn pass_end(m: EngineModel) -> Seq<Action> {
    if m.repeat {
        seq![]
    } else {
        seq![Action::Finish]
    }
}

/// The actions that a run still has to do in its current pass, while it
/// stays wanted.
pub open spec fn planned(m: EngineModel) -> Seq<Action> {
    let ops = m.ops;
    let i = m.index as int;
    let ld = m.line_delay;
    let wd = m.write_delay;
    let pe = m.press_enter;
    match m.stage {
        Stage::Starting { waited } => chunks((m.start_delay - waited) as nat) + pass_actions(
            ops,
            0,
            ld,
            wd,
            pe,
        ) + pass_end(m),
        Stage::Check => pass_actions(ops, i, ld, wd, pe) + pass_end(m),
        Stage::Dispatch => op_actions(ops[i], ld, wd, pe) + pass_actions(
            ops,
            i + 1,
            line_delay_after(ops[i], ld),
            write_delay_after(ops[i], wd),
            pe,
        ) + pass_end(m),
        Stage::Typing { next } => typed(text_of(ops[i]).skip(next as int), char_delay(ops[i], wd))
            + text_tail(ops[i], ld, pe) + pass_actions(ops, i + 1, ld, wd, pe) + pass_end(m),
        Stage::TypeSleep { next } => seq![Action::Sleep(char_delay(ops[i], wd))] + typed(
            text_of(ops[i]).skip(next as int),
            char_delay(ops[i], wd),
        ) + text_tail(ops[i], ld, pe) + pass_actions(ops, i + 1, ld, wd, pe) + pass_end(m),
        Stage::LineSleep => seq![Action::Sleep(ld)] + pass_actions(ops, i + 1, ld, wd, pe)
            + pass_end(m),
        Stage::Pausing { waited } => chunks((pause_ms(ops[i]) - waited) as nat) + pass_actions(
            ops,
            i + 1,
            ld,
            wd,
            pe,
        ) + pass_end(m),
        Stage::Done => seq![],
    }
}

/// Whether a run stands at the end of a pass.
pub open spec fn at_pass_end(m: EngineModel) -> bool {
    m.stage is Check && m.index >= m.ops.len()
}

/// A bound on the steps that do nothing outside.
pub open spec fn quiet_measure(m: EngineModel) -> nat {
    let left = (m.ops.len() - m.index) as nat;
    match m.stage {
        Stage::Starting { .. } => 3 * m.ops.len() + 3,
        Stage::Check => 3 * left + 2,
        Stage::Dispatch => 3 * left + 1,
        Stage::Done => 0,
        _ => 3 * left,
    }
}

/// The same character; calling this tells the solver that a character read
/// from a sequence is a well-formed `char`.
proof fn typed_char(c: char) -> (r: char)
    ensures
        r == c,
{
    c
}

proof fn lemma_typed_unfold(u: Seq<char>, d: u64)
    requires
        u.len() > 0,
    ensures
        typed(u, d) == seq![Action::Write(u[0])] + (if d > 0 {
            seq![Action::Sleep(d)]
        } else {
            seq![]
        }) + typed(u.drop_first(), d),
{
    let _ = typed_char(u[0]);
}

proof fn lemma_typed_step(t: Seq<char>, next: int, d: u64)
    requires
        0 <= next < t.len(),
    ensures
        typed(t.skip(next), d) == seq![Action::Write(t[next])] + (if d > 0 {
            seq![Action::Sleep(d)]
        } else {
            seq![]
        }) + typed(t.skip(next + 1), d),
{
    let u = t.skip(next);
    let _ = typed_char(t[next]);
    lemma_typed_unfold(u, d);
    assert(u[0] == t[next]);
    assert(u.drop_first() =~= t.skip(next + 1));
}

proof fn lemma_chunks_step(left: nat)
    requires
        left > 0,
    ensures
        chunks(left) == seq![Action::Sleep((if left < 50 { left } else { 50nat }) as u64)] + chunks(
            (left - (if left < 50 { left } else { 50nat })) as nat,
        ),
{
}

proof fn lemma_plan_starting(m: EngineModel)
    requires
        wf(m),
        m.stage is Starting,
    ensures
        ({
            let (m2, a) = transition(m, true);
            if a == Action::Nothing {
                planned(m2) == planned(m) && quiet_measure(m2) < quiet_measure(m)
            } else {
                planned(m) == seq![a] + planned(m2)
            }
        }),
{
    let (m2, a) = transition(m, true);
    let waited = m.stage->Starting_waited;
    let rest = pass_actions(m.ops, 0, m.line_delay, m.write_delay, m.press_enter) + pass_end(m);
    assert(planned(m) =~= chunks((m.start_delay - waited) as nat) + rest);
    if waited < m.start_delay {
        let left = (m.start_delay - waited) as nat;
        lemma_chunks_step(left);
        assert(planned(m2) =~= chunks((m2.start_delay - m2.stage->Starting_waited) as nat) + rest);
        assert(planned(m) =~= seq![a] + planned(m2));
    } else {
        assert(chunks(0) =~= Seq::<Action>::empty());
        assert(planned(m) =~= planned(m2));
    }
}

proof fn lemma_plan_check(m: EngineModel)
    requires
        wf(m),
        m.stage is Check,
        !(m.repeat && at_pass_end(m)),
    ensures
        ({
            let (m2, a) = transition(m, true);
            if a == Action::Nothing {
                planned(m2) == planned(m) && quiet_measure(m2) < quiet_measure(m)
            } else {
                planned(m) == seq![a] + planned(m2)
            }
        }),
{
    let (m2, a) = transition(m, true);
    let i = m.index as int;
    if i >= m.ops.len() {
        assert(pass_actions(m.ops, i, m.line_delay, m.write_delay, m.press_enter)
            =~= Seq::<Action>::empty());
        assert(planned(m) =~= seq![a] + planned(m2));
    } else {
        let p = seq![a];
        let x = op_actions(m.ops[i], m.line_delay, m.write_delay, m.press_enter);
        let y = pass_actions(
            m.ops,
            i + 1,
            line_delay_after(m.ops[i], m.line_delay),
            write_delay_after(m.ops[i], m.write_delay),
            m.press_enter,
        );
        let z = pass_end(m);
        assert(pass_actions(m.ops, i, m.line_delay, m.write_delay, m.press_enter) == p + x + y);
        assert(planned(m2) == x + y + z);
        assert(planned(m) =~= seq![a] + planned(m2));
    }
}

proof fn lemma_plan_dispatch(m: EngineModel)
    requires
        wf(m),
        m.stage is Dispatch,
    ensures
        ({
            let (m2, a) = transition(m, true);
            if a == Action::Nothing {
                planned(m2) == planned(m) && quiet_measure(m2) < quiet_measure(m)
            } else {
                planned(m) == seq![a] + planned(m2)
            }
        }),
{
    let (m2, a) = transition(m, true);
    let ops = m.ops;
    let i = m.index as int;
    let ld = m.line_delay;
    let wd = m.write_delay;
    let pe = m.press_enter;
    let z = pass_end(m);
    let y = pass_actions(
        ops,
        i + 1,
        line_delay_after(ops[i], ld),
        write_delay_after(ops[i], wd),
        pe,
    );
    let x = op_actions(ops[i], ld, wd, pe);
    assert(planned(m) == x + y + z);
    match ops[i] {
        OpModel::Line(t) => {
            assert(t.skip(0) =~= t);
            if t.len() == 0 {
                assert(planned(m2) == y + z);
                assert(planned(m) =~= seq![a] + planned(m2));
            } else {
                let w = typed(t, wd);
                let tt = text_tail(ops[i], ld, pe);
                assert(planned(m2) == w + tt + y + z);
                if pe {
                    assert(x == seq![a] + w + tt);
                    assert(planned(m) =~= seq![a] + planned(m2));
                } else {
                    assert(x =~= w + tt);
                    assert(planned(m) =~= planned(m2));
                }
            }
        },
        OpModel::Type(t, ms) => {
            assert(t.skip(0) =~= t);
            assert(planned(m2) == typed(t, ms) + text_tail(ops[i], ld, pe) + y + z);
            assert(text_tail(ops[i], ld, pe) =~= Seq::<Action>::empty());
            assert(planned(m) =~= planned(m2));
        },
        OpModel::Pause(ms) => {
            assert(planned(m2) == chunks(ms as nat) + y + z);
            assert(planned(m) =~= planned(m2));
        },
        OpModel::Key(k, mode) => {
            assert(planned(m2) == y + z);
            if k is Some {
                assert(planned(m) =~= seq![a] + planned(m2));
            } else {
                assert(planned(m) =~= planned(m2));
            }
        },
        _ => {
            assert(planned(m2) == y + z);
            assert(planned(m) =~= planned(m2));
        },
    }
}

proof fn lemma_plan_typing_char(m: EngineModel)
    requires
        wf(m),
        m.stage is Typing,
        m.stage->Typing_next < text_of(m.ops[m.index as int]).len(),
    ensures
        ({
            let (m2, a) = transition(m, true);
            a != Action::Nothing && planned(m) == seq![a] + planned(m2)
        }),
{
    let (m2, a) = transition(m, true);
    let i = m.index as int;
    let op = m.ops[i];
    let t = text_of(op);
    let d = char_delay(op, m.write_delay);
    let rest = text_tail(op, m.line_delay, m.press_enter) + pass_actions(
        m.ops,
        i + 1,
        m.line_delay,
        m.write_delay,
        m.press_enter,
    ) + pass_end(m);
    let next = m.stage->Typing_next as int;
    let w = typed(t.skip(next + 1), d);
    lemma_typed_step(t, next, d);
    assert(a == Action::Write(t[next]));
    assert(planned(m) =~= typed(t.skip(next), d) + rest);
    if d > 0 {
        assert(planned(m2) =~= seq![Action::Sleep(d)] + w + rest);
    } else {
        assert(planned(m2) =~= w + rest);
    }
    assert(planned(m) =~= seq![a] + planned(m2));
}

proof fn lemma_plan_typing_end(m: EngineModel)
    requires
        wf(m),
        m.stage is Typing,
        m.stage->Typing_next >= text_of(m.ops[m.index as int]).len(),
    ensures
        ({
            let (m2, a) = transition(m, true);
            if a == Action::Nothing {
                planned(m2) == planned(m) && quiet_measure(m2) < quiet_measure(m)
            } else {
                planned(m) == seq![a] + planned(m2)
            }
        }),
{
    let (m2, a) = transition(m, true);
    let i = m.index as int;
    let op = m.ops[i];
    let t = text_of(op);
    let d = char_delay(op, m.write_delay);
    let next = m.stage->Typing_next as int;
    let tt = text_tail(op, m.line_delay, m.press_enter);
    let y = pass_actions(m.ops, i + 1, m.line_delay, m.write_delay, m.press_enter);
    let z = pass_end(m);
    assert(t.skip(next) =~= Seq::<char>::empty());
    assert(typed(t.skip(next), d) =~= Seq::<Action>::empty());
    assert(planned(m) =~= tt + y + z);
    if op is Line {
        if m.press_enter {
            assert(planned(m2) == seq![Action::Sleep(m.line_delay)] + y + z);
        } else {
            assert(planned(m2) == y + z);
        }
        assert(planned(m) =~= seq![a] + planned(m2));
    } else {
        assert(tt =~= Seq::<Action>::empty());
        assert(planned(m2) == y + z);
        assert(planned(m) =~= planned(m2));
    }
}

proof fn lemma_plan_sleeps(m: EngineModel)
    requires
        wf(m),
        m.stage is TypeSleep || m.stage is LineSleep,
    ensures
        ({
            let (m2, a) = transition(m, true);
            a != Action::Nothing && planned(m) == seq![a] + planned(m2)
        }),
{
    let (m2, a) = transition(m, true);
    let i = m.index as int;
    let y = pass_actions(m.ops, i + 1, m.line_delay, m.write_delay, m.press_enter);
    let z = pass_end(m);
    if m.stage is LineSleep {
        assert(planned(m2) == y + z);
    }
    assert(planned(m) =~= seq![a] + planned(m2));
}

proof fn lemma_plan_pausing(m: EngineModel)
    requires
        wf(m),
        m.stage is Pausing,
    ensures
        ({
            let (m2, a) = transition(m, true);
            if a == Action::Nothing {
                planned(m2) == planned(m) && quiet_measure(m2) < quiet_measure(m)
            } else {
                planned(m) == seq![a] + planned(m2)
            }
        }),
{
    let (m2, a) = transition(m, true);
    let i = m.index as int;
    let waited = m.stage->Pausing_waited;
    let ms = pause_ms(m.ops[i]);
    let y = pass_actions(m.ops, i + 1, m.line_delay, m.write_delay, m.press_enter) + pass_end(m);
    assert(planned(m) == chunks((ms - waited) as nat) + y);
    if waited < ms {
        lemma_chunks_step((ms - waited) as nat);
        assert(planned(m2) == chunks((ms - m2.stage->Pausing_waited) as nat) + y);
        assert(planned(m) =~= seq![a] + planned(m2));
    } else {
        assert(chunks(0) =~= Seq::<Action>::empty());
        assert(planned(m2) == y);
        assert(planned(m) =~= planned(m2));
    }
}

/// While a run stays wanted, each step does the next planned action, or
/// nothing outside and brings the run closer to its next action.
pub proof fn lemma_step_follows_plan(m: EngineModel)
    requires
        wf(m),
        !(m.stage is Done),
        !(m.repeat && at_pass_end(m)),
    ensures
        ({
            let (m2, a) = transition(m, true);
            if a == Action::Nothing {
                planned(m2) == planned(m) && quiet_measure(m2) < quiet_measure(m)
            } else {
                planned(m) == seq![a] + planned(m2)
            }
        }),
{
    match m.stage {
        Stage::Starting { .. } => lemma_plan_starting(m),
        Stage::Check => lemma_plan_check(m),
        Stage::Dispatch => lemma_plan_dispatch(m),
        Stage::Pausing { .. } => lemma_plan_pausing(m),
        Stage::Typing { next } => {
            if next < text_of(m.ops[m.index as int]).len() {
                lemma_plan_typing_char(m);
            } else {
                lemma_plan_typing_end(m);
            }
        },
        Stage::Done => {},
        _ => lemma_plan_sleeps(m),
    }
}

/// `n` steps of a run that stays wanted: the state reached and the actions
/// done outside.
pub open spec fn run_wanted(m: EngineModel, n: nat) -> (EngineModel, Seq<Action>)
    decreases n,
{
    if n == 0 {
        (m, seq![])
    } else {
        let (m2, a) = transition(m, true);
        let (m3, acts) = run_wanted(m2, (n - 1) as nat);
        (m3, if a == Action::Nothing {
            acts
        } else {
            seq![a] + acts
        })
    }
}

/// The line and write delays in force after the commands from `i` on.
pub open spec fn pass_delays(ops: Seq<OpModel>, i: int, line_delay: u64, write_delay: u64) -> (
    u64,
    u64,
)
    decreases ops.len() - i,
{
    if i < 0 || i >= ops.len() {
        (line_delay, write_delay)
    } else {
        pass_delays(
            ops,
            i + 1,
            line_delay_after(ops[i], line_delay),
            write_delay_after(ops[i], write_delay),
        )
    }
}

/// The line and write delays in force at the end of the current pass.
pub open spec fn delays_at_pass_end(m: EngineModel) -> (u64, u64) {
    let i = m.index as int;
    match m.stage {
        Stage::Starting { .. } => pass_delays(m.ops, 0, m.line_delay, m.write_delay),
        Stage::Check => pass_delays(m.ops, i, m.line_delay, m.write_delay),
        Stage::Dispatch => pass_delays(
            m.ops,
            i + 1,
            line_delay_after(m.ops[i], m.line_delay),
            write_delay_after(m.ops[i], m.write_delay),
        ),
        Stage::Done => (m.line_delay, m.write_delay),
        _ => pass_delays(m.ops, i + 1, m.line_delay, m.write_delay),
    }
}

/// What a stretch of a wanted run from `m` to `m2` keeps: the commands and
/// settings; where `m2` is the end of a pass, the delays planned for it;
/// and a repeating run that was not over is not over.
pub open spec fn pass_result(m: EngineModel, m2: EngineModel) -> bool {
    &&& m2.ops == m.ops
    &&& m2.repeat == m.repeat
    &&& m2.press_enter == m.press_enter
    &&& m2.start_delay == m.start_delay
    &&& (m2.stage is Done || (m.repeat && at_pass_end(m2) && (m2.line_delay, m2.write_delay)
        == delays_at_pass_end(m)))
    &&& (m.repeat && !(m.stage is Done) ==> !(m2.stage is Done))
}

proof fn lemma_step_frame(m: EngineModel)
    requires
        wf(m),
        !(m.stage is Done),
        !(m.repeat && at_pass_end(m)),
    ensures
        ({
            let m2 = transition(m, true).0;
            &&& m2.ops == m.ops
            &&& m2.repeat == m.repeat
            &&& m2.press_enter == m.press_enter
            &&& m2.start_delay == m.start_delay
            &&& (!(m2.stage is Done) ==> delays_at_pass_end(m2) == delays_at_pass_end(m))
            &&& (m.repeat ==> !(m2.stage is Done))
        }),
{
}

/// A wanted run that repeats is never over.
pub proof fn lemma_repeat_never_done(m: EngineModel)
    requires
        wf(m),
        m.repeat,
        !(m.stage is Done),
    ensures
        !(transition(m, true).0.stage is Done),
{
}

/// A run that stays wanted does exactly its planned actions, and then is
/// over (or, where it repeats, at the end of its pass with the delays last
/// set).
pub proof fn lemma_run_follows_plan(m: EngineModel)
    requires
        wf(m),
    ensures
        exists|n: nat|
            {
                let (m2, acts) = #[trigger] run_wanted(m, n);
                &&& acts == planned(m)
                &&& pass_result(m, m2)
            },
    decreases planned(m).len(), quiet_measure(m),
{
    if m.stage is Done || (m.repeat && at_pass_end(m)) {
        if !(m.stage is Done) {
            assert(pass_actions(m.ops, m.index as int, m.line_delay, m.write_delay, m.press_enter)
                =~= Seq::<Action>::empty());
            assert(planned(m) =~= Seq::<Action>::empty());
        }
        assert(run_wanted(m, 0).1 =~= planned(m));
        assert(pass_result(m, run_wanted(m, 0).0));
    } else {
        let (m2, a) = transition(m, true);
        lemma_next_wf(m, true);
        lemma_step_follows_plan(m);
        lemma_step_frame(m);
        if a != Action::Nothing {
            assert(planned(m2).len() < planned(m).len());
        }
        lemma_run_follows_plan(m2);
        let n2 = choose|n: nat|
            {
                let (m3, acts) = #[trigger] run_wanted(m2, n);
                &&& acts == planned(m2)
                &&& pass_result(m2, m3)
            };
        assert(run_wanted(m, n2 + 1) == (run_wanted(m2, n2).0, if a == Action::Nothing {
            run_wanted(m2, n2).1
        } else {
            seq![a] + run_wanted(m2, n2).1
        }));
        assert(pass_result(m, run_wanted(m, n2 + 1).0));
    }
}

proof fn lemma_run_wanted_last(m: EngineModel, n: nat)
    ensures
        ({
            let (m2, acts) = run_wanted(m, n);
            let (m3, a) = transition(m2, true);
            run_wanted(m, n + 1) == (m3, if a == Action::Nothing {
                acts
            } else {
                acts + seq![a]
            })
        }),
    decreases n,
{
    let (m1, a1) = transition(m, true);
    if n == 0 {
        let (m3, a) = transition(m, true);
        assert(run_wanted(m1, 0) == (m1, Seq::<Action>::empty()));
        assert(seq![a] + Seq::<Action>::empty() =~= Seq::<Action>::empty() + seq![a]);
    } else {
        lemma_run_wanted_last(m1, (n - 1) as nat);
        let acts1 = run_wanted(m1, (n - 1) as nat).1;
        let (m3, a) = transition(run_wanted(m1, (n - 1) as nat).0, true);
        assert(run_wanted(m, n) == (run_wanted(m1, (n - 1) as nat).0, if a1 == Action::Nothing {
            acts1
        } else {
            seq![a1] + acts1
        }));
        assert(run_wanted(m, n + 1) == (run_wanted(m1, n).0, if a1 == Action::Nothing {
            run_wanted(m1, n).1
        } else {
            seq![a1] + run_wanted(m1, n).1
        }));
        assert(seq![a1] + (acts1 + seq![a]) =~= (seq![a1] + acts1) + seq![a]);
    }
}

/// A repeating run that stays wanted repeats its pass without end: from the
/// first command, it does the pass's planned actions and comes back to the
/// first command, with the delays last set in the pass.
pub proof fn lemma_repeat_pass(m: EngineModel)
    requires
        wf(m),
        m.repeat,
        m.stage is Check,
        m.index == 0,
    ensures
        exists|n: nat|
            #[trigger] run_wanted(m, n) == (
                EngineModel {
                    line_delay: pass_delays(m.ops, 0, m.line_delay, m.write_delay).0,
                    write_delay: pass_delays(m.ops, 0, m.line_delay, m.write_delay).1,
                    ..m
                },
                pass_actions(m.ops, 0, m.line_delay, m.write_delay, m.press_enter),
            ),
{
    lemma_run_follows_plan(m);
    let n1 = choose|n: nat|
        {
            let (m2, acts) = #[trigger] run_wanted(m, n);
            &&& acts == planned(m)
            &&& pass_result(m, m2)
        };
    let (m2, acts) = run_wanted(m, n1);
    assert(planned(m) =~= pass_actions(m.ops, 0, m.line_delay, m.write_delay, m.press_enter));
    lemma_run_wanted_last(m, n1);
    let target = EngineModel {
        line_delay: pass_delays(m.ops, 0, m.line_delay, m.write_delay).0,
        write_delay: pass_delays(m.ops, 0, m.line_delay, m.write_delay).1,
        ..m
    };
    assert(transition(m2, true).0 == target);
    assert(run_wanted(m, n1 + 1) == (target, pass_actions(
        m.ops,
        0,
        m.line_delay,
        m.write_delay,
        m.press_enter,
    )));
}

/// A run that does not repeat, from its start: it waits the start delay in
/// chunks, reports and carries out each command in turn with the delays in
/// force at that point, and then says that it is over.
pub proof fn lemma_script_plan(m: EngineModel)
    requires
        wf(m),
        m.stage == (Stage::Starting { waited: 0 }),
        !m.repeat,
    ensures
        planned(m) == chunks(m.start_delay as nat) + pass_actions(
            m.ops,
            0,
            m.line_delay,
            m.write_delay,
            m.press_enter,
        ) + seq![Action::Finish],
{
}

/// `n` steps of a run that is no longer wanted: the state reached and every
/// action asked for.
pub open spec fn run_unwanted(m: EngineModel, n: nat) -> (EngineModel, Seq<Action>)
    decreases n,
{
    if n == 0 {
        (m, seq![])
    } else {
        let (m2, a) = transition(m, false);
        let (m3, acts) = run_unwanted(m2, (n - 1) as nat);
        (m3, seq![a] + acts)
    }
}

/// Whether an action types nothing and reports no progress.
pub open spec fn winds_down(a: Action) -> bool {
    !(a is Write) && !(a is Progress)
}

/// Whether an action sends a key or types a character.
pub open spec fn is_event(a: Action) -> bool {
    a is Key || a is Write
}

/// How many of the actions send a key or type a character.
pub open spec fn event_count(acts: Seq<Action>) -> nat
    decreases acts.len(),
{
    if acts.len() == 0 {
        0
    } else {
        (if is_event(acts[0]) {
            1nat
        } else {
            0nat
        }) + event_count(acts.drop_first())
    }
}

/// How many more steps a run that is no longer wanted takes at most.
pub open spec fn stop_bound(m: EngineModel) -> nat {
    match m.stage {
        Stage::Starting { .. } => 2,
        Stage::Check => 1,
        Stage::Dispatch => 4,
        Stage::Typing { .. } => 3,
        Stage::TypeSleep { .. } => 4,
        Stage::LineSleep => 2,
        Stage::Pausing { .. } => 2,
        Stage::Done => 0,
    }
}

/// How many more keys a run that is no longer wanted sends at most: the
/// key of the command under way, or the Enter before and after its line.
pub open spec fn key_budget(m: EngineModel) -> nat {
    match m.stage {
        Stage::Dispatch => 2,
        Stage::Typing { .. } => 1,
        Stage::TypeSleep { .. } => 1,
        _ => 0,
    }
}

proof fn lemma_stop_step(m: EngineModel)
    requires
        wf(m),
        !(m.stage is Done),
    ensures
        winds_down(transition(m, false).1),
        stop_bound(transition(m, false).0) < stop_bound(m),
        key_budget(transition(m, false).0) + (if is_event(transition(m, false).1) {
            1nat
        } else {
            0nat
        }) <= key_budget(m),
{
}

proof fn lemma_stop_run(m: EngineModel, n: nat)
    requires
        wf(m),
        stop_bound(m) <= n,
    ensures
        run_unwanted(m, n).0.stage is Done,
        forall|k: int| 0 <= k < run_unwanted(m, n).1.len() ==> winds_down(
            #[trigger] run_unwanted(m, n).1[k],
        ),
        event_count(run_unwanted(m, n).1) <= key_budget(m),
    decreases n,
{
    if n > 0 {
        let (m2, a) = transition(m, false);
        lemma_next_wf(m, false);
        if m.stage is Done {
            assert(m2 == m);
        } else {
            lemma_stop_step(m);
        }
        lemma_stop_run(m2, (n - 1) as nat);
        let rest = run_unwanted(m2, (n - 1) as nat).1;
        let all = run_unwanted(m, n).1;
        assert(all == seq![a] + rest);
        assert(all.drop_first() =~= rest);
        assert forall|k: int| 0 <= k < all.len() implies winds_down(#[trigger] all[k]) by {
            if k > 0 {
                assert(all[k] == rest[k - 1]);
            }
        }
    }
}

/// A stop is honoured: once the run is no longer wanted, it is over within
/// four steps; in them it types nothing, reports no progress and sends at
/// most two keys (the Enter before and after the line under way).
pub proof fn lemma_stop_is_honoured(m: EngineModel)
    requires
        wf(m),
    ensures
        run_unwanted(m, 4).0.stage is Done,
        forall|k: int| 0 <= k < run_unwanted(m, 4).1.len() ==> winds_down(
            #[trigger] run_unwanted(m, 4).1[k],
        ),
        event_count(run_unwanted(m, 4).1) <= 2,
{
    lemma_stop_run(m, 4);
}

/// Once the run is no longer wanted, a start delay or a pause ends at once,
/// without another sleep.
pub proof fn lemma_stop_ends_waits(m: EngineModel)
    requires
        wf(m),
        m.stage is Starting || m.stage is Pausing,
    ensures
        transition(m, false).1 == Action::Nothing,
        transition(m, false).0.stage is Check,
{
}

/// The progress reports among the actions, in order.
pub open spec fn reports(acts: Seq<Action>) -> Seq<Action>
    decreases acts.len(),
{
    if acts.len() == 0 {
        seq![]
    } else {
        (if acts[0] is Progress {
            seq![acts[0]]
        } else {
            seq![]
        }) + reports(acts.drop_first())
    }
}

proof fn lemma_reports_add(a: Seq<Action>, b: Seq<Action>)
    ensures
        reports(a + b) == reports(a) + reports(b),
    decreases a.len(),
{
    if a.len() == 0 {
        assert(a + b =~= b);
    } else {
        assert((a + b).drop_first() =~= a.drop_first() + b);
        assert((a + b)[0] == a[0]);
        lemma_reports_add(a.drop_first(), b);
    }
}

proof fn lemma_reports_one(a: Action)
    ensures
        reports(seq![a]) == (if a is Progress {
            seq![a]
        } else {
            seq![]
        }),
{
    assert(seq![a].drop_first() =~= Seq::<Action>::empty());
    assert(reports(Seq::<Action>::empty()) =~= Seq::<Action>::empty());
    assert(seq![a][0] == a);
    assert(reports(seq![a]) =~= (if a is Progress {
        seq![a]
    } else {
        seq![]
    }));
}

proof fn lemma_typed_no_reports(t: Seq<char>, d: u64)
    ensures
        reports(typed(t, d)) == Seq::<Action>::empty(),
    decreases t.len(),
{
    if t.len() > 0 {
        let _ = typed_char(t[0]);
        lemma_typed_unfold(t, d);
        let w = seq![Action::Write(t[0])];
        let sl: Seq<Action> = if d > 0 {
            seq![Action::Sleep(d)]
        } else {
            seq![]
        };
        lemma_typed_no_reports(t.drop_first(), d);
        lemma_reports_add(w + sl, typed(t.drop_first(), d));
        lemma_reports_add(w, sl);
        lemma_reports_one(Action::Write(t[0]));
        if d > 0 {
            lemma_reports_one(Action::Sleep(d));
        }
        assert(reports(typed(t, d)) =~= Seq::<Action>::empty());
    }
}

proof fn lemma_chunks_no_reports(ms: nat)
    ensures
        reports(chunks(ms)) == Seq::<Action>::empty(),
    decreases ms,
{
    if ms > 0 {
        let s: nat = if ms < 50 { ms } else { 50 };
        lemma_chunks_no_reports((ms - s) as nat);
        lemma_reports_add(seq![Action::Sleep(s as u64)], chunks((ms - s) as nat));
        lemma_reports_one(Action::Sleep(s as u64));
        assert(reports(chunks(ms)) =~= Seq::<Action>::empty());
    }
}

proof fn lemma_op_no_reports(op: OpModel, ld: u64, wd: u64, pe: bool)
    ensures
        reports(op_actions(op, ld, wd, pe)) == Seq::<Action>::empty(),
{
    let e = enter(pe);
    if pe {
        lemma_reports_one(Action::Key(KeyCode::Return, KeyMode::Click));
    } else {
        assert(reports(e) =~= Seq::<Action>::empty());
    }
    lemma_reports_one(Action::Sleep(ld));
    let tt = text_tail(op, ld, pe);
    lemma_reports_add(e, seq![Action::Sleep(ld)]);
    if !(op is Line) {
        assert(reports(tt) =~= Seq::<Action>::empty());
    }
    match op {
        OpModel::Line(t) => {
            if t.len() > 0 {
                lemma_typed_no_reports(t, wd);
                lemma_reports_add(e + typed(t, wd), tt);
                lemma_reports_add(e, typed(t, wd));
            }
        },
        OpModel::Key(k, mode) => {
            if let Some(key) = k {
                lemma_reports_one(Action::Key(key, mode));
            } else {
                assert(reports(Seq::<Action>::empty()) =~= Seq::<Action>::empty());
            }
        },
        OpModel::Type(t, ms) => lemma_typed_no_reports(t, ms),
        OpModel::Pause(ms) => lemma_chunks_no_reports(ms as nat),
        _ => {
            assert(reports(Seq::<Action>::empty()) =~= Seq::<Action>::empty());
        },
    }
}

/// The progress reports of a pass from command `i`: commands `i + 1` to `n`
/// of `n`, in order.
pub open spec fn reports_from(n: int, i: int) -> Seq<Action> {
    Seq::new((n - i) as nat, |k: int| Action::Progress((i + k + 1) as usize, n as usize))
}

/// Within a pass, progress is reported once for each command, numbered from
/// the first to the last, in order.
pub proof fn lemma_pass_reports_in_order(
    ops: Seq<OpModel>,
    i: int,
    line_delay: u64,
    write_delay: u64,
    press_enter: bool,
)
    requires
        0 <= i <= ops.len(),
    ensures
        reports(pass_actions(ops, i, line_delay, write_delay, press_enter)) == reports_from(
            ops.len() as int,
            i,
        ),
    decreases ops.len() - i,
{
    let n = ops.len() as int;
    if i == n {
        assert(reports_from(n, i) =~= Seq::<Action>::empty());
    } else {
        let p = Action::Progress((i + 1) as usize, n as usize);
        let x = op_actions(ops[i], line_delay, write_delay, press_enter);
        let ld2 = line_delay_after(ops[i], line_delay);
        let wd2 = write_delay_after(ops[i], write_delay);
        let y = pass_actions(ops, i + 1, ld2, wd2, press_enter);
        lemma_pass_reports_in_order(ops, i + 1, ld2, wd2, press_enter);
        lemma_op_no_reports(ops[i], line_delay, write_delay, press_enter);
        lemma_reports_add(seq![p] + x, y);
        lemma_reports_add(seq![p], x);
        lemma_reports_one(p);
        assert(reports_from(n, i) =~= seq![p] + reports_from(n, i + 1));
    }
}

/// From its start, a run reports progress for each command from the first
/// to the last, in order, once per pass.
pub proof fn lemma_run_reports_in_order(m: EngineModel)
    requires
        wf(m),
        m.stage is Starting,
    ensures
        reports(planned(m)) == reports_from(m.ops.len() as int, 0),
{
    let w = m.stage->Starting_waited;
    let c = chunks((m.start_delay - w) as nat);
    let p = pass_actions(m.ops, 0, m.line_delay, m.write_delay, m.press_enter);
    let e = pass_end(m);
    lemma_chunks_no_reports((m.start_delay - w) as nat);
    lemma_pass_reports_in_order(m.ops, 0, m.line_delay, m.write_delay, m.press_enter);
    lemma_reports_add(c + p, e);
    lemma_reports_add(c, p);
    if m.repeat {
        assert(reports(e) =~= Seq::<Action>::empty());
    } else {
        lemma_reports_one(Action::Finish);
    }
    assert(reports(planned(m)) =~= reports_from(m.ops.len() as int, 0));
}

/// The step under way when the run stops being wanted has looked at the
/// flag already: it does what a wanted run does. After it, and the steps
/// that see the cleared flag, the run is over within four more steps; all of
/// these together send at most two keys or characters (a character of the
/// line or text under way, its Enter, or a command's key), report no
/// further progress, and a start delay or pause sleeps at most one chunk of
/// 50 ms more.
pub proof fn lemma_stop_in_flight(m: EngineModel)
    requires
        wf(m),
    ensures
        ({
            let (m1, a) = transition(m, true);
            let after = run_unwanted(m1, 4);
            &&& after.0.stage is Done
            &&& forall|k: int| 0 <= k < after.1.len() ==> winds_down(#[trigger] after.1[k])
            &&& event_count(seq![a] + after.1) <= 2
            &&& ((m.stage is Starting || m.stage is Pausing) ==> {
                &&& a matches Action::Sleep(ms) ==> ms <= 50
                &&& (m1.stage is Starting || m1.stage is Pausing) ==> transition(m1, false).1
                    == Action::Nothing
            })
        }),
{
    let (m1, a) = transition(m, true);
    lemma_next_wf(m, true);
    assert(key_budget(m1) + (if is_event(a) {
        1nat
    } else {
        0nat
    }) <= 2);
    lemma_stop_run(m1, 4);
    let after = run_unwanted(m1, 4).1;
    let all = seq![a] + after;
    assert(all[0] == a);
    assert(all.drop_first() =~= after);
}

/// Passes of a repeating run: `k` passes over the commands, each with the
/// delays the one before it left.
pub open spec fn passes(
    ops: Seq<OpModel>,
    k: nat,
    line_delay: u64,
    write_delay: u64,
    press_enter: bool,
) -> Seq<Action>
    decreases k,
{
    if k == 0 {
        seq![]
    } else {
        let d = pass_delays(ops, 0, line_delay, write_delay);
        pass_actions(ops, 0, line_delay, write_delay, press_enter) + passes(
            ops,
            (k - 1) as nat,
            d.0,
            d.1,
            press_enter,
        )
    }
}

proof fn lemma_run_wanted_join(m: EngineModel, n1: nat, n2: nat)
    ensures
        run_wanted(m, n1 + n2) == (
            run_wanted(run_wanted(m, n1).0, n2).0,
            run_wanted(m, n1).1 + run_wanted(run_wanted(m, n1).0, n2).1,
        ),
    decreases n1,
{
    if n1 == 0 {
        assert(run_wanted(m, 0).1 + run_wanted(m, n2).1 =~= run_wanted(m, n2).1);
    } else {
        let (m1, a) = transition(m, true);
        lemma_run_wanted_join(m1, (n1 - 1) as nat, n2);
        assert((n1 + n2 - 1) as nat == ((n1 - 1) as nat + n2) as nat);
        let x = run_wanted(m1, (n1 - 1) as nat).1;
        let y = run_wanted(run_wanted(m1, (n1 - 1) as nat).0, n2).1;
        assert(seq![a] + (x + y) =~= (seq![a] + x) + y);
    }
}

/// A repeating run that stays wanted, from the first command, does `k`
/// passes over its commands and comes back to the first command, for every
/// `k`: its pass is repeated without end, each with the delays last set.
pub proof fn lemma_repeat_passes(m: EngineModel, k: nat)
    requires
        wf(m),
        m.repeat,
        m.stage is Check,
        m.index == 0,
    ensures
        exists|n: nat|
            {
                let (m2, acts) = #[trigger] run_wanted(m, n);
                &&& acts == passes(m.ops, k, m.line_delay, m.write_delay, m.press_enter)
                &&& m2 == EngineModel {
                    line_delay: m2.line_delay,
                    write_delay: m2.write_delay,
                    ..m
                }
            },
    decreases k,
{
    if k == 0 {
        assert(run_wanted(m, 0).1 =~= passes(m.ops, 0, m.line_delay, m.write_delay, m.press_enter));
    } else {
        lemma_repeat_pass(m);
        let d = pass_delays(m.ops, 0, m.line_delay, m.write_delay);
        let m1 = EngineModel { line_delay: d.0, write_delay: d.1, ..m };
        let n1 = choose|n: nat|
            #[trigger] run_wanted(m, n) == (m1, pass_actions(
                m.ops,
                0,
                m.line_delay,
                m.write_delay,
                m.press_enter,
            ));
        assert(wf(m1));
        lemma_repeat_passes(m1, (k - 1) as nat);
        let n2 = choose|n: nat|
            {
                let (m2, acts) = #[trigger] run_wanted(m1, n);
                &&& acts == passes(m1.ops, (k - 1) as nat, m1.line_delay, m1.write_delay, m1.press_enter)
                &&& m2 == EngineModel {
                    line_delay: m2.line_delay,
                    write_delay: m2.write_delay,
                    ..m1
                }
            };
        lemma_run_wanted_join(m, n1, n2);
        assert(run_wanted(m, n1 + n2).1 =~= passes(
            m.ops,
            k,
            m.line_delay,
            m.write_delay,
            m.press_enter,
        ));
    }
}

/// A repeating run that stays wanted, from its first step: it waits the
/// start delay in chunks and then does `k` passes over its commands, for
/// every `k` from 1 on.
pub proof fn lemma_repeat_run(m: EngineModel, k: nat)
    requires
        k > 0,
        wf(m),
        m.repeat,
        m.stage == (Stage::Starting { waited: 0 }),
    ensures
        exists|n: nat|
            #[trigger] run_wanted(m, n).1 == chunks(m.start_delay as nat) + passes(
                m.ops,
                k,
                m.line_delay,
                m.write_delay,
                m.press_enter,
            ),
{
    lemma_run_follows_plan(m);
    let n1 = choose|n: nat|
        {
            let (m2, acts) = #[trigger] run_wanted(m, n);
            &&& acts == planned(m)
            &&& pass_result(m, m2)
        };
    let (m2, acts) = run_wanted(m, n1);
    let c = chunks(m.start_delay as nat);
    let p = pass_actions(m.ops, 0, m.line_delay, m.write_delay, m.press_enter);
    assert(planned(m) =~= c + p);
    lemma_run_wanted_last(m, n1);
    let d = pass_delays(m.ops, 0, m.line_delay, m.write_delay);
    let m3 = EngineModel { stage: Stage::Check, index: 0, line_delay: d.0, write_delay: d.1, ..m };
    assert(transition(m2, true).0 == m3);
    assert(run_wanted(m, n1 + 1) == (m3, c + p));
    assert(wf(m3));
    lemma_repeat_passes(m3, (k - 1) as nat);
    let n2 = choose|n: nat|
        {
            let (m4, acts) = #[trigger] run_wanted(m3, n);
            &&& acts == passes(m3.ops, (k - 1) as nat, m3.line_delay, m3.write_delay, m3.press_enter)
            &&& m4 == EngineModel {
                line_delay: m4.line_delay,
                write_delay: m4.write_delay,
                ..m3
            }
        };
    lemma_run_wanted_join(m, n1 + 1, n2);
    assert(run_wanted(m, n1 + 1 + n2).1 =~= c + passes(
        m.ops,
        k,
        m.line_delay,
        m.write_delay,
        m.press_enter,
    ));
}

} // verus!

//! Running a script: a state machine that, step by step, says what to do next
//! (sleep, press a key, type a character, report progress) and is told each
//! time whether the run is still wanted.
use vstd::prelude::*;
use crate::engine::{
    key_from_name, parse_key_name, Command, CommandModel, EngineConfig, KeyCode, KeyMode,
};
use crate::text::to_chars;

verus! {

/// What one command of a script asks of a run.
pub enum Op {
    Line(Vec<char>),
    SetDelay(u64),
    SetWriteDelay(u64),
    Key(Option<KeyCode>, KeyMode),
    Type(Vec<char>, u64),
    Pause(u64),
    Nop,
}

pub enum OpModel {
    Line(Seq<char>),
    SetDelay(u64),
    SetWriteDelay(u64),
    Key(Option<KeyCode>, KeyMode),
    Type(Seq<char>, u64),
    Pause(u64),
    Nop,
}

impl View for Op {
    type V = OpModel;

    open spec fn view(&self) -> OpModel {
        match self {
            Op::Line(t) => OpModel::Line(t@),
            Op::SetDelay(ms) => OpModel::SetDelay(*ms),
            Op::SetWriteDelay(ms) => OpModel::SetWriteDelay(*ms),
            Op::Key(k, mode) => OpModel::Key(*k, *mode),
            Op::Type(t, ms) => OpModel::Type(t@, *ms),
            Op::Pause(ms) => OpModel::Pause(*ms),
            Op::Nop => OpModel::Nop,
        }
    }
}

/// The op of a command. A start delay is not an op: it sets the delay
/// before the run (see `start_delay_of`).
pub open spec fn op_of(c: CommandModel) -> OpModel {
    match c {
        CommandModel::Line(t) => OpModel::Line(t),
        CommandModel::StartDelay(_) => OpModel::Nop,
        CommandModel::SetDelay(ms) => OpModel::SetDelay(ms),
        CommandModel::SetWriteDelay(ms) => OpModel::SetWriteDelay(ms),
        CommandModel::Key(name, mode) => OpModel::Key(key_from_name(name), mode),
        CommandModel::Type(t, ms) => OpModel::Type(t, ms),
        CommandModel::Pause(ms) => OpModel::Pause(ms),
        CommandModel::Comment => OpModel::Nop,
    }
}

/// The delay before a run: the longest of the configured delay and the
/// delays of the script's `# MANUAL_SLEEP` directives.
pub open spec fn start_delay_of(cmds: Seq<CommandModel>, configured: u64) -> u64
    decreases cmds.len(),
{
    if cmds.len() == 0 {
        configured
    } else {
        let before = start_delay_of(cmds.drop_last(), configured);
        match cmds.last() {
            CommandModel::StartDelay(ms) => if ms > before {
                ms
            } else {
                before
            },
            _ => before,
        }
    }
}

/// The delay before a run is the longest of the configured delay and the
/// delays that the script's `# MANUAL_SLEEP` directives ask for: it is at
/// least each of them, and it is one of them.
pub proof fn lemma_start_delay_is_longest(cmds: Seq<CommandModel>, configured: u64)
    ensures
        start_delay_of(cmds, configured) >= configured,
        forall|k: int|
            0 <= k < cmds.len() && #[trigger] cmds[k] is StartDelay ==> start_delay_of(
                cmds,
                configured,
            ) >= cmds[k]->StartDelay_0,
        start_delay_of(cmds, configured) == configured || exists|k: int|
            0 <= k < cmds.len() && #[trigger] cmds[k] == CommandModel::StartDelay(
                start_delay_of(cmds, configured),
            ),
    decreases cmds.len(),
{
    if cmds.len() > 0 {
        let d = cmds.drop_last();
        lemma_start_delay_is_longest(d, configured);
        assert forall|k: int| 0 <= k < d.len() implies #[trigger] cmds[k] == d[k] by {}
        let r = start_delay_of(cmds, configured);
        let before = start_delay_of(d, configured);
        if r != configured && r != before {
            assert(cmds[cmds.len() - 1] == CommandModel::StartDelay(r));
        } else if r != configured {
            let j = choose|j: int|
                0 <= j < d.len() && #[trigger] d[j] == CommandModel::StartDelay(before);
            assert(cmds[j] == d[j]);
        }
    }
}

/// Where a run stands.
#[derive(Clone, Copy, Debug, PartialEq, Eq, Structural)]
pub enum Stage {
    /// Waiting before the first command; `waited` ms so far.
    Starting { waited: u64 },
    /// Before the command at `index` (or at the end of a pass).
    Check,
    /// About to carry out the command at `index`.
    Dispatch,
    /// Typing the text of the command at `index`, at character `next`.
    Typing { next: usize },
    /// The pause after a typed character; `next` is the character after it.
    TypeSleep { next: usize },
    /// The delay after a line.
    LineSleep,
    /// In a `# pause`; `waited` ms so far.
    Pausing { waited: u64 },
    /// The run is over.
    Done,
}

/// What the machine asks for in one step.
#[derive(Clone, Copy, Debug, PartialEq, Eq, Structural)]
pub enum Action {
    /// Sleep this many milliseconds.
    Sleep(u64),
    /// Send a key.
    Key(KeyCode, KeyMode),
    /// Type one character.
    Write(char),
    /// The command with this number (from 1) of this many is under way.
    Progress(usize, usize),
    /// Nothing to do outside.
    Nothing,
    /// The script is over: the run is no longer wanted.
    Finish,
    /// The run stops, since it is no longer wanted.
    Halt,
}

/// The state of a run.
pub struct EngineModel {
    pub ops: Seq<OpModel>,
    pub start_delay: u64,
    pub line_delay: u64,
    pub write_delay: u64,
    pub repeat: bool,
    pub press_enter: bool,
    pub stage: Stage,
    pub index: usize,
}

/// A run of a script.
pub struct Engine {
    ops: Vec<Op>,
    start_delay: u64,
    line_delay: u64,
    write_delay: u64,
    repeat: bool,
    press_enter: bool,
    stage: Stage,
    index: usize,
}

impl View for Engine {
    type V = EngineModel;

    closed spec fn view(&self) -> EngineModel {
        EngineModel {
            ops: self.ops@.map_values(|o: Op| o@),
            start_delay: self.start_delay,
            line_delay: self.line_delay,
            write_delay: self.write_delay,
            repeat: self.repeat,
            press_enter: self.press_enter,
            stage: self.stage,
            index: self.index,
        }
    }
}

// ---------------------------------------------------------------------------
// The transition

/// The longest sleep between two looks at whether the run is still wanted.
pub open spec fn chunk(left: u64) -> u64 {
    if left < 50 {
        left
    } else {
        50
    }
}

pub open spec fn text_of(op: OpModel) -> Seq<char> {
    match op {
        OpModel::Line(t) => t,
        OpModel::Type(t, _) => t,
        _ => seq![],
    }
}

/// The pause after each typed character of an op.
pub open spec fn char_delay(op: OpModel, write_delay: u64) -> u64 {
    match op {
        OpModel::Line(_) => write_delay,
        OpModel::Type(_, ms) => ms,
        _ => 0,
    }
}

pub open spec fn pause_ms(op: OpModel) -> u64 {
    match op {
        OpModel::Pause(ms) => ms,
        _ => 0,
    }
}

pub open spec fn with_stage(m: EngineModel, stage: Stage) -> EngineModel {
    EngineModel { stage, ..m }
}

/// On to the next command.
pub open spec fn advance(m: EngineModel) -> EngineModel {
    EngineModel { stage: Stage::Check, index: (m.index + 1) as usize, ..m }
}

pub open spec fn dispatch(m: EngineModel) -> (EngineModel, Action) {
    match m.ops[m.index as int] {
        OpModel::Line(t) => if t.len() == 0 {
            (advance(m), Action::Sleep(m.line_delay))
        } else if m.press_enter {
            (with_stage(m, Stage::Typing { next: 0 }), Action::Key(KeyCode::Return, KeyMode::Click))
        } else {
            (with_stage(m, Stage::Typing { next: 0 }), Action::Nothing)
        },
        OpModel::SetDelay(ms) => (EngineModel { line_delay: ms, ..advance(m) }, Action::Nothing),
        OpModel::SetWriteDelay(ms) => (
            EngineModel { write_delay: ms, ..advance(m) },
            Action::Nothing,
        ),
        OpModel::Key(k, mode) => match k {
            Some(key) => (advance(m), Action::Key(key, mode)),
            None => (advance(m), Action::Nothing),
        },
        OpModel::Type(_, _) => (with_stage(m, Stage::Typing { next: 0 }), Action::Nothing),
        OpModel::Pause(_) => (with_stage(m, Stage::Pausing { waited: 0 }), Action::Nothing),
        OpModel::Nop => (advance(m), Action::Nothing),
    }
}

/// One step of a run: the next state and what to do. `running` says whether
/// the run is still wanted; it is looked at before each sleep chunk of a
/// delay or pause, before each command and before each typed character.
pub open spec fn transition(m: EngineModel, running: bool) -> (EngineModel, Action) {
    match m.stage {
        Stage::Starting { waited } => if waited < m.start_delay && running {
            let s = chunk((m.start_delay - waited) as u64);
            (with_stage(m, Stage::Starting { waited: (waited + s) as u64 }), Action::Sleep(s))
        } else {
            (EngineModel { stage: Stage::Check, index: 0, ..m }, Action::Nothing)
        },
        Stage::Check => if m.index >= m.ops.len() {
            if m.repeat && running {
                (EngineModel { index: 0, ..m }, Action::Nothing)
            } else if m.repeat {
                (with_stage(m, Stage::Done), Action::Halt)
            } else {
                (with_stage(m, Stage::Done), Action::Finish)
            }
        } else if !running {
            (with_stage(m, Stage::Done), Action::Halt)
        } else {
            (
                with_stage(m, Stage::Dispatch),
                Action::Progress((m.index + 1) as usize, m.ops.len() as usize),
            )
        },
        Stage::Dispatch => dispatch(m),
        Stage::Typing { next } => {
            let op = m.ops[m.index as int];
            let t = text_of(op);
            if next < t.len() && running {
                let stage = if char_delay(op, m.write_delay) > 0 {
                    Stage::TypeSleep { next: (next + 1) as usize }
                } else {
                    Stage::Typing { next: (next + 1) as usize }
                };
                (with_stage(m, stage), Action::Write(t[next as int]))
            } else if op is Line {
                if m.press_enter {
                    (with_stage(m, Stage::LineSleep), Action::Key(KeyCode::Return, KeyMode::Click))
                } else {
                    (advance(m), Action::Sleep(m.line_delay))
                }
            } else {
                (advance(m), Action::Nothing)
            }
        },
        Stage::TypeSleep { next } => (
            with_stage(m, Stage::Typing { next }),
            Action::Sleep(char_delay(m.ops[m.index as int], m.write_delay)),
        ),
        Stage::LineSleep => (advance(m), Action::Sleep(m.line_delay)),
        Stage::Pausing { waited } => {
            let ms = pause_ms(m.ops[m.index as int]);
            if waited < ms && running {
                let s = chunk((ms - waited) as u64);
                (with_stage(m, Stage::Pausing { waited: (waited + s) as u64 }), Action::Sleep(s))
            } else {
                (advance(m), Action::Nothing)
            }
        },
        Stage::Done => (m, Action::Halt),
    }
}

/// What every state of a run satisfies.
pub open spec fn wf(m: EngineModel) -> bool {
    &&& m.ops.len() <= usize::MAX
    &&& forall|k: int| 0 <= k < m.ops.len() ==> text_of(#[trigger] m.ops[k]).len() <= usize::MAX
    &&& m.index <= m.ops.len()
    &&& match m.stage {
        Stage::Starting { waited } => m.index == 0 && waited <= m.start_delay,
        Stage::Check => true,
        Stage::Dispatch => m.index < m.ops.len(),
        Stage::Typing { next } => {
            &&& m.index < m.ops.len()
            &&& (m.ops[m.index as int] is Line || m.ops[m.index as int] is Type)
            &&& next <= text_of(m.ops[m.index as int]).len() <= usize::MAX
        },
        Stage::TypeSleep { next } => {
            &&& m.index < m.ops.len()
            &&& (m.ops[m.index as int] is Line || m.ops[m.index as int] is Type)
            &&& next <= text_of(m.ops[m.index as int]).len() <= usize::MAX
            &&& char_delay(m.ops[m.index as int], m.write_delay) > 0
        },
        Stage::LineSleep => m.index < m.ops.len() && m.ops[m.index as int] is Line,
        Stage::Pausing { waited } => {
            &&& m.index < m.ops.len()
            &&& m.ops[m.index as int] is Pause
            &&& waited <= pause_ms(m.ops[m.index as int])
        },
        Stage::Done => true,
    }
}

/// The state a run of these commands starts in.
pub open spec fn initial(cmds: Seq<CommandModel>, cfg: EngineConfig) -> EngineModel {
    EngineModel {
        ops: cmds.map_values(|c: CommandModel| op_of(c)),
        start_delay: start_delay_of(cmds, cfg.start_delay_ms),
        line_delay: cfg.line_delay_ms,
        write_delay: cfg.write_delay_ms,
        repeat: cfg.repeat,
        press_enter: cfg.press_enter,
        stage: Stage::Starting { waited: 0 },
        index: 0,
    }
}

/// What each command of a script becomes in a run: a text line is typed as
/// it stands, a `# type` types its text with its own delay, the delay and
/// pause directives keep their numbers, a `# key` sends the key its name
/// stands for, and a start delay or a comment does nothing when its turn comes.
pub proof fn lemma_initial_ops(cmds: Seq<CommandModel>, cfg: EngineConfig, k: int)
    requires
        0 <= k < cmds.len(),
    ensures
        initial(cmds, cfg).ops.len() == cmds.len(),
        cmds[k] matches CommandModel::Line(t) ==> initial(cmds, cfg).ops[k] == OpModel::Line(t)
            && text_of(initial(cmds, cfg).ops[k]) == t,
        cmds[k] matches CommandModel::Type(t, ms) ==> initial(cmds, cfg).ops[k] == OpModel::Type(
            t,
            ms,
        ) && text_of(initial(cmds, cfg).ops[k]) == t,
        cmds[k] matches CommandModel::SetDelay(ms) ==> initial(cmds, cfg).ops[k]
            == OpModel::SetDelay(ms),
        cmds[k] matches CommandModel::SetWriteDelay(ms) ==> initial(cmds, cfg).ops[k]
            == OpModel::SetWriteDelay(ms),
        cmds[k] matches CommandModel::Pause(ms) ==> initial(cmds, cfg).ops[k] == OpModel::Pause(
            ms,
        ),
        cmds[k] matches CommandModel::Key(name, mode) ==> initial(cmds, cfg).ops[k]
            == OpModel::Key(key_from_name(name), mode),
        cmds[k] is StartDelay || cmds[k] is Comment ==> initial(cmds, cfg).ops[k] == OpModel::Nop,
{
}

/// Every step keeps a run well formed.
pub proof fn lemma_next_wf(m: EngineModel, running: bool)
    requires
        wf(m),
    ensures
        wf(transition(m, running).0),
{
}

/// Progress is reported as the number (from 1) of the command under way and
/// the number of commands.
pub proof fn lemma_progress_in_range(m: EngineModel, running: bool)
    requires
        wf(m),
    ensures
        transition(m, running).1 matches Action::Progress(i, n) ==> 1 <= i <= n && n
            == m.ops.len(),
{
}

// ---------------------------------------------------------------------------
// The executable machine

/// The delay before a run of `commands` configured to wait `configured` ms.
pub fn script_start_delay(commands: &Vec<Command>, configured: u64) -> (r: u64)
    ensures
        r == start_delay_of(commands@.map_values(|c: Command| c@), configured),
{
    let ghost cmds = commands@.map_values(|c: Command| c@);
    let mut sd = configured;
    let mut i: usize = 0;
    assert(cmds.take(0) =~= Seq::<CommandModel>::empty());
    while i < commands.len()
        invariant
            cmds == commands@.map_values(|c: Command| c@),
            0 <= i <= commands.len(),
            sd == start_delay_of(cmds.take(i as int), configured),
        decreases commands.len() - i,
    {
        if let Command::StartDelay(ms) = &commands[i] {
            if *ms > sd {
                sd = *ms;
            }
        }
        assert(cmds.take(i + 1).drop_last() =~= cmds.take(i as int));
        assert(cmds.take(i + 1).last() == commands@[i as int]@);
        i = i + 1;
    }
    assert(cmds.take(i as int) =~= cmds);
    sd
}

impl Engine {
    /// A run of `commands` with the settings `cfg`, before its first step.
    pub fn new(commands: Vec<Command>, cfg: EngineConfig) -> (r: Engine)
        ensures
            r@ == initial(commands@.map_values(|c: Command| c@), cfg),
            wf(r@),
    {
        let ghost cmds = commands@.map_values(|c: Command| c@);
        let mut ops: Vec<Op> = Vec::new();
        let start_delay = script_start_delay(&commands, cfg.start_delay_ms);
        let mut i: usize = 0;
        while i < commands.len()
            invariant
                cmds == commands@.map_values(|c: Command| c@),
                0 <= i <= commands.len(),
                ops@.len() == i,
                forall|k: int| 0 <= k < i ==> #[trigger] ops@[k]@ == op_of(cmds[k]),
                forall|k: int| 0 <= k < i ==> text_of(#[trigger] ops@[k]@).len() <= usize::MAX,
            decreases commands.len() - i,
        {
            let op = match &commands[i] {
                Command::Line(s) => {
                    let t = to_chars(s.as_str());
                    let _ = t.len();
                    Op::Line(t)
                },
                Command::StartDelay(_) => Op::Nop,
                Command::SetDelay(ms) => Op::SetDelay(*ms),
                Command::SetWriteDelay(ms) => Op::SetWriteDelay(*ms),
                Command::Key(name, mode) => Op::Key(parse_key_name(name.as_str()), *mode),
                Command::Type(s, ms) => {
                    let t = to_chars(s.as_str());
                    let _ = t.len();
                    Op::Type(t, *ms)
                },
                Command::Pause(ms) => Op::Pause(*ms),
                Command::Comment => Op::Nop,
            };
            ops.push(op);
            i = i + 1;
        }
        let r = Engine {
            ops,
            start_delay,
            line_delay: cfg.line_delay_ms,
            write_delay: cfg.write_delay_ms,
            repeat: cfg.repeat,
            press_enter: cfg.press_enter,
            stage: Stage::Starting { waited: 0 },
            index: 0,
        };
        assert(r@.ops =~= cmds.map_values(|c: CommandModel| op_of(c)));
        r
    }

    /// Whether the run is over.
    pub fn is_done(&self) -> (r: bool)
        ensures
            r == (self@.stage is Done),
    {
        match self.stage {
            Stage::Done => true,
            _ => false,
        }
    }

    /// One step of the run; `running` says whether the run is still wanted.
    pub fn step(&mut self, running: bool) -> (a: Action)
        requires
            wf(old(self)@),
        ensures
            final(self)@ == transition(old(self)@, running).0,
            a == transition(old(self)@, running).1,
            wf(final(self)@),
    {
        proof {
            lemma_next_wf(self@, running);
        }
        let ghost m = self@;
        let n = self.ops.len();
        assert(m.ops.len() == n);
        match self.stage {
            Stage::Starting { waited } => {
                if waited < self.start_delay && running {
                    let left = self.start_delay - waited;
                    let s = if left < 50 {
                        left
                    } else {
                        50
                    };
                    self.stage = Stage::Starting { waited: waited + s };
                    Action::Sleep(s)
                } else {
                    self.stage = Stage::Check;
                    self.index = 0;
                    Action::Nothing
                }
            },
            Stage::Check => {
                if self.index >= self.ops.len() {
                    if self.repeat && running {
                        self.index = 0;
                        Action::Nothing
                    } else if self.repeat {
                        self.stage = Stage::Done;
                        Action::Halt
                    } else {
                        self.stage = Stage::Done;
                        Action::Finish
                    }
                } else if !running {
                    self.stage = Stage::Done;
                    Action::Halt
                } else {
                    self.stage = Stage::Dispatch;
                    Action::Progress(self.index + 1, self.ops.len())
                }
            },
            Stage::Dispatch => self.dispatch(),
            Stage::Typing { next } => self.type_next(next, running),
            Stage::TypeSleep { next } => {
                let d = match &self.ops[self.index] {
                    Op::Line(_) => self.write_delay,
                    Op::Type(_, ms) => *ms,
                    _ => 0,
                };
                self.stage = Stage::Typing { next };
                Action::Sleep(d)
            },
            Stage::LineSleep => {
                self.stage = Stage::Check;
                self.index = self.index + 1;
                Action::Sleep(self.line_delay)
            },
            Stage::Pausing { waited } => {
                let ms = match &self.ops[self.index] {
                    Op::Pause(ms) => *ms,
                    _ => 0,
                };
                if waited < ms && running {
                    let left = ms - waited;
                    let s = if left < 50 {
                        left
                    } else {
                        50
                    };
                    self.stage = Stage::Pausing { waited: waited + s };
                    Action::Sleep(s)
                } else {
                    self.stage = Stage::Check;
                    self.index = self.index + 1;
                    Action::Nothing
                }
            },
            Stage::Done => Action::Halt,
        }
    }

    fn dispatch(&mut self) -> (a: Action)
        requires
            wf(old(self)@),
            old(self)@.stage is Dispatch,
        ensures
            final(self)@ == dispatch(old(self)@).0,
            a == dispatch(old(self)@).1,
    {
        let i = self.index;
        let ghost m = self@;
        let n = self.ops.len();
        assert(m.ops.len() == n);
        assert(self.ops@[i as int]@ == m.ops[i as int]);
        let (stage, advance, a) = match &self.ops[i] {
            Op::Line(t) => {
                if t.len() == 0 {
                    (Stage::Check, true, Action::Sleep(self.line_delay))
                } else if self.press_enter {
                    (Stage::Typing { next: 0 }, false, Action::Key(KeyCode::Return, KeyMode::Click))
                } else {
                    (Stage::Typing { next: 0 }, false, Action::Nothing)
                }
            },
            Op::SetDelay(ms) => {
                self.line_delay = *ms;
                (Stage::Check, true, Action::Nothing)
            },
            Op::SetWriteDelay(ms) => {
                self.write_delay = *ms;
                (Stage::Check, true, Action::Nothing)
            },
            Op::Key(k, mode) => match k {
                Some(key) => (Stage::Check, true, Action::Key(*key, *mode)),
                None => (Stage::Check, true, Action::Nothing),
            },
            Op::Type(_, _) => (Stage::Typing { next: 0 }, false, Action::Nothing),
            Op::Pause(_) => (Stage::Pausing { waited: 0 }, false, Action::Nothing),
            Op::Nop => (Stage::Check, true, Action::Nothing),
        };
        self.stage = stage;
        if advance {
            self.index = i + 1;
        }
        a
    }

    fn type_next(&mut self, next: usize, running: bool) -> (a: Action)
        requires
            wf(old(self)@),
            old(self)@.stage == (Stage::Typing { next }),
        ensures
            final(self)@ == transition(old(self)@, running).0,
            a == transition(old(self)@, running).1,
    {
        let i = self.index;
        let ghost m = self@;
        let n = self.ops.len();
        assert(m.ops.len() == n);
        assert(self.ops@[i as int]@ == m.ops[i as int]);
        let (len, delay, is_line) = match &self.ops[i] {
            Op::Line(t) => (t.len(), self.write_delay, true),
            Op::Type(t, ms) => (t.len(), *ms, false),
            _ => (0, 0, false),
        };
        if next < len && running {
            let c = match &self.ops[i] {
                Op::Line(t) => t[next],
                Op::Type(t, _) => t[next],
                _ => ' ',
            };
            self.stage = if delay > 0 {
                Stage::TypeSleep { next: next + 1 }
            } else {
                Stage::Typing { next: next + 1 }
            };
            Action::Write(c)
        } else if is_line {
            if self.press_enter {
                self.stage = Stage::LineSleep;
                Action::Key(KeyCode::Return, KeyMode::Click)
            } else {
                self.stage = Stage::Check;
                self.index = i + 1;
                Action::Sleep(self.line_delay)
            }
        } else {
            self.stage = Stage::Check;
            self.index = i + 1;
            Action::Nothing
        }
    }
}

} // verus!

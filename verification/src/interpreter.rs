//! The execution loop, one instruction per step: pull a word from the
//! tokenizer, resolve it through the variable store, and either perform the
//! matching builtin against the two working buffers or push resolved text
//! back into the tokenizer as new source (macro expansion).
//!
//! The step function performs no I/O itself.  Whenever the run needs the
//! host — text to print, a file to read, a fatal stop on an unimplemented
//! capability — the step returns a [`StepAction`] describing it; the caller
//! performs the action and, for a file read, hands the contents back
//! through [`Interpreter::resume_file`].

use crate::strings::{join_strings, join_with, lex_less};
use crate::tokenizer::{
    ctx_of, default_cfg, next_word_spec, stack_wf, tokenize_all_spec, Ctx, LexCfg, LexerSettings,
    Tokenizer,
};
use crate::variables::{
    get_spec, init_vars, set_object_spec, set_spec, Instruction, Object, ObjectModel, Resolved,
    ResolvedModel, SetEffect, SetEffectModel, Variables, VarsModel,
};
use vstd::prelude::*;
use vstd::string::*;

verus! {

/// Ordinal (code-point by code-point) lexicographic comparison: whether
/// `s1` comes strictly before `s2`.  `"10"` is less than `"9"` here.
pub fn str_less_than(s1: String, s2: String) -> (r: bool)
    ensures
        r == lex_less(s1@, s2@),
{
    let n1 = s1.as_str().unicode_len();
    let n2 = s2.as_str().unicode_len();
    let mut i: usize = 0;
    proof {
        assert(s1@.skip(0) =~= s1@);
        assert(s2@.skip(0) =~= s2@);
    }
    loop
        invariant
            i <= n1,
            i <= n2,
            n1 == s1@.len(),
            n2 == s2@.len(),
            lex_less(s1@, s2@) == lex_less(s1@.skip(i as int), s2@.skip(i as int)),
        decreases n1 - i,
    {
        if i >= n2 {
            // `s2` is exhausted: equal so far, so `s1` is not less.
            return false;
        }
        if i >= n1 {
            // `s1` is exhausted but `s2` goes on: `s1` is less.
            return true;
        }
        let c1 = s1.as_str().get_char(i);
        let c2 = s2.as_str().get_char(i);
        if c1 != c2 {
            proof {
                assert(s1@.skip(i as int)[0] == c1);
                assert(s2@.skip(i as int)[0] == c2);
            }
            return (c1 as u32) < (c2 as u32);
        }
        proof {
            assert(s1@.skip(i as int)[0] == s2@.skip(i as int)[0]);
            assert(s1@.skip(i as int).drop_first() =~= s1@.skip(i + 1));
            assert(s2@.skip(i as int).drop_first() =~= s2@.skip(i + 1));
        }
        i += 1;
    }
}

/// A host task left over from a read that the step could not finish by
/// itself: what to do with the file contents once the host supplies them.
#[derive(Debug)]
pub enum Pending {
    /// No file read is outstanding; the next step may run.
    Idle,
    /// Push the contents as a new tokenizer context.
    PushSource,
    /// Tokenize the contents fully and append each word to the primary
    /// buffer.
    ExpandWords,
    /// The contents are a second-level variable name: resolve them and
    /// store the result under the kept name.
    DerefLookup(String),
    /// Store the contents as text under the kept name.
    DerefStore(String),
}

/// Mathematical model of a [`Pending`].
pub enum PendingModel {
    /// No file read is outstanding.
    Idle,
    /// Push the contents as a new tokenizer context.
    PushSource,
    /// Tokenize the contents and append the words to the primary buffer.
    ExpandWords,
    /// Resolve the contents as a name; store the result under the kept name.
    DerefLookup(Seq<char>),
    /// Store the contents as text under the kept name.
    DerefStore(Seq<char>),
}

impl View for Pending {
    type V = PendingModel;

    open spec fn view(&self) -> PendingModel {
        match self {
            Pending::Idle => PendingModel::Idle,
            Pending::PushSource => PendingModel::PushSource,
            Pending::ExpandWords => PendingModel::ExpandWords,
            Pending::DerefLookup(n) => PendingModel::DerefLookup(n@),
            Pending::DerefStore(n) => PendingModel::DerefStore(n@),
        }
    }
}

/// What one step asks of the host.
#[derive(Debug, PartialEq)]
pub enum StepAction {
    /// Nothing: call `step` again.
    Continue,
    /// The program is over: every text source is exhausted.
    Done,
    /// Emit this text to standard output, followed by a newline, then call
    /// `step` again.
    Output(String),
    /// Read the file at this path (empty text if unreadable) and hand the
    /// contents to `resume_file`.
    ReadFile(String),
    /// Fatal: blocking input is not implemented.
    FatalInput,
    /// Fatal: non-blocking input is not implemented.
    FatalNonBlockingInput,
    /// Fatal: console-command execution is not implemented.
    FatalConsole,
    /// Fatal: writing file contents is not implemented.
    FatalFileWrite,
}

/// Mathematical model of a [`StepAction`].
pub enum ActionModel {
    /// Nothing: step again.
    Continue,
    /// The program is over.
    Done,
    /// Emit this text, followed by a newline.
    Output(Seq<char>),
    /// Read the file at this path and resume with the contents.
    ReadFile(Seq<char>),
    /// Fatal: blocking input is not implemented.
    FatalInput,
    /// Fatal: non-blocking input is not implemented.
    FatalNonBlockingInput,
    /// Fatal: console-command execution is not implemented.
    FatalConsole,
    /// Fatal: writing file contents is not implemented.
    FatalFileWrite,
}

impl View for StepAction {
    type V = ActionModel;

    open spec fn view(&self) -> ActionModel {
        match self {
            StepAction::Continue => ActionModel::Continue,
            StepAction::Done => ActionModel::Done,
            StepAction::Output(s) => ActionModel::Output(s@),
            StepAction::ReadFile(p) => ActionModel::ReadFile(p@),
            StepAction::FatalInput => ActionModel::FatalInput,
            StepAction::FatalNonBlockingInput => ActionModel::FatalNonBlockingInput,
            StepAction::FatalConsole => ActionModel::FatalConsole,
            StepAction::FatalFileWrite => ActionModel::FatalFileWrite,
        }
    }
}

/// Mathematical model of the whole machine: configuration, context stack,
/// store, the two working buffers, and the outstanding host task.
#[verifier::ext_equal]
pub struct InterpModel {
    /// The lexer configuration.
    pub cfg: LexCfg,
    /// The tokenizer's context stack.
    pub stack: Seq<Ctx>,
    /// The variable store.
    pub vars: VarsModel,
    /// The primary working buffer (last element on top).
    pub primary: Seq<Seq<char>>,
    /// The secondary working buffer.
    pub secondary: Seq<Seq<char>>,
    /// The outstanding host task, if any.
    pub pending: PendingModel,
}

/// One step's outcome: the machine afterwards and what it asks of the host.
#[verifier::ext_equal]
pub struct StepModel {
    /// The machine after the step.
    pub state: InterpModel,
    /// What the step asks of the host.
    pub action: ActionModel,
}

/// The machine as a fresh run begins on `program`.
pub open spec fn initial_state(program: Seq<char>) -> InterpModel {
    InterpModel {
        cfg: default_cfg(),
        stack: seq![ctx_of(program)],
        vars: init_vars(),
        primary: Seq::empty(),
        secondary: Seq::empty(),
        pending: PendingModel::Idle,
    }
}

/// `JoinValues` on the primary buffer: pop the top two entries and push
/// their concatenation; with one entry the buffer is unchanged; with none
/// the instruction is a no-op.
pub open spec fn join_values_spec(p: Seq<Seq<char>>) -> Seq<Seq<char>> {
    if p.len() <= 1 {
        p
    } else {
        p.drop_last().drop_last().push(p[p.len() - 2] + p.last())
    }
}

/// `SwapBuffer`: exchange the two buffers in their entirety.
pub open spec fn swap_buffer_spec(s: InterpModel) -> StepModel {
    StepModel {
        state: InterpModel { primary: s.secondary, secondary: s.primary, ..s },
        action: ActionModel::Continue,
    }
}

/// `SkipNext`: append the next raw word to the primary buffer; if the
/// tokenizer is exhausted the whole run ends.
pub open spec fn skip_next_spec(s: InterpModel) -> StepModel {
    match next_word_spec(s.stack, s.cfg) {
        None => StepModel {
            state: InterpModel { stack: Seq::empty(), ..s },
            action: ActionModel::Done,
        },
        Some(res) => StepModel {
            state: InterpModel { stack: res.1, primary: s.primary.push(res.0), ..s },
            action: ActionModel::Continue,
        },
    }
}

/// `ExpandPrevious`: pop the top of the primary buffer; a word resolving to
/// a keyword is pushed back (as literal text) into the tokenizer, one
/// resolving to text has that text tokenized fully and the words appended
/// to the primary buffer.
pub open spec fn expand_previous_spec(s: InterpModel) -> StepModel {
    if s.primary.len() == 0 {
        StepModel { state: s, action: ActionModel::Continue }
    } else {
        let word = s.primary.last();
        let s1 = InterpModel { primary: s.primary.drop_last(), ..s };
        match get_spec(s.vars, s.cfg, word) {
            ResolvedModel::Value(ObjectModel::Keyword(op)) => StepModel {
                state: InterpModel { stack: s.stack.push(ctx_of(word)), ..s1 },
                action: ActionModel::Continue,
            },
            ResolvedModel::Value(ObjectModel::Text(t)) => StepModel {
                state: InterpModel {
                    primary: s1.primary + tokenize_all_spec(seq![ctx_of(t)], s.cfg),
                    ..s1
                },
                action: ActionModel::Continue,
            },
            ResolvedModel::FileRead => StepModel {
                state: InterpModel { pending: PendingModel::ExpandWords, ..s1 },
                action: ActionModel::ReadFile(s.vars.file_path),
            },
            ResolvedModel::FatalInput => StepModel { state: s1, action: ActionModel::FatalInput },
            ResolvedModel::FatalNonBlockingInput => StepModel {
                state: s1,
                action: ActionModel::FatalNonBlockingInput,
            },
        }
    }
}

/// `CrazySwap`: read up to two raw words and pop up to two buffer entries;
/// the popped entries go back into the tokenizer (deeper one first), the
/// read words onto the primary buffer (second one first).
pub open spec fn crazy_swap_spec(s: InterpModel) -> StepModel {
    let r1 = next_word_spec(s.stack, s.cfg);
    let st1 = if r1 is Some {
        (r1->0).1
    } else {
        Seq::empty()
    };
    let r2 = next_word_spec(st1, s.cfg);
    let st2 = if r2 is Some {
        (r2->0).1
    } else {
        Seq::empty()
    };
    let plen = s.primary.len();
    let p0 = if plen <= 1 {
        Seq::empty()
    } else {
        s.primary.drop_last().drop_last()
    };
    let with_b2 = if plen >= 2 {
        st2.push(ctx_of(s.primary[plen - 2]))
    } else {
        st2
    };
    let with_b1 = if plen >= 1 {
        with_b2.push(ctx_of(s.primary.last()))
    } else {
        with_b2
    };
    let with_t2 = if r2 is Some {
        p0.push((r2->0).0)
    } else {
        p0
    };
    let with_t1 = if r1 is Some {
        with_t2.push((r1->0).0)
    } else {
        with_t2
    };
    StepModel {
        state: InterpModel { stack: with_b1, primary: with_t1, ..s },
        action: ActionModel::Continue,
    }
}

/// `EndLine`: assign the joined primary buffer to the name given by the
/// joined secondary buffer, then clear both buffers.  A fatal write stops
/// the run with the buffers as they stand.
pub open spec fn end_line_spec(s: InterpModel) -> StepModel {
    let value = join_with(s.primary, seq![' ']);
    let ident = join_with(s.secondary, seq![' ']);
    let r = set_spec(s.vars, s.cfg, ident, value);
    let s1 = InterpModel { vars: r.vars, cfg: r.cfg, ..s };
    match r.effect {
        SetEffectModel::FatalConsole => StepModel { state: s1, action: ActionModel::FatalConsole },
        SetEffectModel::FatalFileWrite => StepModel {
            state: s1,
            action: ActionModel::FatalFileWrite,
        },
        SetEffectModel::Output(o) => StepModel {
            state: InterpModel { primary: Seq::empty(), secondary: Seq::empty(), ..s1 },
            action: ActionModel::Output(o),
        },
        SetEffectModel::Done => StepModel {
            state: InterpModel { primary: Seq::empty(), secondary: Seq::empty(), ..s1 },
            action: ActionModel::Continue,
        },
    }
}

/// `DereferenceLast`: read (without popping) the top of the primary buffer
/// as a name; if it resolves to text, resolve that text as a second-level
/// name and store the result under the first name.
pub open spec fn deref_last_spec(s: InterpModel) -> StepModel {
    if s.primary.len() == 0 {
        StepModel { state: s, action: ActionModel::Continue }
    } else {
        let name = s.primary.last();
        match get_spec(s.vars, s.cfg, name) {
            ResolvedModel::Value(ObjectModel::Text(t)) => match get_spec(s.vars, s.cfg, t) {
                ResolvedModel::Value(obj) => StepModel {
                    state: InterpModel { vars: set_object_spec(s.vars, name, obj), ..s },
                    action: ActionModel::Continue,
                },
                ResolvedModel::FileRead => StepModel {
                    state: InterpModel { pending: PendingModel::DerefStore(name), ..s },
                    action: ActionModel::ReadFile(s.vars.file_path),
                },
                ResolvedModel::FatalInput => StepModel {
                    state: s,
                    action: ActionModel::FatalInput,
                },
                ResolvedModel::FatalNonBlockingInput => StepModel {
                    state: s,
                    action: ActionModel::FatalNonBlockingInput,
                },
            },
            ResolvedModel::Value(ObjectModel::Keyword(op)) => StepModel {
                state: s,
                action: ActionModel::Continue,
            },
            ResolvedModel::FileRead => StepModel {
                state: InterpModel { pending: PendingModel::DerefLookup(name), ..s },
                action: ActionModel::ReadFile(s.vars.file_path),
            },
            ResolvedModel::FatalInput => StepModel { state: s, action: ActionModel::FatalInput },
            ResolvedModel::FatalNonBlockingInput => StepModel {
                state: s,
                action: ActionModel::FatalNonBlockingInput,
            },
        }
    }
}

/// `IfLess`: pop up to two entries (top, then next).  Skip the next raw
/// token unless next-under-top is ordinally less than top; with an empty
/// buffer skip, with exactly one entry do not skip.
pub open spec fn if_less_spec(s: InterpModel) -> StepModel {
    let plen = s.primary.len();
    let skip = if plen == 0 {
        true
    } else if plen == 1 {
        false
    } else {
        !lex_less(s.primary[plen - 2], s.primary.last())
    };
    let p1 = if plen == 0 {
        s.primary
    } else if plen == 1 {
        Seq::empty()
    } else {
        s.primary.drop_last().drop_last()
    };
    let s1 = InterpModel { primary: p1, ..s };
    if skip {
        match next_word_spec(s1.stack, s1.cfg) {
            Some(res) => StepModel {
                state: InterpModel { stack: res.1, ..s1 },
                action: ActionModel::Continue,
            },
            None => StepModel {
                state: InterpModel { stack: Seq::empty(), ..s1 },
                action: ActionModel::Continue,
            },
        }
    } else {
        StepModel { state: s1, action: ActionModel::Continue }
    }
}

/// The effect of one builtin instruction.
pub open spec fn instr_spec(s: InterpModel, op: Instruction) -> StepModel {
    match op {
        Instruction::SwapBuffer => swap_buffer_spec(s),
        Instruction::SkipNext => skip_next_spec(s),
        Instruction::ExpandPrevious => expand_previous_spec(s),
        Instruction::CrazySwap => crazy_swap_spec(s),
        Instruction::JoinValues => StepModel {
            state: InterpModel { primary: join_values_spec(s.primary), ..s },
            action: ActionModel::Continue,
        },
        Instruction::EndLine => end_line_spec(s),
        Instruction::DereferenceLast => deref_last_spec(s),
        Instruction::IfLess => if_less_spec(s),
    }
}

/// Dispatching one word that has already been read: a keyword runs its
/// instruction, text becomes a new tokenizer context.
pub open spec fn dispatch_spec(s: InterpModel, word: Seq<char>) -> StepModel {
    match get_spec(s.vars, s.cfg, word) {
        ResolvedModel::Value(ObjectModel::Keyword(op)) => instr_spec(s, op),
        ResolvedModel::Value(ObjectModel::Text(t)) => StepModel {
            state: InterpModel { stack: s.stack.push(ctx_of(t)), ..s },
            action: ActionModel::Continue,
        },
        ResolvedModel::FileRead => StepModel {
            state: InterpModel { pending: PendingModel::PushSource, ..s },
            action: ActionModel::ReadFile(s.vars.file_path),
        },
        ResolvedModel::FatalInput => StepModel { state: s, action: ActionModel::FatalInput },
        ResolvedModel::FatalNonBlockingInput => StepModel {
            state: s,
            action: ActionModel::FatalNonBlockingInput,
        },
    }
}

/// One full step: read a word (ending the run when none is left) and
/// dispatch it.
pub open spec fn spec_step(s: InterpModel) -> StepModel {
    match next_word_spec(s.stack, s.cfg) {
        None => StepModel {
            state: InterpModel { stack: Seq::empty(), ..s },
            action: ActionModel::Done,
        },
        Some(res) => dispatch_spec(InterpModel { stack: res.1, ..s }, res.0),
    }
}

/// Finishing an outstanding file read with the contents the host supplied.
pub open spec fn spec_resume(s: InterpModel, contents: Seq<char>) -> StepModel {
    let s0 = InterpModel { pending: PendingModel::Idle, ..s };
    match s.pending {
        PendingModel::Idle => StepModel { state: s0, action: ActionModel::Continue },
        PendingModel::PushSource => StepModel {
            state: InterpModel { stack: s.stack.push(ctx_of(contents)), ..s0 },
            action: ActionModel::Continue,
        },
        PendingModel::ExpandWords => StepModel {
            state: InterpModel {
                primary: s.primary + tokenize_all_spec(seq![ctx_of(contents)], s.cfg),
                ..s0
            },
            action: ActionModel::Continue,
        },
        PendingModel::DerefLookup(name) => match get_spec(s.vars, s.cfg, contents) {
            ResolvedModel::Value(obj) => StepModel {
                state: InterpModel { vars: set_object_spec(s.vars, name, obj), ..s0 },
                action: ActionModel::Continue,
            },
            ResolvedModel::FileRead => StepModel {
                state: InterpModel { pending: PendingModel::DerefStore(name), ..s },
                action: ActionModel::ReadFile(s.vars.file_path),
            },
            ResolvedModel::FatalInput => StepModel { state: s0, action: ActionModel::FatalInput },
            ResolvedModel::FatalNonBlockingInput => StepModel {
                state: s0,
                action: ActionModel::FatalNonBlockingInput,
            },
        },
        PendingModel::DerefStore(name) => StepModel {
            state: InterpModel {
                vars: set_object_spec(s.vars, name, ObjectModel::Text(contents)),
                ..s0
            },
            action: ActionModel::Continue,
        },
    }
}

/// For every primary buffer, `JoinValues` reduces its length by exactly
/// one (two pops, one push), unless it held exactly one element (no change
/// in length) or none (a no-op: the word is discarded).
pub proof fn lemma_join_values_len(p: Seq<Seq<char>>)
    ensures
        p.len() >= 2 ==> join_values_spec(p).len() == p.len() - 1,
        p.len() <= 1 ==> join_values_spec(p) == p,
{
}

/// `EndLine` is idempotent with respect to buffer state: whenever it
/// completes (its write not being a fatal stop), both buffers come out
/// empty, regardless of their prior contents.
pub proof fn lemma_end_line_clears(s: InterpModel)
    ensures
        (end_line_spec(s).action is Continue || end_line_spec(s).action is Output) ==> {
            &&& end_line_spec(s).state.primary == Seq::<Seq<char>>::empty()
            &&& end_line_spec(s).state.secondary == Seq::<Seq<char>>::empty()
        },
{
}

/// Writing the uniques set through the system-variable layer takes effect
/// at once: an `EndLine` whose identifier joins to the prefixed `u` name
/// leaves a configuration whose uniques are exactly the joined primary
/// buffer, and the very next word is produced under that configuration —
/// there is no cached copy of the old character set.
pub proof fn lemma_set_uniques_immediate(s: InterpModel)
    requires
        join_with(s.secondary, seq![' ']) == s.vars.sysvar_prefix + seq!['u'],
    ensures
        ({
            let value = join_with(s.primary, seq![' ']);
            let s2 = end_line_spec(s).state;
            &&& s2.cfg == (LexCfg { uniques: value, ..s.cfg })
            &&& next_word_spec(s2.stack, s2.cfg) == next_word_spec(
                s2.stack,
                (LexCfg { uniques: value, ..s.cfg }),
            )
        }),
{
    let ident = join_with(s.secondary, seq![' ']);
    let prefix = s.vars.sysvar_prefix;
    assert(prefix =~= ident.subrange(0, prefix.len() as int));
    assert(prefix.is_prefix_of(ident));
    assert(ident.skip(prefix.len() as int) =~= seq!['u']);
}

/// The whole machine: configuration, tokenizer, store, the two working
/// buffers, and the outstanding host task.
pub struct Interpreter {
    /// The lexer configuration, shared by every tokenization.
    pub settings: LexerSettings,
    /// The context stack the program is read from.
    pub tokenizer: Tokenizer,
    /// The variable store.
    pub variables: Variables,
    /// The primary working buffer.
    pub primary: Vec<String>,
    /// The secondary working buffer.
    pub secondary: Vec<String>,
    /// The outstanding host task, if any.
    pub pending: Pending,
}

impl View for Interpreter {
    type V = InterpModel;

    open spec fn view(&self) -> InterpModel {
        InterpModel {
            cfg: self.settings@,
            stack: self.tokenizer@,
            vars: self.variables@,
            primary: self.primary.deep_view(),
            secondary: self.secondary.deep_view(),
            pending: self.pending@,
        }
    }
}

impl Interpreter {
    /// Every tokenizer cursor lies within its text.
    pub open spec fn wf(&self) -> bool {
        self.tokenizer.wf()
    }

    /// A fresh machine about to run `program` under default settings.
    pub fn new(program: String) -> (interp: Interpreter)
        ensures
            interp.wf(),
            interp@ == initial_state(program@),
    {
        let settings = LexerSettings::default();
        let mut tokenizer = Tokenizer::new();
        tokenizer.new_program(program);
        let variables = Variables::new();
        let interp = Interpreter {
            settings,
            tokenizer,
            variables,
            primary: Vec::new(),
            secondary: Vec::new(),
            pending: Pending::Idle,
        };
        proof {
            assert(interp.primary.deep_view() =~= Seq::<Seq<char>>::empty());
            assert(interp.secondary.deep_view() =~= Seq::<Seq<char>>::empty());
            assert(interp@ =~= initial_state(program@));
        }
        interp
    }

    /// Run one builtin instruction against the buffers and the tokenizer.
    fn run_instruction(&mut self, op: Instruction) -> (act: StepAction)
        requires
            old(self).wf(),
        ensures
            final(self).wf(),
            final(self)@ == instr_spec(old(self)@, op).state,
            act@ == instr_spec(old(self)@, op).action,
    {
        let ghost s = self@;
        match op {
            Instruction::SwapBuffer => {
                core::mem::swap(&mut self.primary, &mut self.secondary);
                proof {
                    assert(self@ =~= swap_buffer_spec(s).state);
                }
                StepAction::Continue
            },
            Instruction::SkipNext => {
                match self.tokenizer.next_word(&self.settings) {
                    None => {
                        proof {
                            assert(self@ =~= skip_next_spec(s).state);
                        }
                        StepAction::Done
                    },
                    Some(t) => {
                        let ghost res = next_word_spec(s.stack, s.cfg)->0;
                        self.primary.push(t);
                        proof {
                            assert(self.primary.deep_view() =~= s.primary.push(res.0));
                            assert(self@ =~= skip_next_spec(s).state);
                        }
                        StepAction::Continue
                    },
                }
            },
            Instruction::ExpandPrevious => {
                let word = match self.primary.pop() {
                    None => {
                        proof {
                            assert(self@ =~= expand_previous_spec(s).state);
                        }
                        return StepAction::Continue;
                    },
                    Some(w) => w,
                };
                proof {
                    assert(word@ == s.primary.last());
                    assert(self.primary.deep_view() =~= s.primary.drop_last());
                }
                let ghost s1 = self@;
                match self.variables.get(word.as_str(), &self.settings) {
                    Resolved::Value(Object::Keyword(_)) => {
                        self.tokenizer.new_program(word);
                        proof {
                            assert(self@ =~= expand_previous_spec(s).state);
                        }
                        StepAction::Continue
                    },
                    Resolved::Value(Object::Text(text)) => {
                        let mut temp = Tokenizer::new();
                        temp.new_program(text);
                        proof {
                            assert(temp@ =~= seq![ctx_of(text@)]);
                        }
                        let mut words = temp.read_all_words(&self.settings);
                        proof {
                            assert(words.deep_view() == tokenize_all_spec(
                                seq![ctx_of(text@)],
                                s.cfg,
                            ));
                        }
                        let ghost p_before = self.primary.deep_view();
                        self.primary.append(&mut words);
                        proof {
                            assert(self.primary.deep_view() =~= p_before + tokenize_all_spec(
                                seq![ctx_of(text@)],
                                s.cfg,
                            ));
                            assert(self@ =~= expand_previous_spec(s).state);
                        }
                        StepAction::Continue
                    },
                    Resolved::FileRead => {
                        let path = self.variables.file_path();
                        self.pending = Pending::ExpandWords;
                        proof {
                            assert(self@ =~= expand_previous_spec(s).state);
                        }
                        StepAction::ReadFile(path)
                    },
                    Resolved::FatalInput => {
                        proof {
                            assert(self@ =~= expand_previous_spec(s).state);
                        }
                        StepAction::FatalInput
                    },
                    Resolved::FatalNonBlockingInput => {
                        proof {
                            assert(self@ =~= expand_previous_spec(s).state);
                        }
                        StepAction::FatalNonBlockingInput
                    },
                }
            },
            Instruction::CrazySwap => {
                let t1 = self.tokenizer.next_word(&self.settings);
                let t2 = self.tokenizer.next_word(&self.settings);
                let b1 = self.primary.pop();
                let b2 = self.primary.pop();
                match b2 {
                    Some(w2) => self.tokenizer.new_program(w2),
                    None => (),
                }
                match b1 {
                    Some(w1) => self.tokenizer.new_program(w1),
                    None => (),
                }
                match t2 {
                    Some(x2) => self.primary.push(x2),
                    None => (),
                }
                match t1 {
                    Some(x1) => self.primary.push(x1),
                    None => (),
                }
                proof {
                    assert(self@ =~= crazy_swap_spec(s).state);
                }
                StepAction::Continue
            },
            Instruction::JoinValues => {
                match self.primary.pop() {
                    None => {
                        proof {
                            assert(self@ =~= (InterpModel {
                                primary: join_values_spec(s.primary),
                                ..s
                            }));
                        }
                        StepAction::Continue
                    },
                    Some(a) => {
                        match self.primary.pop() {
                            None => {
                                self.primary.push(a);
                                proof {
                                    assert(self.primary.deep_view() =~= s.primary);
                                    assert(self@ =~= (InterpModel {
                                        primary: join_values_spec(s.primary),
                                        ..s
                                    }));
                                }
                                StepAction::Continue
                            },
                            Some(b) => {
                                let joined = b.concat(a.as_str());
                                self.primary.push(joined);
                                proof {
                                    assert(self.primary.deep_view() =~= join_values_spec(
                                        s.primary,
                                    ));
                                    assert(self@ =~= (InterpModel {
                                        primary: join_values_spec(s.primary),
                                        ..s
                                    }));
                                }
                                StepAction::Continue
                            },
                        }
                    },
                }
            },
            Instruction::EndLine => {
                proof {
                    reveal_strlit(" ");
                    assert(" "@ =~= seq![' ']);
                }
                let value = join_strings(&self.primary, " ");
                let identifier = join_strings(&self.secondary, " ");
                proof {
                    assert(value@ == join_with(s.primary, seq![' ']));
                    assert(identifier@ == join_with(s.secondary, seq![' ']));
                }
                let eff = self.variables.set(identifier, value, &mut self.settings);
                match eff {
                    SetEffect::FatalConsole => {
                        proof {
                            assert(self@ =~= end_line_spec(s).state);
                        }
                        StepAction::FatalConsole
                    },
                    SetEffect::FatalFileWrite => {
                        proof {
                            assert(self@ =~= end_line_spec(s).state);
                        }
                        StepAction::FatalFileWrite
                    },
                    SetEffect::Output(o) => {
                        self.primary.clear();
                        self.secondary.clear();
                        proof {
                            assert(self.primary.deep_view() =~= Seq::<Seq<char>>::empty());
                            assert(self.secondary.deep_view() =~= Seq::<Seq<char>>::empty());
                            assert(self@ =~= end_line_spec(s).state);
                        }
                        StepAction::Output(o)
                    },
                    SetEffect::Done => {
                        self.primary.clear();
                        self.secondary.clear();
                        proof {
                            assert(self.primary.deep_view() =~= Seq::<Seq<char>>::empty());
                            assert(self.secondary.deep_view() =~= Seq::<Seq<char>>::empty());
                            assert(self@ =~= end_line_spec(s).state);
                        }
                        StepAction::Continue
                    },
                }
            },
            Instruction::DereferenceLast => {
                let plen = self.primary.len();
                if plen == 0 {
                    proof {
                        assert(self@ =~= deref_last_spec(s).state);
                    }
                    return StepAction::Continue;
                }
                let name = self.primary[plen - 1].clone();
                proof {
                    assert(name@ == s.primary.last());
                }
                match self.variables.get(name.as_str(), &self.settings) {
                    Resolved::Value(Object::Text(text)) => {
                        match self.variables.get(text.as_str(), &self.settings) {
                            Resolved::Value(obj) => {
                                self.variables.set_object(name, obj);
                                proof {
                                    assert(self@ =~= deref_last_spec(s).state);
                                }
                                StepAction::Continue
                            },
                            Resolved::FileRead => {
                                let path = self.variables.file_path();
                                self.pending = Pending::DerefStore(name);
                                proof {
                                    assert(self@ =~= deref_last_spec(s).state);
                                }
                                StepAction::ReadFile(path)
                            },
                            Resolved::FatalInput => StepAction::FatalInput,
                            Resolved::FatalNonBlockingInput => StepAction::FatalNonBlockingInput,
                        }
                    },
                    Resolved::Value(Object::Keyword(_)) => {
                        proof {
                            assert(self@ =~= deref_last_spec(s).state);
                        }
                        StepAction::Continue
                    },
                    Resolved::FileRead => {
                        let path = self.variables.file_path();
                        self.pending = Pending::DerefLookup(name);
                        proof {
                            assert(self@ =~= deref_last_spec(s).state);
                        }
                        StepAction::ReadFile(path)
                    },
                    Resolved::FatalInput => StepAction::FatalInput,
                    Resolved::FatalNonBlockingInput => StepAction::FatalNonBlockingInput,
                }
            },
            Instruction::IfLess => {
                let top = self.primary.pop();
                let next = self.primary.pop();
                let skip = match (top, next) {
                    (None, None) => true,
                    (Some(_), None) => false,
                    (Some(t), Some(n)) => !str_less_than(n, t),
                    (None, Some(_)) => false,
                };
                if skip {
                    let _ = self.tokenizer.next_word(&self.settings);
                }
                proof {
                    assert(self@ =~= if_less_spec(s).state);
                }
                StepAction::Continue
            },
        }
    }

    /// One step of the run: read a word, resolve it, and either perform its
    /// instruction or expand it as new source.  Returns what the host must
    /// do before (or instead of) the next step.
    pub fn step(&mut self) -> (act: StepAction)
        requires
            old(self).wf(),
            old(self)@.pending is Idle,
        ensures
            final(self).wf(),
            final(self)@ == spec_step(old(self)@).state,
            act@ == spec_step(old(self)@).action,
    {
        let ghost s0 = self@;
        let word = match self.tokenizer.next_word(&self.settings) {
            Some(w) => w,
            None => {
                proof {
                    assert(self@ =~= spec_step(s0).state);
                }
                return StepAction::Done;
            },
        };
        let ghost s1 = self@;
        proof {
            let res = next_word_spec(s0.stack, s0.cfg)->0;
            assert(s1 =~= (InterpModel { stack: res.1, ..s0 }));
            assert(word@ == res.0);
            assert(spec_step(s0) == dispatch_spec(s1, word@));
        }
        match self.variables.get(word.as_str(), &self.settings) {
            Resolved::Value(Object::Text(text)) => {
                self.tokenizer.new_program(text);
                proof {
                    assert(self@ =~= dispatch_spec(s1, word@).state);
                }
                StepAction::Continue
            },
            Resolved::Value(Object::Keyword(op)) => self.run_instruction(op),
            Resolved::FileRead => {
                let path = self.variables.file_path();
                self.pending = Pending::PushSource;
                proof {
                    assert(self@ =~= dispatch_spec(s1, word@).state);
                }
                StepAction::ReadFile(path)
            },
            Resolved::FatalInput => StepAction::FatalInput,
            Resolved::FatalNonBlockingInput => StepAction::FatalNonBlockingInput,
        }
    }

    /// Finish an outstanding file read: hand back the contents of the file
    /// the last action asked for (empty text if it was unreadable).
    pub fn resume_file(&mut self, contents: String) -> (act: StepAction)
        requires
            old(self).wf(),
            !(old(self)@.pending is Idle),
        ensures
            final(self).wf(),
            final(self)@ == spec_resume(old(self)@, contents@).state,
            act@ == spec_resume(old(self)@, contents@).action,
    {
        let ghost s = self@;
        let mut pending = Pending::Idle;
        core::mem::swap(&mut self.pending, &mut pending);
        match pending {
            Pending::Idle => {
                proof {
                    assert(self@ =~= spec_resume(s, contents@).state);
                }
                StepAction::Continue
            },
            Pending::PushSource => {
                self.tokenizer.new_program(contents);
                proof {
                    assert(self@ =~= spec_resume(s, contents@).state);
                }
                StepAction::Continue
            },
            Pending::ExpandWords => {
                let mut temp = Tokenizer::new();
                temp.new_program(contents);
                proof {
                    assert(temp@ =~= seq![ctx_of(contents@)]);
                }
                let mut words = temp.read_all_words(&self.settings);
                let ghost p_before = self.primary.deep_view();
                self.primary.append(&mut words);
                proof {
                    assert(self.primary.deep_view() =~= p_before + tokenize_all_spec(
                        seq![ctx_of(contents@)],
                        s.cfg,
                    ));
                    assert(self@ =~= spec_resume(s, contents@).state);
                }
                StepAction::Continue
            },
            Pending::DerefLookup(name) => {
                match self.variables.get(contents.as_str(), &self.settings) {
                    Resolved::Value(obj) => {
                        self.variables.set_object(name, obj);
                        proof {
                            assert(self@ =~= spec_resume(s, contents@).state);
                        }
                        StepAction::Continue
                    },
                    Resolved::FileRead => {
                        let path = self.variables.file_path();
                        self.pending = Pending::DerefStore(name);
                        proof {
                            assert(self@ =~= spec_resume(s, contents@).state);
                        }
                        StepAction::ReadFile(path)
                    },
                    Resolved::FatalInput => StepAction::FatalInput,
                    Resolved::FatalNonBlockingInput => StepAction::FatalNonBlockingInput,
                }
            },
            Pending::DerefStore(name) => {
                self.variables.set_object(name, Object::Text(contents));
                proof {
                    assert(self@ =~= spec_resume(s, contents@).state);
                }
                StepAction::Continue
            },
        }
    }
}

} // verus!

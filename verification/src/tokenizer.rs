//! The tokenizer: a stack of layered text sources ("program contexts"),
//! each with its own read cursor, producing one word at a time from the
//! topmost active context under a runtime-reconfigurable character
//! classification.

use crate::strings::{chars_of, str_contains_char, string_from_chars};
use vstd::prelude::*;
use vstd::string::*;

verus! {

/// Mathematical model of the lexer configuration: the three character sets.
#[verifier::ext_equal]
pub struct LexCfg {
    /// Characters that always tokenize alone.
    pub uniques: Seq<char>,
    /// Characters that delimit words and are discarded.
    pub separators: Seq<char>,
    /// The separator used when joining words back into text.
    pub primary_separator: Seq<char>,
}

/// The character classification used while producing the next word: the
/// unique single-character tokens, the separators, and the primary
/// separator used to join words back into text.  All three are mutable at
/// runtime through the environment's system-variable layer.
pub struct LexerSettings {
    uniques: String,
    separators: String,
    primary_separator: String,
}

impl View for LexerSettings {
    type V = LexCfg;

    closed spec fn view(&self) -> LexCfg {
        LexCfg {
            uniques: self.uniques@,
            separators: self.separators@,
            primary_separator: self.primary_separator@,
        }
    }
}

/// The initial configuration: no uniques, the standard ASCII whitespace
/// separators, and a single space as the primary separator.
pub open spec fn default_cfg() -> LexCfg {
    LexCfg {
        uniques: Seq::empty(),
        separators: seq!['\t', '\n', '\x0c', '\r', ' '],
        primary_separator: seq![' '],
    }
}

impl Default for LexerSettings {
    fn default() -> (d: Self)
        ensures
            d@ == default_cfg(),
    {
        let u = String::new();
        let s = "\t\n\x0c\r ".to_owned();
        let p = " ".to_owned();
        proof {
            reveal_strlit("\t\n\x0c\r ");
            reveal_strlit(" ");
            assert(s@ =~= default_cfg().separators);
            assert(p@ =~= default_cfg().primary_separator);
        }
        LexerSettings { uniques: u, separators: s, primary_separator: p }
    }
}

impl LexerSettings {
    /// The current set of unique single-character tokens.
    pub fn get_uniques(&self) -> (r: String)
        ensures
            r@ == self@.uniques,
    {
        self.uniques.clone()
    }

    /// Replace the set of unique single-character tokens.
    pub fn set_uniques(&mut self, value: String)
        ensures
            final(self)@ == (LexCfg { uniques: value@, ..old(self)@ }),
    {
        self.uniques = value;
    }

    /// The current set of separator characters.
    pub fn get_separators(&self) -> (r: String)
        ensures
            r@ == self@.separators,
    {
        self.separators.clone()
    }

    /// Replace the set of separator characters.
    pub fn set_separators(&mut self, value: String)
        ensures
            final(self)@ == (LexCfg { separators: value@, ..old(self)@ }),
    {
        self.separators = value;
    }

    /// The current primary separator.
    pub fn get_primary_sep(&self) -> (r: String)
        ensures
            r@ == self@.primary_separator,
    {
        self.primary_separator.clone()
    }

    /// Replace the primary separator.
    pub fn set_primary_sep(&mut self, value: String)
        ensures
            final(self)@ == (LexCfg { primary_separator: value@, ..old(self)@ }),
    {
        self.primary_separator = value;
    }
}

/// Whether `c` delimits words under `cfg`.
pub open spec fn is_sep(cfg: LexCfg, c: char) -> bool {
    cfg.separators.contains(c)
}

/// Whether `c` always tokenizes alone under `cfg`.
pub open spec fn is_unique(cfg: LexCfg, c: char) -> bool {
    cfg.uniques.contains(c)
}

/// Mathematical model of one program context: its text and the index of the
/// next unread character.
#[verifier::ext_equal]
pub struct Ctx {
    /// The characters of this text source.
    pub text: Seq<char>,
    /// Index of the next unread character; `text.len()` once exhausted.
    pub cur: int,
}

/// A fresh context over `text`, cursor at the start.
pub open spec fn ctx_of(text: Seq<char>) -> Ctx {
    Ctx { text, cur: 0 }
}

/// Every cursor lies within its text.
pub open spec fn stack_wf(stack: Seq<Ctx>) -> bool {
    forall|i: int| 0 <= i < stack.len() ==> 0 <= #[trigger] stack[i].cur <= stack[i].text.len()
}

/// The first index at or after `i` holding a non-separator character, or the
/// text's length if separators run to the end.
pub open spec fn skip_seps(text: Seq<char>, i: int, cfg: LexCfg) -> int
    recommends
        0 <= i <= text.len(),
    decreases text.len() - i,
{
    if i >= text.len() {
        i
    } else if is_sep(cfg, text[i]) {
        skip_seps(text, i + 1, cfg)
    } else {
        i
    }
}

/// The first index at or after `i` holding a separator or unique character,
/// or the text's length: where the word that started before `i` ends.
pub open spec fn word_end(text: Seq<char>, i: int, cfg: LexCfg) -> int
    recommends
        0 <= i <= text.len(),
    decreases text.len() - i,
{
    if i >= text.len() {
        i
    } else if is_sep(cfg, text[i]) || is_unique(cfg, text[i]) {
        i
    } else {
        word_end(text, i + 1, cfg)
    }
}

pub proof fn lemma_skip_seps_bounds(text: Seq<char>, i: int, cfg: LexCfg)
    requires
        0 <= i <= text.len(),
    ensures
        i <= skip_seps(text, i, cfg) <= text.len(),
    decreases text.len() - i,
{
    if i < text.len() && is_sep(cfg, text[i]) {
        lemma_skip_seps_bounds(text, i + 1, cfg);
    }
}

pub proof fn lemma_word_end_bounds(text: Seq<char>, i: int, cfg: LexCfg)
    requires
        0 <= i <= text.len(),
    ensures
        i <= word_end(text, i, cfg) <= text.len(),
    decreases text.len() - i,
{
    if i < text.len() && !(is_sep(cfg, text[i]) || is_unique(cfg, text[i])) {
        lemma_word_end_bounds(text, i + 1, cfg);
    }
}

/// What one call of `next_word` does to a context stack: either the next
/// word together with the stack as it remains after producing it, or `None`
/// when every context is exhausted.
pub open spec fn next_word_spec(stack: Seq<Ctx>, cfg: LexCfg) -> Option<(Seq<char>, Seq<Ctx>)>
    decreases stack.len(),
{
    if stack.len() == 0 {
        None
    } else {
        let top = stack.last();
        let rest = stack.drop_last();
        let j = skip_seps(top.text, top.cur, cfg);
        if j >= top.text.len() {
            next_word_spec(rest, cfg)
        } else if is_unique(cfg, top.text[j]) {
            Some((seq![top.text[j]], rest.push(Ctx { text: top.text, cur: j + 1 })))
        } else {
            let k = word_end(top.text, j + 1, cfg);
            if k >= top.text.len() {
                Some((top.text.subrange(j, k), rest))
            } else {
                Some((top.text.subrange(j, k), rest.push(Ctx { text: top.text, cur: k })))
            }
        }
    }
}

/// A unique character always tokenizes alone: when the top context's first
/// character past the leading separators belongs to the current uniques,
/// the next word is exactly that one-character string, whatever follows it.
pub proof fn lemma_unique_tokenizes_alone(stack: Seq<Ctx>, cfg: LexCfg)
    requires
        stack.len() > 0,
        stack_wf(stack),
        ({
            let top = stack.last();
            let j = skip_seps(top.text, top.cur, cfg);
            j < top.text.len() && is_unique(cfg, top.text[j])
        }),
    ensures
        ({
            let top = stack.last();
            let j = skip_seps(top.text, top.cur, cfg);
            next_word_spec(stack, cfg) == Some(
                (seq![top.text[j]], stack.drop_last().push(Ctx { text: top.text, cur: j + 1 })),
            )
        }),
{
}

/// Total number of unread characters, plus one per context: the measure that
/// every produced word strictly shrinks.
pub open spec fn ctx_measure(stack: Seq<Ctx>) -> int
    decreases stack.len(),
{
    if stack.len() == 0 {
        0
    } else {
        ctx_measure(stack.drop_last()) + (stack.last().text.len() - stack.last().cur + 1)
    }
}

pub proof fn lemma_ctx_measure_nonneg(stack: Seq<Ctx>)
    requires
        stack_wf(stack),
    ensures
        ctx_measure(stack) >= 0,
    decreases stack.len(),
{
    if stack.len() > 0 {
        assert(stack_wf(stack.drop_last())) by {
            assert(forall|i: int|
                0 <= i < stack.drop_last().len() ==> stack.drop_last()[i] == stack[i]);
        }
        lemma_ctx_measure_nonneg(stack.drop_last());
        assert(stack.last().cur <= stack.last().text.len());
    }
}

pub proof fn lemma_ctx_measure_push(stack: Seq<Ctx>, c: Ctx)
    ensures
        ctx_measure(stack.push(c)) == ctx_measure(stack) + (c.text.len() - c.cur + 1),
{
    assert(stack.push(c).drop_last() =~= stack);
    assert(stack.push(c).last() == c);
}

/// Producing a word keeps the stack well formed and strictly shrinks its
/// measure.
pub proof fn lemma_next_word_decreases(stack: Seq<Ctx>, cfg: LexCfg)
    requires
        stack_wf(stack),
    ensures
        (match next_word_spec(stack, cfg) {
            Some(res) => stack_wf(res.1) && ctx_measure(res.1) < ctx_measure(stack) && ctx_measure(
                res.1,
            ) >= 0,
            None => true,
        }),
    decreases stack.len(),
{
    if stack.len() > 0 {
        let top = stack.last();
        let rest = stack.drop_last();
        assert(stack_wf(rest)) by {
            assert(forall|i: int| 0 <= i < rest.len() ==> rest[i] == stack[i]);
        }
        lemma_ctx_measure_nonneg(rest);
        assert(0 <= top.cur <= top.text.len());
        let j = skip_seps(top.text, top.cur, cfg);
        lemma_skip_seps_bounds(top.text, top.cur, cfg);
        if j >= top.text.len() {
            lemma_next_word_decreases(rest, cfg);
            assert(ctx_measure(stack) == ctx_measure(rest) + (top.text.len() - top.cur + 1));
            lemma_ctx_measure_nonneg(rest);
        } else if is_unique(cfg, top.text[j]) {
            let pushed = Ctx { text: top.text, cur: j + 1 };
            lemma_ctx_measure_push(rest, pushed);
            lemma_ctx_measure_nonneg(rest);
            assert(stack_wf(rest.push(pushed))) by {
                assert(forall|i: int|
                    0 <= i < rest.len() ==> #[trigger] rest.push(pushed)[i] == rest[i]);
            }
        } else {
            let k = word_end(top.text, j + 1, cfg);
            lemma_word_end_bounds(top.text, j + 1, cfg);
            if k >= top.text.len() {
                lemma_ctx_measure_nonneg(rest);
            } else {
                let pushed = Ctx { text: top.text, cur: k };
                lemma_ctx_measure_push(rest, pushed);
                lemma_ctx_measure_nonneg(rest);
                assert(stack_wf(rest.push(pushed))) by {
                    assert(forall|i: int|
                        0 <= i < rest.len() ==> #[trigger] rest.push(pushed)[i] == rest[i]);
                }
            }
        }
    }
}

/// Every word the stack still holds, in the order `next_word` would produce
/// them.
pub open spec fn tokenize_all_spec(stack: Seq<Ctx>, cfg: LexCfg) -> Seq<Seq<char>>
    decreases ctx_measure(stack),
    when stack_wf(stack)
    via tokenize_all_spec_decreases
{
    match next_word_spec(stack, cfg) {
        None => Seq::empty(),
        Some(res) => seq![res.0] + tokenize_all_spec(res.1, cfg),
    }
}

#[via_fn]
proof fn tokenize_all_spec_decreases(stack: Seq<Ctx>, cfg: LexCfg) {
    lemma_next_word_decreases(stack, cfg);
    lemma_ctx_measure_nonneg(stack);
}

/// One text source and its read cursor; one layer of the tokenizer's
/// nesting stack.
struct PointedProgram {
    program: Vec<char>,
    pointer: usize,
}

impl View for PointedProgram {
    type V = Ctx;

    closed spec fn view(&self) -> Ctx {
        Ctx { text: self.program@, cur: self.pointer as int }
    }
}

impl PointedProgram {
    spec fn wf(&self) -> bool {
        self@.cur <= self@.text.len()
    }

    fn new(program: String) -> (p: Self)
        ensures
            p.wf(),
            p@ == ctx_of(program@),
    {
        PointedProgram { program: chars_of(program.as_str()), pointer: 0 }
    }

    fn current_char(&self) -> (r: Option<char>)
        requires
            self.wf(),
        ensures
            (match r {
                Some(c) => self@.cur < self@.text.len() && c == self@.text[self@.cur],
                None => self@.cur == self@.text.len(),
            }),
    {
        if self.pointer < self.program.len() {
            Some(self.program[self.pointer])
        } else {
            None
        }
    }

    fn increment_pointer(&mut self)
        requires
            old(self).wf(),
            old(self)@.cur < old(self)@.text.len(),
        ensures
            final(self).wf(),
            final(self)@ == (Ctx { text: old(self)@.text, cur: old(self)@.cur + 1 }),
    {
        let n = self.program.len();
        proof {
            assert(self.pointer < n);
        }
        self.pointer += 1;
    }
}

/// The tokenizer: a last-in-first-out stack of program contexts.  Words come
/// from the most recently pushed context; an exhausted context is discarded
/// and reading falls through to the one beneath.
pub struct Tokenizer {
    programs: Vec<PointedProgram>,
}

impl View for Tokenizer {
    type V = Seq<Ctx>;

    closed spec fn view(&self) -> Seq<Ctx> {
        Seq::new(self.programs@.len() as nat, |i: int| self.programs@[i]@)
    }
}

impl Tokenizer {
    /// Every context's cursor lies within its text.
    pub open spec fn wf(&self) -> bool {
        stack_wf(self@)
    }

    /// An empty tokenizer: no context, no words.
    pub fn new() -> (t: Tokenizer)
        ensures
            t.wf(),
            t@ =~= Seq::<Ctx>::empty(),
    {
        Tokenizer { programs: Vec::new() }
    }

    /// Push `program` as a new topmost text source: its words come first,
    /// and reading falls through to the contexts beneath once it is
    /// exhausted.
    pub fn new_program(&mut self, program: String)
        requires
            old(self).wf(),
        ensures
            final(self).wf(),
            final(self)@ =~= old(self)@.push(ctx_of(program@)),
    {
        let p = PointedProgram::new(program);
        self.programs.push(p);
        proof {
            assert(self@ =~= old(self)@.push(ctx_of(program@)));
        }
    }

    /// Produce the next word under `settings`, or `None` once every context
    /// is exhausted (in which case all of them have been discarded).
    pub fn next_word(&mut self, settings: &LexerSettings) -> (r: Option<String>)
        requires
            old(self).wf(),
        ensures
            final(self).wf(),
            (match next_word_spec(old(self)@, settings@) {
                Some(res) => r matches Some(w) && w@ == res.0 && final(self)@ == res.1,
                None => r matches None && final(self)@ =~= Seq::<Ctx>::empty(),
            }),
    {
        loop
            invariant
                self.wf(),
                next_word_spec(self@, settings@) == next_word_spec(old(self)@, settings@),
            decreases self.programs.len(),
        {
            let ghost st0 = self@;
            let mut program = match self.programs.pop() {
                Some(p) => p,
                None => {
                    return None;
                },
            };
            proof {
                assert(st0.len() > 0);
                assert(program@ == st0.last());
                assert(self@ =~= st0.drop_last());
            }
            let ghost top = st0.last();
            let ghost rest = st0.drop_last();
            let ghost jstart = program@.cur;
            // Skip leading separator characters.
            loop
                invariant
                    program.wf(),
                    program@.text == top.text,
                    0 <= jstart <= program@.cur,
                    skip_seps(top.text, jstart, settings@) == skip_seps(
                        top.text,
                        program@.cur,
                        settings@,
                    ),
                ensures
                    program.wf(),
                    program@.text == top.text,
                    skip_seps(top.text, jstart, settings@) == program@.cur,
                    program@.cur == top.text.len() || !is_sep(settings@, top.text[program@.cur]),
                decreases top.text.len() - program@.cur,
            {
                match program.current_char() {
                    None => {
                        break ;
                    },
                    Some(c) => {
                        if str_contains_char(separators_str(settings), c) {
                            program.increment_pointer();
                        } else {
                            break ;
                        }
                    },
                }
            }
            let ghost j = program@.cur;
            let c = match program.current_char() {
                None => {
                    // This context is exhausted: discard it and fall through
                    // to the one beneath.
                    proof {
                        assert(next_word_spec(st0, settings@) == next_word_spec(rest, settings@));
                    }
                    continue ;
                },
                Some(c) => c,
            };
            proof {
                assert(c == top.text[j]);
            }
            if str_contains_char(uniques_str(settings), c) {
                // A unique character tokenizes alone; the context goes back
                // with its cursor just past it.
                program.increment_pointer();
                self.programs.push(program);
                let mut w: Vec<char> = Vec::new();
                w.push(c);
                proof {
                    assert(self@ =~= rest.push(Ctx { text: top.text, cur: j + 1 }));
                    assert(w@ =~= seq![top.text[j]]);
                }
                return Some(string_from_chars(&w));
            }
            // Accumulate word characters until a separator, a unique
            // character, or the end of the context.
            let mut word: Vec<char> = Vec::new();
            word.push(c);
            program.increment_pointer();
            proof {
                assert(word@ =~= top.text.subrange(j, j + 1));
            }
            loop
                invariant
                    program.wf(),
                    program@.text == top.text,
                    0 <= j,
                    j + 1 <= program@.cur <= top.text.len(),
                    word@ == top.text.subrange(j, program@.cur),
                    word_end(top.text, j + 1, settings@) == word_end(
                        top.text,
                        program@.cur,
                        settings@,
                    ),
                ensures
                    program.wf(),
                    program@.text == top.text,
                    word@ == top.text.subrange(j, program@.cur),
                    word_end(top.text, j + 1, settings@) == program@.cur,
                    program@.cur == top.text.len() || is_sep(settings@, top.text[program@.cur])
                        || is_unique(settings@, top.text[program@.cur]),
                decreases top.text.len() - program@.cur,
            {
                match program.current_char() {
                    None => {
                        break ;
                    },
                    Some(c2) => {
                        if str_contains_char(separators_str(settings), c2) || str_contains_char(
                            uniques_str(settings),
                            c2,
                        ) {
                            break ;
                        }
                        let ghost cur0 = program@.cur;
                        word.push(c2);
                        program.increment_pointer();
                        proof {
                            assert(word@ =~= top.text.subrange(j, cur0 + 1));
                        }
                    },
                }
            }
            let exhausted = match program.current_char() {
                None => true,
                Some(_) => false,
            };
            let ghost k = program@.cur;
            if !exhausted {
                // The boundary character is not consumed; the context goes
                // back at the current cursor.
                self.programs.push(program);
                proof {
                    assert(self@ =~= rest.push(Ctx { text: top.text, cur: k }));
                }
            }
            return Some(string_from_chars(&word));
        }
    }

    /// Read every remaining word, in order, leaving the tokenizer empty.
    pub fn read_all_words(&mut self, settings: &LexerSettings) -> (words: Vec<String>)
        requires
            old(self).wf(),
        ensures
            final(self).wf(),
            final(self)@ =~= Seq::<Ctx>::empty(),
            words.deep_view() == tokenize_all_spec(old(self)@, settings@),
    {
        let mut words: Vec<String> = Vec::new();
        loop
            invariant
                self.wf(),
                stack_wf(old(self)@),
                tokenize_all_spec(old(self)@, settings@) == words.deep_view() + tokenize_all_spec(
                    self@,
                    settings@,
                ),
            ensures
                self.wf(),
                self@ =~= Seq::<Ctx>::empty(),
                words.deep_view() == tokenize_all_spec(old(self)@, settings@),
            decreases ctx_measure(self@),
        {
            let ghost pre = self@;
            let ghost words_pre = words.deep_view();
            proof {
                lemma_next_word_decreases(pre, settings@);
                lemma_ctx_measure_nonneg(pre);
            }
            let w = match self.next_word(settings) {
                Some(w) => w,
                None => {
                    proof {
                        assert(tokenize_all_spec(pre, settings@) == Seq::<Seq<char>>::empty());
                        assert(words_pre + Seq::<Seq<char>>::empty() =~= words_pre);
                        assert(tokenize_all_spec(self@, settings@) == Seq::<Seq<char>>::empty());
                        assert(words_pre + tokenize_all_spec(self@, settings@) =~= words_pre);
                    }
                    break ;
                },
            };
            words.push(w);
            proof {
                let res = next_word_spec(pre, settings@)->0;
                assert(tokenize_all_spec(pre, settings@) == seq![res.0] + tokenize_all_spec(
                    res.1,
                    settings@,
                ));
                assert(words.deep_view() =~= words_pre.push(w@));
                assert(words_pre.push(w@) + tokenize_all_spec(self@, settings@) =~= words_pre + (
                seq![res.0] + tokenize_all_spec(res.1, settings@)));
            }
        }
        words
    }
}

/// The separator set of `settings`, as a borrowed string.
fn separators_str(settings: &LexerSettings) -> (r: &str)
    ensures
        r@ == settings@.separators,
{
    settings.separators.as_str()
}

/// The uniques of `settings`, as a borrowed string.
fn uniques_str(settings: &LexerSettings) -> (r: &str)
    ensures
        r@ == settings@.uniques,
{
    settings.uniques.as_str()
}

} // verus!

//! The variable/environment store: a name-to-value mapping plus cached
//! scalar fields, with a reserved system-variable namespace whose reads and
//! writes are dispatched through fixed tables.
//!
//! Reads of a system variable may need host help (the contents of the file
//! at the current path) or must stop the run (unimplemented input); writes
//! may need host output.  Those effects are returned as values; the caller
//! performs them.

use crate::strings::{has_prefix, str_eq};
use crate::tokenizer::{LexCfg, LexerSettings};
use vstd::prelude::*;
use vstd::string::*;

verus! {

/// The eight builtin opcodes.  No payload.
#[derive(Clone, Copy, Debug, PartialEq, Eq, Structural)]
pub enum Instruction {
    /// Exchange the primary and secondary buffers in their entirety.
    SwapBuffer,
    /// Append the next raw word to the primary buffer.
    SkipNext,
    /// Pop the top of the primary buffer and re-expand it.
    ExpandPrevious,
    /// Interleave the next two raw words with the top two buffer entries.
    CrazySwap,
    /// Concatenate the top two entries of the primary buffer.
    JoinValues,
    /// Assign joined primary to joined secondary and clear both buffers.
    EndLine,
    /// Replace the top name's entry with its double dereference.
    DereferenceLast,
    /// Skip the next token unless next-under-top is less than top.
    IfLess,
}

/// A stored value: literal text, or a builtin instruction.
#[derive(Debug)]
pub enum Object {
    /// Stored text, pushed back as new source when executed.
    Text(String),
    /// A builtin instruction.
    Keyword(Instruction),
}

/// Mathematical model of an [`Object`].
pub enum ObjectModel {
    /// Stored text.
    Text(Seq<char>),
    /// A builtin instruction.
    Keyword(Instruction),
}

impl View for Object {
    type V = ObjectModel;

    open spec fn view(&self) -> ObjectModel {
        match self {
            Object::Text(s) => ObjectModel::Text(s@),
            Object::Keyword(i) => ObjectModel::Keyword(*i),
        }
    }
}

impl Clone for Object {
    fn clone(&self) -> (o: Self)
        ensures
            o@ == self@,
    {
        match self {
            Object::Text(s) => Object::Text(s.clone()),
            Object::Keyword(i) => Object::Keyword(*i),
        }
    }
}

/// What resolving a name yields: a value, a request for the contents of the
/// file at the current path, or a fatal stop on an unimplemented capability.
#[derive(Debug)]
pub enum Resolved {
    /// The name resolved to a value.
    Value(Object),
    /// The name reads the current file: the caller must supply its contents
    /// (empty text if unreadable).
    FileRead,
    /// Blocking input is not implemented: the run must stop.
    FatalInput,
    /// Non-blocking input is not implemented: the run must stop.
    FatalNonBlockingInput,
}

/// Mathematical model of a [`Resolved`].
pub enum ResolvedModel {
    /// The name resolved to a value.
    Value(ObjectModel),
    /// The caller must supply the current file's contents.
    FileRead,
    /// Blocking input is not implemented.
    FatalInput,
    /// Non-blocking input is not implemented.
    FatalNonBlockingInput,
}

impl View for Resolved {
    type V = ResolvedModel;

    open spec fn view(&self) -> ResolvedModel {
        match self {
            Resolved::Value(o) => ResolvedModel::Value(o@),
            Resolved::FileRead => ResolvedModel::FileRead,
            Resolved::FatalInput => ResolvedModel::FatalInput,
            Resolved::FatalNonBlockingInput => ResolvedModel::FatalNonBlockingInput,
        }
    }
}

/// The side effect a write leaves for the caller to perform.
#[derive(Debug)]
pub enum SetEffect {
    /// Nothing left to do.
    Done,
    /// Emit this text to standard output, followed by a newline.
    Output(String),
    /// Console-command execution is not implemented: the run must stop.
    FatalConsole,
    /// Writing file contents is not implemented: the run must stop.
    FatalFileWrite,
}

/// Mathematical model of a [`SetEffect`].
pub enum SetEffectModel {
    /// Nothing left to do.
    Done,
    /// Emit this text, followed by a newline.
    Output(Seq<char>),
    /// Console-command execution is not implemented.
    FatalConsole,
    /// Writing file contents is not implemented.
    FatalFileWrite,
}

impl View for SetEffect {
    type V = SetEffectModel;

    open spec fn view(&self) -> SetEffectModel {
        match self {
            SetEffect::Done => SetEffectModel::Done,
            SetEffect::Output(s) => SetEffectModel::Output(s@),
            SetEffect::FatalConsole => SetEffectModel::FatalConsole,
            SetEffect::FatalFileWrite => SetEffectModel::FatalFileWrite,
        }
    }
}

/// Mathematical model of the store: the entry list (earliest matching entry
/// wins on lookup), the cached scalar fields, and the system-variable
/// prefix.
#[verifier::ext_equal]
pub struct VarsModel {
    /// The stored bindings, looked up front to back.
    pub entries: Seq<(Seq<char>, ObjectModel)>,
    /// The identifier of the last assignment.
    pub cached_name: Seq<char>,
    /// The value of the last assignment.
    pub cached_value: Seq<char>,
    /// The current file path.
    pub file_path: Seq<char>,
    /// The current system-variable prefix.
    pub sysvar_prefix: Seq<char>,
}

/// The first binding of `key` in `entries`, front to back.
pub open spec fn lookup(entries: Seq<(Seq<char>, ObjectModel)>, key: Seq<char>) -> Option<
    ObjectModel,
>
    decreases entries.len(),
{
    if entries.len() == 0 {
        None
    } else if entries[0].0 == key {
        Some(entries[0].1)
    } else {
        lookup(entries.drop_first(), key)
    }
}

/// `entries` with the first binding of `key` replaced by `obj`, or with
/// `(key, obj)` appended when no binding exists.
pub open spec fn store(
    entries: Seq<(Seq<char>, ObjectModel)>,
    key: Seq<char>,
    obj: ObjectModel,
) -> Seq<(Seq<char>, ObjectModel)>
    decreases entries.len(),
{
    if entries.len() == 0 {
        seq![(key, obj)]
    } else if entries[0].0 == key {
        seq![(key, obj)] + entries.drop_first()
    } else {
        seq![entries[0]] + store(entries.drop_first(), key, obj)
    }
}

/// Storing binds exactly the written key and leaves every other lookup
/// unchanged.
pub proof fn lemma_lookup_store(
    entries: Seq<(Seq<char>, ObjectModel)>,
    key: Seq<char>,
    obj: ObjectModel,
    probe: Seq<char>,
)
    ensures
        lookup(store(entries, key, obj), probe) == if probe == key {
            Some(obj)
        } else {
            lookup(entries, probe)
        },
    decreases entries.len(),
{
    let stored = store(entries, key, obj);
    if entries.len() == 0 {
        assert(stored[0] == (key, obj));
        assert(stored.drop_first() =~= Seq::<(Seq<char>, ObjectModel)>::empty());
    } else if entries[0].0 == key {
        assert(stored[0] == (key, obj));
        assert(stored.drop_first() =~= entries.drop_first());
        if probe != key {
            assert(lookup(entries, probe) == lookup(entries.drop_first(), probe));
        }
    } else {
        assert(stored == seq![entries[0]] + store(entries.drop_first(), key, obj));
        assert(stored.len() > 0);
        assert(stored[0] == entries[0]);
        assert(stored.drop_first() =~= store(entries.drop_first(), key, obj));
        lemma_lookup_store(entries.drop_first(), key, obj, probe);
        if probe == entries[0].0 {
            assert(lookup(stored, probe) == Some(entries[0].1));
            assert(lookup(entries, probe) == Some(entries[0].1));
        } else {
            assert(lookup(stored, probe) == lookup(stored.drop_first(), probe));
            assert(lookup(entries, probe) == lookup(entries.drop_first(), probe));
        }
    }
}

/// Round trip: writing a name that does not carry the system-variable
/// prefix and reading it back immediately yields exactly the written text.
pub proof fn lemma_set_then_get(v: VarsModel, cfg: LexCfg, name: Seq<char>, value: Seq<char>)
    requires
        !v.sysvar_prefix.is_prefix_of(name),
    ensures
        ({
            let r = set_spec(v, cfg, name, value);
            get_spec(r.vars, r.cfg, name) == ResolvedModel::Value(ObjectModel::Text(value))
        }),
{
    let r = set_spec(v, cfg, name, value);
    assert(r.vars.sysvar_prefix == v.sysvar_prefix);
    lemma_lookup_store(v.entries, name, ObjectModel::Text(value), name);
}

/// Resolving a one-character system-variable suffix through the read table.
pub open spec fn sys_read_spec(v: VarsModel, cfg: LexCfg, sfx: Seq<char>) -> ResolvedModel {
    if sfx.len() != 1 {
        ResolvedModel::Value(ObjectModel::Text(Seq::empty()))
    } else {
        let c = sfx[0];
        if c == ':' {
            ResolvedModel::Value(ObjectModel::Keyword(Instruction::SwapBuffer))
        } else if c == '"' {
            ResolvedModel::Value(ObjectModel::Keyword(Instruction::SkipNext))
        } else if c == '!' {
            ResolvedModel::Value(ObjectModel::Keyword(Instruction::ExpandPrevious))
        } else if c == '?' {
            ResolvedModel::Value(ObjectModel::Keyword(Instruction::CrazySwap))
        } else if c == ',' {
            ResolvedModel::Value(ObjectModel::Keyword(Instruction::JoinValues))
        } else if c == ';' {
            ResolvedModel::Value(ObjectModel::Keyword(Instruction::EndLine))
        } else if c == '&' {
            ResolvedModel::Value(ObjectModel::Keyword(Instruction::DereferenceLast))
        } else if c == '<' {
            ResolvedModel::Value(ObjectModel::Keyword(Instruction::IfLess))
        } else if c == 'n' {
            ResolvedModel::Value(ObjectModel::Text(v.cached_name))
        } else if c == 'v' {
            ResolvedModel::Value(ObjectModel::Text(v.cached_value))
        } else if c == 'i' {
            ResolvedModel::FatalInput
        } else if c == 'I' {
            ResolvedModel::FatalNonBlockingInput
        } else if c == 'p' {
            ResolvedModel::Value(ObjectModel::Text(v.file_path))
        } else if c == 'f' {
            ResolvedModel::FileRead
        } else if c == 'u' {
            ResolvedModel::Value(ObjectModel::Text(cfg.uniques))
        } else if c == 's' {
            ResolvedModel::Value(ObjectModel::Text(cfg.separators))
        } else if c == 'S' {
            ResolvedModel::Value(ObjectModel::Text(cfg.primary_separator))
        } else if c == '$' {
            ResolvedModel::Value(ObjectModel::Text(v.sysvar_prefix))
        } else {
            ResolvedModel::Value(ObjectModel::Text(Seq::empty()))
        }
    }
}

/// What `get` returns: the system-variable read table when the key carries
/// the prefix, otherwise the stored binding, or empty text when absent.
pub open spec fn get_spec(v: VarsModel, cfg: LexCfg, key: Seq<char>) -> ResolvedModel {
    if v.sysvar_prefix.is_prefix_of(key) {
        sys_read_spec(v, cfg, key.skip(v.sysvar_prefix.len() as int))
    } else {
        match lookup(v.entries, key) {
            Some(o) => ResolvedModel::Value(o),
            None => ResolvedModel::Value(ObjectModel::Text(Seq::empty())),
        }
    }
}

/// The outcome of a write: the new store, the new lexer configuration, and
/// the effect left for the caller.
pub struct SetOutcome {
    /// The store after the write.
    pub vars: VarsModel,
    /// The lexer configuration after the write.
    pub cfg: LexCfg,
    /// The effect the caller must perform.
    pub effect: SetEffectModel,
}

/// Dispatching a one-character system-variable suffix through the write
/// table.  `v` already carries the updated cached name and value.
pub open spec fn sys_write_spec(
    v: VarsModel,
    cfg: LexCfg,
    sfx: Seq<char>,
    value: Seq<char>,
) -> SetOutcome {
    if sfx.len() != 1 {
        SetOutcome { vars: v, cfg, effect: SetEffectModel::Done }
    } else {
        let c = sfx[0];
        if c == 'o' {
            SetOutcome { vars: v, cfg, effect: SetEffectModel::Output(value) }
        } else if c == 'c' {
            SetOutcome { vars: v, cfg, effect: SetEffectModel::FatalConsole }
        } else if c == 'p' {
            SetOutcome {
                vars: (VarsModel { file_path: value, ..v }),
                cfg,
                effect: SetEffectModel::Done,
            }
        } else if c == 'f' {
            SetOutcome { vars: v, cfg, effect: SetEffectModel::FatalFileWrite }
        } else if c == 'u' {
            SetOutcome { vars: v, cfg: (LexCfg { uniques: value, ..cfg }), effect: SetEffectModel::Done }
        } else if c == 's' {
            SetOutcome {
                vars: v,
                cfg: (LexCfg { separators: value, ..cfg }),
                effect: SetEffectModel::Done,
            }
        } else if c == 'S' {
            SetOutcome {
                vars: v,
                cfg: (LexCfg { primary_separator: value, ..cfg }),
                effect: SetEffectModel::Done,
            }
        } else if c == '$' {
            SetOutcome {
                vars: (VarsModel { sysvar_prefix: value, ..v }),
                cfg,
                effect: SetEffectModel::Done,
            }
        } else {
            SetOutcome { vars: v, cfg, effect: SetEffectModel::Done }
        }
    }
}

/// What `set` does: always record the cached name and value, then either
/// dispatch a prefixed key through the write table or store literal text.
pub open spec fn set_spec(v: VarsModel, cfg: LexCfg, key: Seq<char>, value: Seq<char>) -> SetOutcome {
    let v1 = VarsModel { cached_name: key, cached_value: value, ..v };
    if v.sysvar_prefix.is_prefix_of(key) {
        sys_write_spec(v1, cfg, key.skip(v.sysvar_prefix.len() as int), value)
    } else {
        SetOutcome {
            vars: (VarsModel { entries: store(v1.entries, key, ObjectModel::Text(value)), ..v1 }),
            cfg,
            effect: SetEffectModel::Done,
        }
    }
}

/// What `set_object` does: writes to prefixed keys are silently ignored,
/// any other key is bound to the given value as it stands.
pub open spec fn set_object_spec(v: VarsModel, key: Seq<char>, obj: ObjectModel) -> VarsModel {
    if v.sysvar_prefix.is_prefix_of(key) {
        v
    } else {
        VarsModel { entries: store(v.entries, key, obj), ..v }
    }
}

/// The store as a fresh run begins: nothing bound, empty cached fields, and
/// `$` as the system-variable prefix.
pub open spec fn init_vars() -> VarsModel {
    VarsModel {
        entries: Seq::empty(),
        cached_name: Seq::empty(),
        cached_value: Seq::empty(),
        file_path: Seq::empty(),
        sysvar_prefix: seq!['$'],
    }
}

/// The variable store.
pub struct Variables {
    vars: Vec<(String, Object)>,
    cached_name: String,
    cached_value: String,
    file_path: String,
    sysvar_prefix: String,
}

impl View for Variables {
    type V = VarsModel;

    closed spec fn view(&self) -> VarsModel {
        VarsModel {
            entries: Seq::new(self.vars@.len(), |i: int| (self.vars@[i].0@, self.vars@[i].1@)),
            cached_name: self.cached_name@,
            cached_value: self.cached_value@,
            file_path: self.file_path@,
            sysvar_prefix: self.sysvar_prefix@,
        }
    }
}

/// No binding of `key` at an index below `i` in the modelled entries.
proof fn lemma_lookup_beyond(entries: Seq<(Seq<char>, ObjectModel)>, key: Seq<char>, i: int)
    requires
        0 <= i <= entries.len(),
        forall|j: int| 0 <= j < i ==> (#[trigger] entries[j]).0 != key,
    ensures
        lookup(entries, key) == lookup(entries.skip(i), key),
    decreases i,
{
    if i == 0 {
        assert(entries.skip(0) =~= entries);
    } else {
        lemma_lookup_beyond(entries, key, i - 1);
        let tail = entries.skip(i - 1);
        assert(tail[0] == entries[i - 1]);
        assert(entries[i - 1].0 != key);
        assert(tail.drop_first() =~= entries.skip(i));
    }
}

/// Replacing the first match in place is what `store` describes.
proof fn lemma_store_update(
    entries: Seq<(Seq<char>, ObjectModel)>,
    key: Seq<char>,
    obj: ObjectModel,
    i: int,
)
    requires
        0 <= i < entries.len(),
        entries[i].0 == key,
        forall|j: int| 0 <= j < i ==> (#[trigger] entries[j]).0 != key,
    ensures
        store(entries, key, obj) =~= entries.update(i, (key, obj)),
    decreases i,
{
    if i == 0 {
        assert(store(entries, key, obj) == seq![(key, obj)] + entries.drop_first());
    } else {
        assert(entries[0].0 != key);
        let tail = entries.drop_first();
        assert(tail[i - 1] == entries[i]);
        assert(forall|j: int| 0 <= j < i - 1 ==> (#[trigger] tail[j]) == entries[j + 1]);
        lemma_store_update(tail, key, obj, i - 1);
        assert(store(entries, key, obj) == seq![entries[0]] + store(tail, key, obj));
        assert(seq![entries[0]] + tail.update(i - 1, (key, obj)) =~= entries.update(i, (key, obj)));
    }
}

/// Appending a fresh binding is what `store` describes when no match exists.
proof fn lemma_store_append(entries: Seq<(Seq<char>, ObjectModel)>, key: Seq<char>, obj: ObjectModel)
    requires
        forall|j: int| 0 <= j < entries.len() ==> (#[trigger] entries[j]).0 != key,
    ensures
        store(entries, key, obj) =~= entries.push((key, obj)),
    decreases entries.len(),
{
    if entries.len() > 0 {
        let tail = entries.drop_first();
        assert(forall|j: int| 0 <= j < tail.len() ==> (#[trigger] tail[j]) == entries[j + 1]);
        lemma_store_append(tail, key, obj);
        assert(seq![entries[0]] + tail.push((key, obj)) =~= entries.push((key, obj)));
    }
}

impl Variables {
    /// A fresh store: nothing bound, empty cached fields, prefix `$`.
    pub fn new() -> (v: Variables)
        ensures
            v@ == init_vars(),
    {
        let prefix = "$".to_owned();
        proof {
            reveal_strlit("$");
            assert(prefix@ =~= seq!['$']);
        }
        let v = Variables {
            vars: Vec::new(),
            cached_name: String::new(),
            cached_value: String::new(),
            file_path: String::new(),
            sysvar_prefix: prefix,
        };
        proof {
            assert(v@ =~= init_vars());
        }
        v
    }

    /// Bind `key` to `obj`, replacing the first existing binding or
    /// appending a fresh one.
    fn store_entry(&mut self, key: String, obj: Object)
        ensures
            final(self)@ == (VarsModel { entries: store(old(self)@.entries, key@, obj@), ..old(
                self,
            )@ }),
    {
        let ghost entries0 = self@.entries;
        let n = self.vars.len();
        let mut i: usize = 0;
        while i < n
            invariant
                i <= n,
                n == self.vars.len(),
                *self == *old(self),
                entries0 == self@.entries,
                forall|j: int| 0 <= j < i ==> (#[trigger] self@.entries[j]).0 != key@,
            decreases n - i,
        {
            if str_eq(self.vars[i].0.as_str(), key.as_str()) {
                proof {
                    assert(self@.entries[i as int].0 == key@);
                    lemma_store_update(entries0, key@, obj@, i as int);
                }
                self.vars[i] = (key, obj);
                proof {
                    assert(self@.entries =~= entries0.update(i as int, (key@, obj@)));
                    assert(final(self)@ =~= (VarsModel {
                        entries: store(entries0, key@, obj@),
                        ..old(self)@
                    }));
                }
                return ;
            }
            i += 1;
        }
        proof {
            lemma_store_append(entries0, key@, obj@);
        }
        self.vars.push((key, obj));
        proof {
            assert(self@.entries =~= entries0.push((key@, obj@)));
            assert(final(self)@ =~= (VarsModel { entries: store(entries0, key@, obj@), ..old(
                self,
            )@ }));
        }
    }

    /// Resolve `key`: the system-variable read table when it carries the
    /// prefix, otherwise the stored binding, or empty text when absent.
    /// Never an error.
    pub fn get(&self, key: &str, settings: &LexerSettings) -> (r: Resolved)
        ensures
            r@ == get_spec(self@, settings@, key@),
    {
        if has_prefix(key, self.sysvar_prefix.as_str()) {
            let plen = self.sysvar_prefix.as_str().unicode_len();
            let klen = key.unicode_len();
            let ghost sfx = key@.skip(plen as int);
            proof {
                assert(sfx.len() == klen - plen);
            }
            if klen - plen != 1 {
                Resolved::Value(Object::Text(String::new()))
            } else {
                let c = key.get_char(plen);
                proof {
                    assert(c == sfx[0]);
                }
                if c == ':' {
                    Resolved::Value(Object::Keyword(Instruction::SwapBuffer))
                } else if c == '"' {
                    Resolved::Value(Object::Keyword(Instruction::SkipNext))
                } else if c == '!' {
                    Resolved::Value(Object::Keyword(Instruction::ExpandPrevious))
                } else if c == '?' {
                    Resolved::Value(Object::Keyword(Instruction::CrazySwap))
                } else if c == ',' {
                    Resolved::Value(Object::Keyword(Instruction::JoinValues))
                } else if c == ';' {
                    Resolved::Value(Object::Keyword(Instruction::EndLine))
                } else if c == '&' {
                    Resolved::Value(Object::Keyword(Instruction::DereferenceLast))
                } else if c == '<' {
                    Resolved::Value(Object::Keyword(Instruction::IfLess))
                } else if c == 'n' {
                    Resolved::Value(Object::Text(self.cached_name.clone()))
                } else if c == 'v' {
                    Resolved::Value(Object::Text(self.cached_value.clone()))
                } else if c == 'i' {
                    Resolved::FatalInput
                } else if c == 'I' {
                    Resolved::FatalNonBlockingInput
                } else if c == 'p' {
                    Resolved::Value(Object::Text(self.file_path.clone()))
                } else if c == 'f' {
                    Resolved::FileRead
                } else if c == 'u' {
                    Resolved::Value(Object::Text(settings.get_uniques()))
                } else if c == 's' {
                    Resolved::Value(Object::Text(settings.get_separators()))
                } else if c == 'S' {
                    Resolved::Value(Object::Text(settings.get_primary_sep()))
                } else if c == '$' {
                    Resolved::Value(Object::Text(self.sysvar_prefix.clone()))
                } else {
                    Resolved::Value(Object::Text(String::new()))
                }
            }
        } else {
            let n = self.vars.len();
            let mut i: usize = 0;
            while i < n
                invariant
                    i <= n,
                    n == self.vars.len(),
                    !self@.sysvar_prefix.is_prefix_of(key@),
                    forall|j: int| 0 <= j < i ==> (#[trigger] self@.entries[j]).0 != key@,
                decreases n - i,
            {
                if str_eq(self.vars[i].0.as_str(), key) {
                    proof {
                        lemma_lookup_beyond(self@.entries, key@, i as int);
                        assert(self@.entries.skip(i as int)[0] == self@.entries[i as int]);
                    }
                    return Resolved::Value(self.vars[i].1.clone());
                }
                i += 1;
            }
            proof {
                lemma_lookup_beyond(self@.entries, key@, n as int);
                assert(self@.entries.skip(n as int) =~= Seq::<(Seq<char>, ObjectModel)>::empty());
            }
            Resolved::Value(Object::Text(String::new()))
        }
    }

    /// The current file path, as set through the system-variable layer.
    pub fn file_path(&self) -> (r: String)
        ensures
            r@ == self@.file_path,
    {
        self.file_path.clone()
    }

    /// Record the cached name and value, then either dispatch a prefixed key
    /// through the system-variable write table (possibly leaving an effect
    /// for the caller) or bind `key` to `value` as literal text.
    pub fn set(&mut self, key: String, value: String, settings: &mut LexerSettings) -> (eff:
        SetEffect)
        ensures
            ({
                let r = set_spec(old(self)@, old(settings)@, key@, value@);
                final(self)@ == r.vars && final(settings)@ == r.cfg && eff@ == r.effect
            }),
    {
        self.cached_name = key.clone();
        self.cached_value = value.clone();
        if has_prefix(key.as_str(), self.sysvar_prefix.as_str()) {
            let plen = self.sysvar_prefix.as_str().unicode_len();
            let klen = key.as_str().unicode_len();
            let ghost sfx = key@.skip(plen as int);
            proof {
                assert(sfx.len() == klen - plen);
            }
            if klen - plen != 1 {
                return SetEffect::Done;
            }
            let c = key.as_str().get_char(plen);
            proof {
                assert(c == sfx[0]);
            }
            if c == 'o' {
                SetEffect::Output(value)
            } else if c == 'c' {
                SetEffect::FatalConsole
            } else if c == 'p' {
                self.file_path = value;
                SetEffect::Done
            } else if c == 'f' {
                SetEffect::FatalFileWrite
            } else if c == 'u' {
                settings.set_uniques(value);
                SetEffect::Done
            } else if c == 's' {
                settings.set_separators(value);
                SetEffect::Done
            } else if c == 'S' {
                settings.set_primary_sep(value);
                SetEffect::Done
            } else if c == '$' {
                self.sysvar_prefix = value;
                SetEffect::Done
            } else {
                SetEffect::Done
            }
        } else {
            self.store_entry(key, Object::Text(value));
            SetEffect::Done
        }
    }

    /// Bind `key` to `value` as it stands; writes to keys carrying the
    /// system-variable prefix are silently ignored.
    pub fn set_object(&mut self, key: String, value: Object)
        ensures
            final(self)@ == set_object_spec(old(self)@, key@, value@),
    {
        if has_prefix(key.as_str(), self.sysvar_prefix.as_str()) {
            return ;
        }
        self.store_entry(key, value);
    }
}

} // verus!

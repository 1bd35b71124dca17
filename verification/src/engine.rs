//! The Engine Handle: a model of one VM state as the host sees it across
//! the boundary.
//!
//! A handle owns exactly one VM state for its lifetime: created open, and
//! accepting no operation after `close`. The operand stack is addressed by
//! signed positions — positive from the base (1 is the first value),
//! negative from the top (-1 is the top value) — and every operation's
//! effect on depth and contents is stated exactly. What only the engine can
//! compute (registering its libraries, running a script, resuming a
//! coroutine) enters the model as the report the engine gave back: the
//! status code, the values left on the stack, the tables the run created,
//! and the global bindings it made.

use vstd::prelude::*;
use crate::gc::LuaGC;
use crate::status::LuaStatus;
use crate::text::{has_nul, text_is_clean, str_eq, int_text, int_to_text, coerces_to_i32,
    numeric_value, parse_i32};
use crate::value::{LuaValue, ValueModel, opaque_tag_ok, spec_type_tag, spec_truthy};

verus! {

/// Why the boundary refused an operation before it reached the engine.
#[derive(Clone, Copy, PartialEq, Eq, Structural, Debug)]
pub enum BoundaryError {
    /// Host-supplied text held an embedded NUL, which the C string
    /// convention at the boundary cannot carry.
    EmbeddedNul,
}

/// Where a stack position points: positive counts from the base (1 is the
/// first value), negative counts from the top (-1 is the top value).
pub open spec fn resolve(len: int, idx: int) -> int {
    if idx >= 0 {
        idx
    } else {
        len + idx + 1
    }
}

/// True when the position points at a value on a stack of the given depth.
pub open spec fn valid_index(len: int, idx: int) -> bool {
    1 <= resolve(len, idx) <= len
}

/// The value a (valid) position points at.
pub open spec fn at(stack: Seq<ValueModel>, idx: int) -> ValueModel {
    stack[resolve(stack.len() as int, idx) - 1]
}

/// The value bound to a name in an association list, front binding first;
/// an unbound name reads as nil, as the engine's global table does.
pub open spec fn assoc_lookup(ps: Seq<(Seq<char>, ValueModel)>, name: Seq<char>) -> ValueModel
    decreases ps.len(),
{
    if ps.len() == 0 {
        ValueModel::Nil
    } else if ps[0].0 == name {
        ps[0].1
    } else {
        assoc_lookup(ps.skip(1), name)
    }
}

/// A value the handle may hold: a table reference points into the table
/// store, and an opaque value carries one of the engine's own tags.
pub open spec fn value_ok(v: ValueModel, n: int) -> bool {
    &&& (v matches ValueModel::Table(id) ==> 0 <= id < n)
    &&& (v matches ValueModel::Opaque(t) ==> opaque_tag_ok(t))
}

pub open spec fn row_ok(row: Seq<(Seq<char>, ValueModel)>, n: int) -> bool {
    forall|i: int| 0 <= i < row.len() ==> value_ok(#[trigger] row[i].1, n)
}

/// Spec-level picture of the whole handle.
#[verifier::ext_equal]
pub struct EngineView {
    pub is_open: bool,
    pub libs_opened: bool,
    pub status: LuaStatus,
    pub stack: Seq<ValueModel>,
    pub globals: Seq<(Seq<char>, ValueModel)>,
    pub tables: Seq<Seq<(Seq<char>, ValueModel)>>,
    pub gc_running: bool,
    pub gc_pause: i32,
    pub gc_step_mul: i32,
    pub gc_generational: bool,
}

impl EngineView {
    /// Well-formedness: the stack depth stays within the host's 32-bit
    /// range, and every table reference held anywhere points into the
    /// handle's table store.
    pub open spec fn wf(self) -> bool {
        &&& self.stack.len() <= i32::MAX
        &&& forall|i: int|
            0 <= i < self.stack.len() ==> value_ok(
                #[trigger] self.stack[i],
                self.tables.len() as int,
            )
        &&& row_ok(self.globals, self.tables.len() as int)
        &&& forall|t: int|
            0 <= t < self.tables.len() ==> row_ok(
                #[trigger] self.tables[t],
                self.tables.len() as int,
            )
    }

    /// The value bound to a name in the global table.
    pub open spec fn global(self, name: Seq<char>) -> ValueModel {
        assoc_lookup(self.globals, name)
    }

    /// The value of a field of the table in the given store slot.
    pub open spec fn field(self, id: int, name: Seq<char>) -> ValueModel {
        assoc_lookup(self.tables[id], name)
    }
}

/// What the string reader yields at a position: strings themselves; numbers
/// as their decimal text, the integer subtype without a fraction mark and
/// the number subtype with the engine's trailing ".0"; nothing for the
/// other types and for positions off the stack.
pub open spec fn read_text(stack: Seq<ValueModel>, idx: int) -> Option<Seq<char>> {
    if valid_index(stack.len() as int, idx) {
        match at(stack, idx) {
            ValueModel::Str(s) => Some(s),
            ValueModel::Integer(n) => Some(int_text(n)),
            ValueModel::Number(n) => Some(int_text(n) + seq!['.', '0']),
            _ => None,
        }
    } else {
        None
    }
}

/// What the number reader yields at a position, where this model states it
/// (see `number_reading_stated`): the value of numbers and the reading of
/// in-range decimal texts; the engine's zero fallback for every
/// non-convertible value and for positions off the stack.
pub open spec fn read_number(stack: Seq<ValueModel>, idx: int) -> int {
    if valid_index(stack.len() as int, idx) {
        match at(stack, idx) {
            ValueModel::Integer(n) => n,
            ValueModel::Number(n) => n,
            ValueModel::Str(s) => if coerces_to_i32(s) {
                numeric_value(s)
            } else {
                0
            },
            _ => 0,
        }
    } else {
        0
    }
}

/// True where the engine's number coercion is pinned by this model:
/// everywhere except a string outside the stated grammar (an optional
/// minus sign and decimal digits, with a value in the host's 32-bit
/// range). The engine's own grammar is wider — hexadecimal, surrounding
/// space, fractional forms that the 32-bit narrowing then truncates — and
/// what it yields for such texts is left to it, not fixed here.
pub open spec fn number_reading_stated(stack: Seq<ValueModel>, idx: int) -> bool {
    valid_index(stack.len() as int, idx) ==> match at(stack, idx) {
        ValueModel::Str(s) => coerces_to_i32(s),
        _ => true,
    }
}

/// What the boolean reader yields at a position: the engine's truthiness
/// rule; a position off the stack reads as false.
pub open spec fn read_boolean(stack: Seq<ValueModel>, idx: int) -> bool {
    if valid_index(stack.len() as int, idx) {
        spec_truthy(at(stack, idx))
    } else {
        false
    }
}

/// The runtime type tag at a position; a position off the stack reads as
/// the engine's "none" tag, -1.
pub open spec fn read_tag(stack: Seq<ValueModel>, idx: int) -> i32 {
    if valid_index(stack.len() as int, idx) {
        spec_type_tag(at(stack, idx))
    } else {
        -1i32
    }
}

/// The stack after the top value is moved into the position and removed
/// from the top; moving the top into itself leaves the stack as it was.
pub open spec fn spec_replace(stack: Seq<ValueModel>, idx: int) -> Seq<ValueModel> {
    let a = resolve(stack.len() as int, idx);
    if a == stack.len() {
        stack
    } else {
        stack.update(a - 1, stack.last()).drop_last()
    }
}

/// True when a name is bound in an association list.
pub open spec fn assoc_binds(ps: Seq<(Seq<char>, ValueModel)>, name: Seq<char>) -> bool
    decreases ps.len(),
{
    ps.len() > 0 && (ps[0].0 == name || assoc_binds(ps.skip(1), name))
}

/// Looking a name up in a concatenation reads the front part first and
/// falls through to the back part only for names the front does not bind.
pub proof fn lemma_lookup_concat(
    a: Seq<(Seq<char>, ValueModel)>,
    b: Seq<(Seq<char>, ValueModel)>,
    name: Seq<char>,
)
    ensures
        assoc_lookup(a + b, name) == if assoc_binds(a, name) {
            assoc_lookup(a, name)
        } else {
            assoc_lookup(b, name)
        },
    decreases a.len(),
{
    if a.len() == 0 {
        assert(a + b =~= b);
    } else {
        assert((a + b)[0] == a[0]);
        if a[0].0 != name {
            assert((a + b).skip(1) =~= a.skip(1) + b);
            lemma_lookup_concat(a.skip(1), b, name);
        }
    }
}

/// A bound name in a list whose values are all non-nil reads back non-nil.
proof fn lemma_bound_lookup_nonnil(ps: Seq<(Seq<char>, ValueModel)>, name: Seq<char>)
    requires
        assoc_binds(ps, name),
        forall|i: int| 0 <= i < ps.len() ==> !((#[trigger] ps[i].1) is Nil),
    ensures
        assoc_lookup(ps, name) != ValueModel::Nil,
    decreases ps.len(),
{
    if ps[0].0 != name {
        assert(forall|i: int|
            0 <= i < ps.skip(1).len() ==> #[trigger] ps.skip(1)[i] == ps[i + 1]);
        lemma_bound_lookup_nonnil(ps.skip(1), name);
    }
}

/// The value of a field of the table a position points at; nil when the
/// field is absent.
pub open spec fn field_at(pre: EngineView, idx: int, name: Seq<char>) -> ValueModel {
    match at(pre.stack, idx) {
        ValueModel::Table(id) => assoc_lookup(pre.tables[id], name),
        _ => ValueModel::Nil,
    }
}

/// True when the collector's host-visible control state is unchanged.
pub open spec fn gc_unchanged(pre: EngineView, post: EngineView) -> bool {
    &&& post.gc_running == pre.gc_running
    &&& post.gc_pause == pre.gc_pause
    &&& post.gc_step_mul == pre.gc_step_mul
    &&& post.gc_generational == pre.gc_generational
}

/// True when nothing but the stack differs between two handle states.
pub open spec fn frame_unchanged(pre: EngineView, post: EngineView) -> bool {
    &&& post.is_open == pre.is_open
    &&& post.libs_opened == pre.libs_opened
    &&& post.status == pre.status
    &&& post.globals == pre.globals
    &&& post.tables == pre.tables
    &&& gc_unchanged(pre, post)
}

pub open spec fn row_view(r: Seq<(String, LuaValue)>) -> Seq<(Seq<char>, ValueModel)> {
    r.map(|i: int, p: (String, LuaValue)| (p.0@, p.1@))
}

pub open spec fn tables_view(ts: Seq<Vec<(String, LuaValue)>>) -> Seq<Seq<(Seq<char>, ValueModel)>> {
    ts.map(|i: int, t: Vec<(String, LuaValue)>| row_view(t@))
}

pub open spec fn rows_ok(rows: Seq<Seq<(Seq<char>, ValueModel)>>, n: int) -> bool {
    forall|t: int| 0 <= t < rows.len() ==> row_ok(#[trigger] rows[t], n)
}

/// What the engine reported back from running a script or resuming a
/// coroutine: the status; the tables the run created, which enter the
/// handle's table store in order; the values the run left on the stack
/// above where it started (the chunk's or the yield's values on success,
/// the error value — which the host reads back explicitly — on failure);
/// and the global bindings the run made that the host will observe. Table
/// references in the report may point into the existing store or at the
/// created tables.
pub struct RunOutcome {
    pub status: LuaStatus,
    pub new_tables: Vec<Vec<(String, LuaValue)>>,
    pub results: Vec<LuaValue>,
    pub bindings: Vec<(String, LuaValue)>,
}

/// Well-formedness of a reported outcome against a table store of `n`
/// tables: a failed run leaves exactly one error value, a syntax failure
/// leaves the loader's message string, and every value in the report — in
/// the results, the bindings, and the created tables themselves — points
/// only into the store as it stands after the created tables join it.
pub open spec fn outcome_wf(o: RunOutcome, n: int) -> bool {
    let m = n + o.new_tables@.len();
    &&& o.status.spec_is_error() ==> o.results@.len() == 1
    &&& o.status == LuaStatus::SyntaxError ==> o.results@[0]@ is Str
    &&& forall|i: int| 0 <= i < o.results@.len() ==> value_ok(#[trigger] o.results@[i]@, m)
    &&& forall|i: int|
        0 <= i < o.bindings@.len() ==> value_ok(#[trigger] o.bindings@[i].1@, m)
    &&& rows_ok(tables_view(o.new_tables@), m)
}

/// The global table after a run: the bindings the run made shadow the
/// prior ones.
pub open spec fn globals_after(
    pre: Seq<(Seq<char>, ValueModel)>,
    bindings: Seq<(Seq<char>, ValueModel)>,
    name: Seq<char>,
) -> ValueModel {
    if assoc_binds(bindings, name) {
        assoc_lookup(bindings, name)
    } else {
        assoc_lookup(pre, name)
    }
}

/// The Engine Handle: the host's picture of one VM state. One handle owns
/// one state, exclusively and for its whole lifetime; the handle is not
/// designed for concurrent use from more than one thread at a time.
pub struct EngineState {
    is_open: bool,
    libs_opened: bool,
    status: LuaStatus,
    stack: Vec<LuaValue>,
    globals: Vec<(String, LuaValue)>,
    tables: Vec<Vec<(String, LuaValue)>>,
    gc_running: bool,
    gc_pause: i32,
    gc_step_mul: i32,
    gc_generational: bool,
}

impl View for EngineState {
    type V = EngineView;

    closed spec fn view(&self) -> EngineView {
        EngineView {
            is_open: self.is_open,
            libs_opened: self.libs_opened,
            status: self.status,
            stack: self.stack@.map(|i: int, v: LuaValue| v@),
            globals: row_view(self.globals@),
            tables: self.tables@.map(|i: int, t: Vec<(String, LuaValue)>| row_view(t@)),
            gc_running: self.gc_running,
            gc_pause: self.gc_pause,
            gc_step_mul: self.gc_step_mul,
            gc_generational: self.gc_generational,
        }
    }
}

/// If a name is bound in an association list, its binding is one of the
/// list's entries; so the bound value of a well-formed row is either nil or
/// a value the row holds.
proof fn lemma_lookup_in_row(row: Seq<(Seq<char>, ValueModel)>, name: Seq<char>, n: int)
    requires
        row_ok(row, n),
    ensures
        value_ok(assoc_lookup(row, name), n),
    decreases row.len(),
{
    if row.len() > 0 && row[0].0 != name {
        assert(row_ok(row.skip(1), n)) by {
            assert(forall|i: int|
                0 <= i < row.skip(1).len() ==> #[trigger] row.skip(1)[i] == row[i + 1]);
        }
        lemma_lookup_in_row(row.skip(1), name, n);
    }
}

impl EngineState {
    /// Creates a fresh handle owning a new, empty VM state: open, standard
    /// libraries not yet registered, status ok, empty stack, no globals, and
    /// the collector in its starting state — running, incremental, pause 200
    /// and step multiplier 100, the engine's defaults.
    pub fn new() -> (e: EngineState)
        ensures
            e@.wf(),
            e@.is_open,
            !e@.libs_opened,
            e@.status == LuaStatus::Normal,
            e@.stack.len() == 0,
            e@.globals.len() == 0,
            e@.tables.len() == 0,
            e@.gc_running,
            e@.gc_pause == 200,
            e@.gc_step_mul == 100,
            !e@.gc_generational,
    {
        EngineState {
            is_open: true,
            libs_opened: false,
            status: LuaStatus::Normal,
            stack: Vec::new(),
            globals: Vec::new(),
            tables: Vec::new(),
            gc_running: true,
            gc_pause: 200,
            gc_step_mul: 100,
            gc_generational: false,
        }
    }

    /// Registers the engine's standard libraries into the state. What
    /// registration binds is the engine's own doing, so it enters the model
    /// as the reported bindings: they shadow the global table, and every
    /// name the report binds reads back non-nil afterwards (registration
    /// binds library tables and functions, never nil — hence the
    /// precondition on the report). The native engine does not promise
    /// idempotence, so a handle accepts this at most once.
    pub fn open_libs(&mut self, registered: Vec<(String, LuaValue)>)
        requires
            old(self)@.wf(),
            old(self)@.is_open,
            !old(self)@.libs_opened,
            forall|i: int|
                0 <= i < registered@.len() ==> value_ok(
                    #[trigger] registered@[i].1@,
                    old(self)@.tables.len() as int,
                ),
            forall|i: int| 0 <= i < registered@.len() ==> !((#[trigger] registered@[i].1@) is Nil),
        ensures
            final(self)@.wf(),
            final(self)@.libs_opened,
            final(self)@.is_open == old(self)@.is_open,
            final(self)@.status == old(self)@.status,
            final(self)@.stack == old(self)@.stack,
            final(self)@.tables == old(self)@.tables,
            gc_unchanged(old(self)@, final(self)@),
            forall|n: Seq<char>| #[trigger]
                final(self)@.global(n) == globals_after(
                    old(self)@.globals,
                    row_view(registered@),
                    n,
                ),
            forall|n: Seq<char>|
                assoc_binds(row_view(registered@), n) ==> #[trigger] final(self)@.global(n)
                    != ValueModel::Nil,
    {
        let ghost bv = row_view(registered@);
        self.libs_opened = true;
        let mut g = registered;
        g.append(&mut self.globals);
        self.globals = g;
        proof {
            assert(self@.globals =~= bv + old(self)@.globals);
            assert forall|i: int| 0 <= i < self@.globals.len() implies value_ok(
                #[trigger] self@.globals[i].1,
                self@.tables.len() as int,
            ) by {
                if i < bv.len() {
                    assert(value_ok(registered@[i].1@, self@.tables.len() as int));
                } else {
                    assert(value_ok(old(self)@.globals[i - bv.len()].1, self@.tables.len() as int));
                }
            }
            assert forall|n: Seq<char>| #[trigger]
                self@.global(n) == globals_after(old(self)@.globals, bv, n) by {
                lemma_lookup_concat(bv, old(self)@.globals, n);
            }
            assert forall|n: Seq<char>| assoc_binds(bv, n) implies #[trigger] self@.global(n)
                != ValueModel::Nil by {
                lemma_lookup_concat(bv, old(self)@.globals, n);
                assert forall|i: int| 0 <= i < bv.len() implies !((#[trigger] bv[i].1) is Nil) by {
                    assert(bv[i].1 == registered@[i].1@);
                }
                lemma_bound_lookup_nonnil(bv, n);
            }
        }
    }

    /// Releases the VM state: every value the stack held becomes invalid
    /// and the handle accepts no further operation — every other method of
    /// the handle requires an open handle.
    pub fn close(&mut self)
        requires
            old(self)@.wf(),
            old(self)@.is_open,
        ensures
            final(self)@.wf(),
            !final(self)@.is_open,
    {
        self.is_open = false;
    }

    /// Appends one value onto the top of the stack.
    fn push_value(&mut self, v: LuaValue)
        requires
            old(self)@.wf(),
            old(self)@.stack.len() < i32::MAX,
            value_ok(v@, old(self)@.tables.len() as int),
        ensures
            final(self)@.wf(),
            final(self)@.stack == old(self)@.stack.push(v@),
            frame_unchanged(old(self)@, final(self)@),
    {
        self.stack.push(v);
        proof {
            assert(self@.stack =~= old(self)@.stack.push(v@));
        }
    }

    /// Appends one nil onto the top of the stack; the depth grows by one.
    pub fn push_nil(&mut self)
        requires
            old(self)@.wf(),
            old(self)@.is_open,
            old(self)@.stack.len() < i32::MAX,
        ensures
            final(self)@.wf(),
            final(self)@.stack == old(self)@.stack.push(ValueModel::Nil),
            frame_unchanged(old(self)@, final(self)@),
    {
        self.push_value(LuaValue::Nil);
    }

    /// Appends one boolean onto the top of the stack; the engine's boolean
    /// push takes an integer and stores whether it is nonzero.
    pub fn push_boolean(&mut self, value: i32)
        requires
            old(self)@.wf(),
            old(self)@.is_open,
            old(self)@.stack.len() < i32::MAX,
        ensures
            final(self)@.wf(),
            final(self)@.stack == old(self)@.stack.push(ValueModel::Boolean(value != 0)),
            frame_unchanged(old(self)@, final(self)@),
    {
        self.push_value(LuaValue::Boolean(value != 0));
    }

    /// Appends one integer onto the top of the stack.
    pub fn push_integer(&mut self, value: i32)
        requires
            old(self)@.wf(),
            old(self)@.is_open,
            old(self)@.stack.len() < i32::MAX,
        ensures
            final(self)@.wf(),
            final(self)@.stack == old(self)@.stack.push(ValueModel::Integer(value as int)),
            frame_unchanged(old(self)@, final(self)@),
    {
        self.push_value(LuaValue::Integer(value));
    }

    /// Appends one number onto the top of the stack; the host hands the
    /// engine's wider numeric type a 32-bit value, so the model keeps the
    /// value at that width.
    pub fn push_number(&mut self, value: i32)
        requires
            old(self)@.wf(),
            old(self)@.is_open,
            old(self)@.stack.len() < i32::MAX,
        ensures
            final(self)@.wf(),
            final(self)@.stack == old(self)@.stack.push(ValueModel::Number(value as int)),
            frame_unchanged(old(self)@, final(self)@),
    {
        self.push_value(LuaValue::Number(value));
    }

    /// Appends one string onto the top of the stack and hands back the text
    /// as the engine stores it, which equals the input; text with an
    /// embedded NUL cannot cross the C string boundary and is refused with
    /// the state untouched.
    pub fn push_string(&mut self, value: &str) -> (r: Result<String, BoundaryError>)
        requires
            old(self)@.wf(),
            old(self)@.is_open,
            old(self)@.stack.len() < i32::MAX,
        ensures
            final(self)@.wf(),
            r is Ok <==> !has_nul(value@),
            r matches Ok(stored) ==> stored@ == value@ && final(self)@.stack == old(self)@.stack.push(ValueModel::Str(value@)) && frame_unchanged(old(self)@, final(self)@),
            r is Err ==> final(self)@ == old(self)@ && r == Err::<String, BoundaryError>(
                BoundaryError::EmbeddedNul,
            ),
    {
        if !text_is_clean(value) {
            return Err(BoundaryError::EmbeddedNul);
        }
        let stored = value.to_owned();
        let handed_back = stored.clone();
        self.push_value(LuaValue::Str(stored));
        Ok(handed_back)
    }

    /// Resolves a stack position to its slot, if it points at a value.
    fn locate(&self, idx: i32) -> (r: Option<usize>)
        requires
            self@.wf(),
        ensures
            r is Some <==> valid_index(self@.stack.len() as int, idx as int),
            r matches Some(slot) ==> slot + 1 == resolve(self@.stack.len() as int, idx as int),
    {
        let len = self.stack.len();
        if idx > 0 {
            let u = idx as usize;
            if u <= len {
                Some(u - 1)
            } else {
                None
            }
        } else if idx < 0 {
            let mag = (-(idx as i64)) as usize;
            if mag <= len {
                Some(len - mag)
            } else {
                None
            }
        } else {
            None
        }
    }

    /// The current stack depth.
    pub fn get_top(&self) -> (r: i32)
        requires
            self@.wf(),
            self@.is_open,
        ensures
            r as int == self@.stack.len(),
    {
        self.stack.len() as i32
    }

    /// Resizes the stack to the depth the position names: shrinking drops
    /// the values beyond the new top, growing pads with nil.
    pub fn set_top(&mut self, idx: i32)
        requires
            old(self)@.wf(),
            old(self)@.is_open,
            0 <= resolve(old(self)@.stack.len() as int, idx as int),
        ensures
            final(self)@.wf(),
            final(self)@.stack.len() == resolve(old(self)@.stack.len() as int, idx as int),
            forall|i: int|
                0 <= i < old(self)@.stack.len() && i < final(self)@.stack.len()
                    ==> final(self)@.stack[i] == old(self)@.stack[i],
            forall|i: int|
                old(self)@.stack.len() <= i < final(self)@.stack.len() ==> final(self)@.stack[i]
                    == ValueModel::Nil,
            frame_unchanged(old(self)@, final(self)@),
    {
        let len = self.stack.len();
        let n: usize = if idx >= 0 {
            idx as usize
        } else {
            let mag = (-(idx as i64)) as usize;
            len + 1 - mag
        };
        if n <= len {
            self.stack.truncate(n);
            proof {
                assert(self@.stack =~= old(self)@.stack.take(n as int));
            }
        } else {
            while self.stack.len() < n
                invariant
                    old(self)@.stack.len() <= self@.stack.len() <= n,
                    n <= i32::MAX,
                    self@.wf(),
                    forall|i: int|
                        0 <= i < old(self)@.stack.len() ==> self@.stack[i] == old(self)@.stack[i],
                    forall|i: int|
                        old(self)@.stack.len() <= i < self@.stack.len() ==> self@.stack[i]
                            == ValueModel::Nil,
                    frame_unchanged(old(self)@, self@),
                decreases n - self@.stack.len(),
            {
                let ghost prev = self@.stack;
                self.stack.push(LuaValue::Nil);
                proof {
                    assert(self@.stack =~= prev.push(ValueModel::Nil));
                }
            }
        }
    }

    /// Removes the top `n` values.
    pub fn pop(&mut self, n: i32)
        requires
            old(self)@.wf(),
            old(self)@.is_open,
            0 <= n <= old(self)@.stack.len(),
        ensures
            final(self)@.wf(),
            final(self)@.stack == old(self)@.stack.take(old(self)@.stack.len() - n),
            frame_unchanged(old(self)@, final(self)@),
    {
        let keep = self.stack.len() - (n as usize);
        self.stack.truncate(keep);
        proof {
            assert(self@.stack =~= old(self)@.stack.take(old(self)@.stack.len() - n));
        }
    }

    /// Moves the top value into the position, removing it from the top, so
    /// the depth decreases by one — except when the position is the top
    /// itself, where the move is the identity and the stack stays as it
    /// was.
    pub fn replace(&mut self, idx: i32)
        requires
            old(self)@.wf(),
            old(self)@.is_open,
            valid_index(old(self)@.stack.len() as int, idx as int),
        ensures
            final(self)@.wf(),
            final(self)@.stack == spec_replace(old(self)@.stack, idx as int),
            frame_unchanged(old(self)@, final(self)@),
    {
        let slot = match self.locate(idx) {
            Some(s) => s,
            None => {
                proof {
                    assert(false);
                }
                0
            },
        };
        if slot + 1 == self.stack.len() {
            return ;
        }
        let v = self.stack.pop().unwrap();
        let removed = self.stack.remove(slot);
        let _ = removed;
        self.stack.insert(slot, v);
        proof {
            assert(self@.stack =~= spec_replace(old(self)@.stack, idx as int));
        }
    }

    /// The runtime type tag at the position, without consuming it.
    pub fn get_type(&self, idx: i32) -> (r: i32)
        requires
            self@.wf(),
            self@.is_open,
        ensures
            r == read_tag(self@.stack, idx as int),
    {
        match self.locate(idx) {
            Some(slot) => self.stack[slot].type_tag(),
            None => -1,
        }
    }

    /// Reads the value at the position as a boolean under the engine's
    /// coercion: nil and false are falsy, everything else truthy; a
    /// position off the stack reads as false.
    pub fn to_boolean(&self, idx: i32) -> (r: bool)
        requires
            self@.wf(),
            self@.is_open,
        ensures
            r == read_boolean(self@.stack, idx as int),
    {
        match self.locate(idx) {
            Some(slot) => self.stack[slot].truthy(),
            None => false,
        }
    }

    /// Reads the value at the position as a number under the engine's
    /// coercion at the host's 32-bit width: numbers yield their value and
    /// in-range decimal texts their reading; non-convertible values, and
    /// positions off the stack, yield the engine's zero fallback. For a
    /// string outside that grammar the engine's wider reading (hexadecimal,
    /// surrounding space, fractional forms narrowed to 32 bits) decides,
    /// and the contract says nothing; this body answers the fallback for
    /// them. Callers that need precise discrimination check the type tag
    /// first.
    pub fn to_number(&self, idx: i32) -> (r: i32)
        requires
            self@.wf(),
            self@.is_open,
        ensures
            number_reading_stated(self@.stack, idx as int) ==> r as int == read_number(
                self@.stack,
                idx as int,
            ),
    {
        match self.locate(idx) {
            None => 0,
            Some(slot) => match &self.stack[slot] {
                LuaValue::Integer(n) => *n,
                LuaValue::Number(n) => *n,
                LuaValue::Str(s) => match parse_i32(s.as_str()) {
                    Some(v) => v,
                    None => 0,
                },
                _ => 0,
            },
        }
    }

    /// Reads the value at the position as text under the engine's coercion:
    /// strings yield their content and numbers their decimal text (the
    /// non-integer numeric subtype with the engine's trailing ".0"); the
    /// other types, and positions off the stack, have no string form at
    /// this call and yield nothing.
    pub fn to_string(&self, idx: i32) -> (r: Option<String>)
        requires
            self@.wf(),
            self@.is_open,
        ensures
            r is Some <==> read_text(self@.stack, idx as int) is Some,
            r matches Some(s) ==> Some(s@) == read_text(self@.stack, idx as int),
    {
        match self.locate(idx) {
            None => None,
            Some(slot) => match &self.stack[slot] {
                LuaValue::Str(s) => Some(s.clone()),
                LuaValue::Integer(n) => Some(int_to_text(*n)),
                LuaValue::Number(n) => {
                    let mut t = int_to_text(*n);
                    t.append(".0");
                    proof {
                        reveal_strlit(".0");
                        assert(t@ =~= int_text(*n as int) + seq!['.', '0']);
                    }
                    Some(t)
                },
                _ => None,
            },
        }
    }

    /// Pops the top value and binds it to the name in the global table,
    /// overwriting any prior binding; a name with an embedded NUL cannot
    /// cross the C string boundary and is refused with the state untouched.
    pub fn set_global(&mut self, name: &str) -> (r: Result<(), BoundaryError>)
        requires
            old(self)@.wf(),
            old(self)@.is_open,
            old(self)@.stack.len() >= 1,
        ensures
            final(self)@.wf(),
            r is Ok <==> !has_nul(name@),
            r is Err ==> final(self)@ == old(self)@ && r == Err::<(), BoundaryError>(
                BoundaryError::EmbeddedNul,
            ),
            r is Ok ==> ({
                &&& final(self)@.stack == old(self)@.stack.drop_last()
                &&& final(self)@.global(name@) == old(self)@.stack.last()
                &&& forall|n: Seq<char>| n != name@ ==> final(self)@.global(n) == old(self)@.global(n)
                &&& final(self)@.tables == old(self)@.tables
                &&& final(self)@.is_open == old(self)@.is_open
                &&& final(self)@.libs_opened == old(self)@.libs_opened
                &&& final(self)@.status == old(self)@.status
                &&& gc_unchanged(old(self)@, final(self)@)
            }),
    {
        if !text_is_clean(name) {
            return Err(BoundaryError::EmbeddedNul);
        }
        let v = self.stack.pop().unwrap();
        let key = name.to_owned();
        self.globals.insert(0, (key, v));
        proof {
            assert(self@.stack =~= old(self)@.stack.drop_last());
            assert(self@.globals =~= old(self)@.globals.insert(
                0,
                (name@, old(self)@.stack.last()),
            ));
            assert(self@.globals[0].0 == name@);
            assert(self@.globals.skip(1) =~= old(self)@.globals);
            assert forall|n: Seq<char>| n != name@ implies self@.global(n) == old(self)@.global(
                n,
            ) by {
                assert(self@.globals.skip(1) =~= old(self)@.globals);
            }
        }
        Ok(())
    }

    /// The value bound to a name in the global table, nil when unbound.
    fn lookup_global(&self, name: &str) -> (r: LuaValue)
        requires
            self@.wf(),
        ensures
            r@ == self@.global(name@),
            value_ok(r@, self@.tables.len() as int),
    {
        let mut i: usize = 0;
        proof {
            assert(self@.globals.skip(0) =~= self@.globals);
        }
        while i < self.globals.len()
            invariant
                i <= self.globals.len(),
                self@.wf(),
                self@.globals.len() == self.globals.len(),
                self@.global(name@) == assoc_lookup(self@.globals.skip(i as int), name@),
            decreases self.globals.len() - i,
        {
            proof {
                assert(self@.globals[i as int] == (self.globals@[i as int].0@,
                self.globals@[i as int].1@));
            }
            if str_eq(self.globals[i].0.as_str(), name) {
                proof {
                    assert(self@.globals.skip(i as int)[0] == self@.globals[i as int]);
                    lemma_lookup_in_row(self@.globals, name@, self@.tables.len() as int);
                }
                return self.globals[i].1.dup();
            }
            proof {
                assert(self@.globals.skip(i as int)[0] == self@.globals[i as int]);
                assert(self@.globals.skip(i as int).skip(1) =~= self@.globals.skip(i as int + 1));
            }
            i = i + 1;
        }
        proof {
            assert(self@.globals.skip(i as int).len() == 0);
        }
        LuaValue::Nil
    }

    /// Pushes the value bound to the name (nil when unbound) and returns
    /// the type tag of what was pushed; a name with an embedded NUL is
    /// refused with the state untouched.
    pub fn get_global(&mut self, name: &str) -> (r: Result<i32, BoundaryError>)
        requires
            old(self)@.wf(),
            old(self)@.is_open,
            old(self)@.stack.len() < i32::MAX,
        ensures
            final(self)@.wf(),
            r is Ok <==> !has_nul(name@),
            r is Err ==> final(self)@ == old(self)@ && r == Err::<i32, BoundaryError>(
                BoundaryError::EmbeddedNul,
            ),
            r matches Ok(tag) ==> final(self)@.stack == old(self)@.stack.push(
                old(self)@.global(name@),
            ) && tag == spec_type_tag(old(self)@.global(name@)) && frame_unchanged(
                old(self)@,
                final(self)@,
            ),
    {
        if !text_is_clean(name) {
            return Err(BoundaryError::EmbeddedNul);
        }
        let v = self.lookup_global(name);
        let tag = v.type_tag();
        self.push_value(v);
        Ok(tag)
    }

    /// Pops the top value and stores it as the named field of the table at
    /// the position; the engine requires a table there, and resolves the
    /// position before the pop. A field name with an embedded NUL is
    /// refused with the state untouched.
    pub fn set_filed(&mut self, idx: i32, name: &str) -> (r: Result<(), BoundaryError>)
        requires
            old(self)@.wf(),
            old(self)@.is_open,
            old(self)@.stack.len() >= 1,
            valid_index(old(self)@.stack.len() as int, idx as int),
            at(old(self)@.stack, idx as int) is Table,
        ensures
            final(self)@.wf(),
            r is Ok <==> !has_nul(name@),
            r is Err ==> final(self)@ == old(self)@ && r == Err::<(), BoundaryError>(
                BoundaryError::EmbeddedNul,
            ),
            r is Ok ==> ({
                let id = at(old(self)@.stack, idx as int)->Table_0;
                &&& final(self)@.stack == old(self)@.stack.drop_last()
                &&& final(self)@.tables.len() == old(self)@.tables.len()
                &&& final(self)@.field(id, name@) == old(self)@.stack.last()
                &&& forall|n: Seq<char>|
                    n != name@ ==> final(self)@.field(id, n) == old(self)@.field(id, n)
                &&& forall|t: int|
                    0 <= t < old(self)@.tables.len() && t != id ==> final(self)@.tables[t] == old(self)@.tables[t]
                &&& final(self)@.globals == old(self)@.globals
                &&& final(self)@.is_open == old(self)@.is_open
                &&& final(self)@.libs_opened == old(self)@.libs_opened
                &&& final(self)@.status == old(self)@.status
                &&& gc_unchanged(old(self)@, final(self)@)
            }),
    {
        if !text_is_clean(name) {
            return Err(BoundaryError::EmbeddedNul);
        }
        let slot = match self.locate(idx) {
            Some(s) => s,
            None => {
                proof {
                    assert(false);
                }
                0
            },
        };
        let id: usize = match &self.stack[slot] {
            LuaValue::Table(t) => *t,
            _ => {
                proof {
                    assert(false);
                }
                0
            },
        };
        proof {
            assert(value_ok(old(self)@.stack[slot as int], old(self)@.tables.len() as int));
        }
        let v = self.stack.pop().unwrap();
        let key = name.to_owned();
        let mut row = self.tables.remove(id);
        row.insert(0, (key, v));
        self.tables.insert(id, row);
        proof {
            assert(self@.stack =~= old(self)@.stack.drop_last());
            assert(self@.globals =~= old(self)@.globals);
            assert(self@.tables =~~= old(self)@.tables.update(
                id as int,
                old(self)@.tables[id as int].insert(0, (name@, old(self)@.stack.last())),
            ));
            assert(self@.tables[id as int][0].0 == name@);
            assert(self@.tables[id as int].skip(1) =~= old(self)@.tables[id as int]);
            assert forall|n: Seq<char>| n != name@ implies assoc_lookup(
                self@.tables[id as int],
                n,
            ) == assoc_lookup(old(self)@.tables[id as int], n) by {
                assert(self@.tables[id as int].skip(1) =~= old(self)@.tables[id as int]);
            }
        }
        Ok(())
    }

    /// The value of the named field of the table in the given store slot,
    /// nil when absent.
    fn lookup_field(&self, id: usize, name: &str) -> (r: LuaValue)
        requires
            self@.wf(),
            id < self@.tables.len(),
        ensures
            r@ == self@.field(id as int, name@),
            value_ok(r@, self@.tables.len() as int),
    {
        let row = &self.tables[id];
        let ghost rowv = self@.tables[id as int];
        proof {
            assert(rowv =~= row_view(row@));
            assert(rowv.skip(0) =~= rowv);
        }
        let mut i: usize = 0;
        while i < row.len()
            invariant
                i <= row.len(),
                self@.wf(),
                id < self@.tables.len(),
                rowv == self@.tables[id as int],
                rowv == row_view(row@),
                rowv.len() == row.len(),
                assoc_lookup(rowv, name@) == assoc_lookup(rowv.skip(i as int), name@),
            decreases row.len() - i,
        {
            proof {
                assert(rowv[i as int] == (row@[i as int].0@, row@[i as int].1@));
            }
            if str_eq(row[i].0.as_str(), name) {
                proof {
                    assert(rowv.skip(i as int)[0] == rowv[i as int]);
                    lemma_lookup_in_row(rowv, name@, self@.tables.len() as int);
                }
                return row[i].1.dup();
            }
            proof {
                assert(rowv.skip(i as int)[0] == rowv[i as int]);
                assert(rowv.skip(i as int).skip(1) =~= rowv.skip(i as int + 1));
            }
            i = i + 1;
        }
        proof {
            assert(rowv.skip(i as int).len() == 0);
        }
        LuaValue::Nil
    }

    /// Pushes the value of the named field of the table at the position
    /// (nil when the field is absent) and returns its type tag; a field
    /// name with an embedded NUL is refused with the state untouched.
    pub fn get_field(&mut self, idx: i32, name: &str) -> (r: Result<i32, BoundaryError>)
        requires
            old(self)@.wf(),
            old(self)@.is_open,
            old(self)@.stack.len() < i32::MAX,
            valid_index(old(self)@.stack.len() as int, idx as int),
            at(old(self)@.stack, idx as int) is Table,
        ensures
            final(self)@.wf(),
            r is Ok <==> !has_nul(name@),
            r is Err ==> final(self)@ == old(self)@ && r == Err::<i32, BoundaryError>(
                BoundaryError::EmbeddedNul,
            ),
            r matches Ok(tag) ==> final(self)@.stack == old(self)@.stack.push(
                field_at(old(self)@, idx as int, name@),
            ) && tag == spec_type_tag(field_at(old(self)@, idx as int, name@)) && frame_unchanged(
                old(self)@,
                final(self)@,
            ),
    {
        if !text_is_clean(name) {
            return Err(BoundaryError::EmbeddedNul);
        }
        let slot = match self.locate(idx) {
            Some(s) => s,
            None => {
                proof {
                    assert(false);
                }
                0
            },
        };
        let id: usize = match &self.stack[slot] {
            LuaValue::Table(t) => *t,
            _ => {
                proof {
                    assert(false);
                }
                0
            },
        };
        proof {
            assert(value_ok(old(self)@.stack[slot as int], old(self)@.tables.len() as int));
        }
        let v = self.lookup_field(id, name);
        let tag = v.type_tag();
        self.push_value(v);
        Ok(tag)
    }

    /// Enters one fresh, empty table of the engine's heap into the handle's
    /// table store and pushes a reference to it, handing back its slot in
    /// the store.
    pub fn register_table(&mut self) -> (id: usize)
        requires
            old(self)@.wf(),
            old(self)@.is_open,
            old(self)@.stack.len() < i32::MAX,
        ensures
            final(self)@.wf(),
            id as int == old(self)@.tables.len(),
            final(self)@.tables == old(self)@.tables.push(
                Seq::<(Seq<char>, ValueModel)>::empty(),
            ),
            final(self)@.stack == old(self)@.stack.push(ValueModel::Table(id as int)),
            final(self)@.globals == old(self)@.globals,
            final(self)@.is_open == old(self)@.is_open,
            final(self)@.libs_opened == old(self)@.libs_opened,
            final(self)@.status == old(self)@.status,
            gc_unchanged(old(self)@, final(self)@),
    {
        let id = self.tables.len();
        self.tables.push(Vec::new());
        self.stack.push(LuaValue::Table(id));
        proof {
            assert(self@.stack =~= old(self)@.stack.push(ValueModel::Table(id as int)));
            assert(self@.tables =~~= old(self)@.tables.push(
                Seq::<(Seq<char>, ValueModel)>::empty(),
            ));
            let n = old(self)@.tables.len() as int;
            assert forall|i: int| 0 <= i < self@.stack.len() implies value_ok(
                #[trigger] self@.stack[i],
                n + 1,
            ) by {
                if i < old(self)@.stack.len() {
                    assert(value_ok(old(self)@.stack[i], n));
                }
            }
            assert forall|i: int| 0 <= i < self@.globals.len() implies value_ok(
                #[trigger] self@.globals[i].1,
                n + 1,
            ) by {
                assert(value_ok(old(self)@.globals[i].1, n));
            }
            assert forall|t: int| 0 <= t < self@.tables.len() implies row_ok(
                #[trigger] self@.tables[t],
                n + 1,
            ) by {
                if t < n {
                    assert(row_ok(old(self)@.tables[t], n));
                    assert forall|i: int| 0 <= i < self@.tables[t].len() implies value_ok(
                        #[trigger] self@.tables[t][i].1,
                        n + 1,
                    ) by {
                        assert(value_ok(old(self)@.tables[t][i].1, n));
                    }
                }
            }
        }
        id
    }

    /// Appends copies of the given values onto the top of the stack, in
    /// order.
    fn push_all(&mut self, vs: &Vec<LuaValue>)
        requires
            old(self)@.wf(),
            forall|i: int|
                0 <= i < vs@.len() ==> value_ok(#[trigger] vs@[i]@, old(self)@.tables.len() as int),
            old(self)@.stack.len() + vs@.len() <= i32::MAX,
        ensures
            final(self)@.wf(),
            final(self)@.stack == old(self)@.stack + vs@.map(|i: int, v: LuaValue| v@),
            frame_unchanged(old(self)@, final(self)@),
    {
        let n = vs.len();
        let mut i: usize = 0;
        proof {
            assert(old(self)@.stack + vs@.take(0).map(|k: int, v: LuaValue| v@) =~= old(self)@.stack);
        }
        while i < n
            invariant
                i <= n,
                n == vs@.len(),
                self@.wf(),
                self@.stack == old(self)@.stack + vs@.take(i as int).map(|k: int, v: LuaValue| v@),
                frame_unchanged(old(self)@, self@),
                forall|k: int|
                    0 <= k < vs@.len() ==> value_ok(
                        #[trigger] vs@[k]@,
                        self@.tables.len() as int,
                    ),
                old(self)@.stack.len() + vs@.len() <= i32::MAX,
            decreases n - i,
        {
            let v = vs[i].dup();
            self.push_value(v);
            proof {
                assert(self@.stack =~= old(self)@.stack + vs@.take(i as int + 1).map(
                    |k: int, v: LuaValue| v@,
                ));
            }
            i = i + 1;
        }
        proof {
            assert(vs@.take(n as int) =~= vs@);
            assert(self@.stack =~= old(self)@.stack + vs@.map(|k: int, v: LuaValue| v@));
        }
    }

    /// Records a reported outcome: sets the status, enters the created
    /// tables into the store, lets the reported bindings shadow the global
    /// table, and appends the reported values to the stack.
    fn apply_outcome(&mut self, outcome: RunOutcome)
        requires
            old(self)@.wf(),
            outcome_wf(outcome, old(self)@.tables.len() as int),
            old(self)@.stack.len() + outcome.results@.len() <= i32::MAX,
        ensures
            final(self)@.wf(),
            final(self)@.status == outcome.status,
            final(self)@.stack == old(self)@.stack + outcome.results@.map(
                |i: int, v: LuaValue| v@,
            ),
            forall|n: Seq<char>| #[trigger]
                final(self)@.global(n) == globals_after(
                    old(self)@.globals,
                    row_view(outcome.bindings@),
                    n,
                ),
            final(self)@.tables == old(self)@.tables + tables_view(outcome.new_tables@),
            final(self)@.is_open == old(self)@.is_open,
            final(self)@.libs_opened == old(self)@.libs_opened,
            gc_unchanged(old(self)@, final(self)@),
    {
        let ghost bv = row_view(outcome.bindings@);
        let ghost nt = tables_view(outcome.new_tables@);
        let RunOutcome { status, new_tables, results, bindings } = outcome;
        self.status = status;
        let mut rest = new_tables;
        proof {
            assert(tables_view(rest@) =~= nt.skip(0));
            assert(self@.tables + nt.take(0) =~= old(self)@.tables);
        }
        while rest.len() > 0
            invariant
                rest@.len() <= nt.len(),
                tables_view(rest@) == nt.skip(nt.len() - rest@.len()),
                self@.tables == old(self)@.tables + nt.take(nt.len() - rest@.len()),
                self@.stack == old(self)@.stack,
                self@.globals == old(self)@.globals,
                self@.status == outcome.status,
                self@.is_open == old(self)@.is_open,
                self@.libs_opened == old(self)@.libs_opened,
                gc_unchanged(old(self)@, self@),
            decreases rest@.len(),
        {
            let ghost rest_before = rest@;
            let ghost tables_before = self@.tables;
            let ghost k0 = nt.len() - rest@.len();
            let row = rest.remove(0);
            self.tables.push(row);
            proof {
                assert(tables_view(rest_before)[0] == row_view(row@));
                assert(row_view(row@) == nt[k0 as int]);
                assert(rest@ =~= rest_before.skip(1));
                assert(tables_view(rest@) =~= tables_view(rest_before).skip(1));
                assert(tables_view(rest@) =~= nt.skip(k0 as int + 1));
                assert(self@.tables =~= tables_before.push(nt[k0 as int]));
                assert(self@.tables =~= old(self)@.tables + nt.take(k0 as int + 1));
            }
        }
        proof {
            assert(nt.take(nt.len() as int) =~= nt);
            assert(self@.tables =~= old(self)@.tables + nt);
            let m = self@.tables.len() as int;
            assert forall|i: int| 0 <= i < self@.stack.len() implies value_ok(
                #[trigger] self@.stack[i],
                m,
            ) by {
                assert(value_ok(old(self)@.stack[i], old(self)@.tables.len() as int));
            }
            assert forall|i: int| 0 <= i < self@.globals.len() implies value_ok(
                #[trigger] self@.globals[i].1,
                m,
            ) by {
                assert(value_ok(old(self)@.globals[i].1, old(self)@.tables.len() as int));
            }
            assert forall|t: int| 0 <= t < self@.tables.len() implies row_ok(
                #[trigger] self@.tables[t],
                m,
            ) by {
                if t < old(self)@.tables.len() {
                    assert(row_ok(old(self)@.tables[t], old(self)@.tables.len() as int));
                    assert forall|i: int| 0 <= i < self@.tables[t].len() implies value_ok(
                        #[trigger] self@.tables[t][i].1,
                        m,
                    ) by {
                        assert(value_ok(old(self)@.tables[t][i].1, old(self)@.tables.len() as int));
                    }
                } else {
                    assert(self@.tables[t] == nt[t - old(self)@.tables.len()]);
                    assert(row_ok(nt[t - old(self)@.tables.len()], m));
                }
            }
            assert(self@.wf());
        }
        let mut g = bindings;
        g.append(&mut self.globals);
        self.globals = g;
        proof {
            assert(self@.globals =~= bv + old(self)@.globals);
            assert forall|i: int| 0 <= i < self@.globals.len() implies value_ok(
                #[trigger] self@.globals[i].1,
                self@.tables.len() as int,
            ) by {
                if i < bv.len() {
                    assert(value_ok(outcome.bindings@[i].1@, self@.tables.len() as int));
                } else {
                    assert(value_ok(
                        old(self)@.globals[i - bv.len()].1,
                        old(self)@.tables.len() as int,
                    ));
                }
            }
        }
        self.push_all(&results);
        proof {
            assert(self@.globals == bv + old(self)@.globals);
            assert forall|n: Seq<char>| #[trigger]
                self@.global(n) == globals_after(old(self)@.globals, bv, n) by {
                lemma_lookup_concat(bv, old(self)@.globals, n);
            }
        }
    }

    /// Records the outcome the engine reported for running a script from
    /// source text: the returned status code, the values the run left on
    /// the stack (on failure, the one error value, left for the host to
    /// read back), and the global bindings it made. The script text must
    /// satisfy the C string convention: text with an embedded NUL is
    /// refused before it reaches the engine, with the state untouched.
    /// Running from text never reports a yield: the engine runs the chunk
    /// as a protected call.
    pub fn do_string(&mut self, script: &str, outcome: RunOutcome) -> (r: Result<
        i32,
        BoundaryError,
    >)
        requires
            old(self)@.wf(),
            old(self)@.is_open,
            !(outcome.status is Yielded),
            outcome_wf(outcome, old(self)@.tables.len() as int),
            old(self)@.stack.len() + outcome.results@.len() <= i32::MAX,
        ensures
            final(self)@.wf(),
            r is Ok <==> !has_nul(script@),
            r is Err ==> final(self)@ == old(self)@ && r == Err::<i32, BoundaryError>(
                BoundaryError::EmbeddedNul,
            ),
            r matches Ok(code) ==> ({
                &&& code == outcome.status.spec_code()
                &&& final(self)@.status == outcome.status
                &&& final(self)@.stack == old(self)@.stack + outcome.results@.map(
                    |i: int, v: LuaValue| v@,
                )
                &&& outcome.status.spec_is_error() ==> final(self)@.stack.len() > 0 && final(self)@.stack.last() == outcome.results@[0]@
                &&& outcome.status == LuaStatus::SyntaxError ==> read_tag(final(self)@.stack, -1)
                    != 0
                &&& forall|n: Seq<char>| #[trigger]
                    final(self)@.global(n) == globals_after(
                        old(self)@.globals,
                        row_view(outcome.bindings@),
                        n,
                    )
                &&& final(self)@.tables == old(self)@.tables + tables_view(outcome.new_tables@)
                &&& final(self)@.is_open == old(self)@.is_open
                &&& final(self)@.libs_opened == old(self)@.libs_opened
                &&& gc_unchanged(old(self)@, final(self)@)
            }),
    {
        if !text_is_clean(script) {
            return Err(BoundaryError::EmbeddedNul);
        }
        let code = outcome.status.code();
        self.apply_outcome(outcome);
        proof {
            if outcome.status.spec_is_error() {
                let mapped = outcome.results@.map(|i: int, v: LuaValue| v@);
                assert(mapped.len() == 1);
                assert(self@.stack.last() == mapped[0]);
            }
        }
        Ok(code)
    }

    /// Records the outcome the engine reported for running a script read
    /// from a file path by the engine itself; the wrapper does no path
    /// validation, and a missing or unreadable file surfaces as the
    /// engine's own error status. The path must satisfy the C string
    /// convention: a path with an embedded NUL is refused before it reaches
    /// the engine, with the state untouched.
    pub fn do_file(&mut self, path: &str, outcome: RunOutcome) -> (r: Result<i32, BoundaryError>)
        requires
            old(self)@.wf(),
            old(self)@.is_open,
            !(outcome.status is Yielded),
            outcome_wf(outcome, old(self)@.tables.len() as int),
            old(self)@.stack.len() + outcome.results@.len() <= i32::MAX,
        ensures
            final(self)@.wf(),
            r is Ok <==> !has_nul(path@),
            r is Err ==> final(self)@ == old(self)@ && r == Err::<i32, BoundaryError>(
                BoundaryError::EmbeddedNul,
            ),
            r matches Ok(code) ==> ({
                &&& code == outcome.status.spec_code()
                &&& final(self)@.status == outcome.status
                &&& final(self)@.stack == old(self)@.stack + outcome.results@.map(
                    |i: int, v: LuaValue| v@,
                )
                &&& outcome.status.spec_is_error() ==> final(self)@.stack.len() > 0 && final(self)@.stack.last() == outcome.results@[0]@
                &&& forall|n: Seq<char>| #[trigger]
                    final(self)@.global(n) == globals_after(
                        old(self)@.globals,
                        row_view(outcome.bindings@),
                        n,
                    )
                &&& final(self)@.tables == old(self)@.tables + tables_view(outcome.new_tables@)
                &&& final(self)@.is_open == old(self)@.is_open
                &&& final(self)@.libs_opened == old(self)@.libs_opened
                &&& gc_unchanged(old(self)@, final(self)@)
            }),
    {
        if !text_is_clean(path) {
            return Err(BoundaryError::EmbeddedNul);
        }
        let code = outcome.status.code();
        self.apply_outcome(outcome);
        proof {
            if outcome.status.spec_is_error() {
                let mapped = outcome.results@.map(|i: int, v: LuaValue| v@);
                assert(mapped.len() == 1);
                assert(self@.stack.last() == mapped[0]);
            }
        }
        Ok(code)
    }

    /// Records the outcome the engine reported for resuming the suspended
    /// execution with `nargs` arguments taken from the top of the stack:
    /// the arguments are consumed, the status becomes the report's (ok on
    /// completion, yielded when suspended again), and the values handed
    /// back — the yield's values, the body's results, or the error value —
    /// end up on top of the stack. Once resumed, control does not return
    /// until the engine yields, errors, or completes; there is no
    /// cancellation at this boundary.
    pub fn resume(&mut self, nargs: i32, outcome: RunOutcome) -> (r: i32)
        requires
            old(self)@.wf(),
            old(self)@.is_open,
            0 <= nargs <= old(self)@.stack.len(),
            outcome_wf(outcome, old(self)@.tables.len() as int),
            old(self)@.stack.len() - nargs + outcome.results@.len() <= i32::MAX,
        ensures
            final(self)@.wf(),
            r == outcome.status.spec_code(),
            final(self)@.status == outcome.status,
            final(self)@.stack == old(self)@.stack.take(old(self)@.stack.len() - nargs)
                + outcome.results@.map(|i: int, v: LuaValue| v@),
            forall|n: Seq<char>| #[trigger]
                final(self)@.global(n) == globals_after(
                    old(self)@.globals,
                    row_view(outcome.bindings@),
                    n,
                ),
            final(self)@.tables == old(self)@.tables + tables_view(outcome.new_tables@),
            final(self)@.is_open == old(self)@.is_open,
            final(self)@.libs_opened == old(self)@.libs_opened,
            gc_unchanged(old(self)@, final(self)@),
    {
        let keep = self.stack.len() - (nargs as usize);
        self.stack.truncate(keep);
        proof {
            assert(self@.stack =~= old(self)@.stack.take(keep as int));
        }
        let code = outcome.status.code();
        self.apply_outcome(outcome);
        code
    }

    /// Forwards one collector operation and relays its integer answer. The
    /// control surface the host can see is stated exactly: stop and restart
    /// toggle whether the collector runs and answer 0; the running query
    /// answers that flag as 0 or 1; setting the pause or the step
    /// multiplier stores the datum and answers the previous setting; a mode
    /// switch stores the mode and answers the constant of the previous mode
    /// (its tuning data are not tracked, so the pause and step multiplier
    /// are unspecified after one). The major-increment code belongs to an
    /// older collector, and the engine answers it, like any unknown option,
    /// with -1. What depends on the engine's heap — the kilobyte and byte
    /// counts, the step's end-of-cycle signal — is whatever the engine
    /// reported.
    pub fn collect_garbage(&mut self, what: LuaGC, data: i32, reported: i32) -> (r: i32)
        requires
            old(self)@.wf(),
            old(self)@.is_open,
        ensures
            final(self)@.wf(),
            final(self)@.stack == old(self)@.stack,
            final(self)@.globals == old(self)@.globals,
            final(self)@.tables == old(self)@.tables,
            final(self)@.status == old(self)@.status,
            final(self)@.is_open == old(self)@.is_open,
            final(self)@.libs_opened == old(self)@.libs_opened,
            r == match what {
                LuaGC::Stop => 0i32,
                LuaGC::Restart => 0i32,
                LuaGC::IsRunning => if old(self)@.gc_running {
                    1i32
                } else {
                    0i32
                },
                LuaGC::SetPause => old(self)@.gc_pause,
                LuaGC::SetStepMul => old(self)@.gc_step_mul,
                LuaGC::Generational => if old(self)@.gc_generational {
                    10i32
                } else {
                    11i32
                },
                LuaGC::Incremental => if old(self)@.gc_generational {
                    10i32
                } else {
                    11i32
                },
                LuaGC::SetMajorInc => -1i32,
                _ => reported,
            },
            final(self)@.gc_running == match what {
                LuaGC::Stop => false,
                LuaGC::Restart => true,
                _ => old(self)@.gc_running,
            },
            what is SetPause ==> final(self)@.gc_pause == data,
            !(what is SetPause || what is Generational || what is Incremental)
                ==> final(self)@.gc_pause == old(self)@.gc_pause,
            what is SetStepMul ==> final(self)@.gc_step_mul == data,
            !(what is SetStepMul || what is Generational || what is Incremental)
                ==> final(self)@.gc_step_mul == old(self)@.gc_step_mul,
            final(self)@.gc_generational == match what {
                LuaGC::Generational => true,
                LuaGC::Incremental => false,
                _ => old(self)@.gc_generational,
            },
    {
        match what {
            LuaGC::Stop => {
                self.gc_running = false;
                0
            },
            LuaGC::Restart => {
                self.gc_running = true;
                0
            },
            LuaGC::IsRunning => if self.gc_running {
                1
            } else {
                0
            },
            LuaGC::SetPause => {
                let previous = self.gc_pause;
                self.gc_pause = data;
                previous
            },
            LuaGC::SetStepMul => {
                let previous = self.gc_step_mul;
                self.gc_step_mul = data;
                previous
            },
            LuaGC::Generational => {
                let previous: i32 = if self.gc_generational {
                    10
                } else {
                    11
                };
                self.gc_generational = true;
                previous
            },
            LuaGC::Incremental => {
                let previous: i32 = if self.gc_generational {
                    10
                } else {
                    11
                };
                self.gc_generational = false;
                previous
            },
            LuaGC::SetMajorInc => -1,
            _ => reported,
        }
    }

    /// The status of the most recent execution or resume, as the engine's
    /// integer constant.
    pub fn status(&self) -> (r: i32)
        requires
            self@.wf(),
            self@.is_open,
        ensures
            r == self@.status.spec_code(),
    {
        self.status.code()
    }
}

} // verus!

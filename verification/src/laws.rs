//! Laws of the boundary protocol: what holds of every value and every
//! handle state, proved once here over the same spec functions that the
//! operations' contracts use.

use vstd::prelude::*;
use crate::engine::{
    assoc_lookup, at, read_boolean, read_number, read_tag, read_text, resolve, EngineView,
};
use crate::status::LuaStatus;
use crate::value::{spec_type_tag, ValueModel};

verus! {

/// Pushing a string and reading the top back as a string yields the text
/// pushed, exactly.
pub proof fn lemma_push_string_round_trip(stack: Seq<ValueModel>, s: Seq<char>)
    ensures
        read_text(stack.push(ValueModel::Str(s)), -1) == Some(s),
{
    let s2 = stack.push(ValueModel::Str(s));
    assert(at(s2, -1) == ValueModel::Str(s));
}

/// Pushing an integer and reading the top back as a number yields the value
/// pushed, exactly: the host's 32-bit width carries it without narrowing.
pub proof fn lemma_push_integer_round_trip(stack: Seq<ValueModel>, v: i32)
    ensures
        read_number(stack.push(ValueModel::Integer(v as int)), -1) == v as int,
{
    let s2 = stack.push(ValueModel::Integer(v as int));
    assert(at(s2, -1) == ValueModel::Integer(v as int));
}

/// Pushing a number and reading the top back as a number yields the value
/// pushed, exactly.
pub proof fn lemma_push_number_round_trip(stack: Seq<ValueModel>, v: i32)
    ensures
        read_number(stack.push(ValueModel::Number(v as int)), -1) == v as int,
{
    let s2 = stack.push(ValueModel::Number(v as int));
    assert(at(s2, -1) == ValueModel::Number(v as int));
}

/// Pushing a boolean (given, as the engine takes it, as an integer that is
/// stored as "nonzero") and reading the top back as a boolean yields the
/// truth value pushed.
pub proof fn lemma_push_boolean_round_trip(stack: Seq<ValueModel>, v: i32)
    ensures
        read_boolean(stack.push(ValueModel::Boolean(v != 0)), -1) == (v != 0),
{
    let s2 = stack.push(ValueModel::Boolean(v != 0));
    assert(at(s2, -1) == ValueModel::Boolean(v != 0));
}

/// Pushing nil and reading the top's type tag yields the nil tag, and the
/// boolean reading of nil is false.
pub proof fn lemma_push_nil_round_trip(stack: Seq<ValueModel>)
    ensures
        read_tag(stack.push(ValueModel::Nil), -1) == 0,
        !read_boolean(stack.push(ValueModel::Nil), -1),
{
    let s2 = stack.push(ValueModel::Nil);
    assert(at(s2, -1) == ValueModel::Nil);
}

/// Pushing one nil raises the depth by exactly one, and popping one value
/// afterwards returns the stack — depth and contents — to what it was.
pub proof fn lemma_push_pop_depth(stack: Seq<ValueModel>)
    ensures
        stack.push(ValueModel::Nil).len() == stack.len() + 1,
        stack.push(ValueModel::Nil).take(stack.len() as int) == stack,
{
    assert(stack.push(ValueModel::Nil).take(stack.len() as int) =~= stack);
}

/// Binding the top of the stack to a global name and then reading the name
/// back pushes a value equal to the one bound, with the matching type tag,
/// whatever the value's type. The premises are what the two operations'
/// contracts give for the binding and the reading.
pub proof fn lemma_set_then_get_global(
    pre: EngineView,
    mid: EngineView,
    post: EngineView,
    name: Seq<char>,
    tag: i32,
)
    requires
        pre.stack.len() >= 1,
        mid.global(name) == pre.stack.last(),
        post.stack == mid.stack.push(mid.global(name)),
        tag == spec_type_tag(mid.global(name)),
    ensures
        post.stack.len() == mid.stack.len() + 1,
        at(post.stack, -1) == pre.stack.last(),
        tag == spec_type_tag(pre.stack.last()),
{
    assert(at(post.stack, -1) == post.stack.last());
}

/// A resume the engine answered with a yield of some values reports the
/// yielded status code and leaves exactly those values, in order, on top of
/// the stack above what the arguments left behind. The premises are what
/// the resume contract gives.
pub proof fn lemma_resume_yield_values(
    pre: EngineView,
    post: EngineView,
    nargs: int,
    results: Seq<ValueModel>,
)
    requires
        0 <= nargs <= pre.stack.len(),
        post.status == LuaStatus::Yielded,
        post.stack == pre.stack.take(pre.stack.len() - nargs) + results,
    ensures
        post.status.spec_code() == 1,
        post.stack.len() == pre.stack.len() - nargs + results.len(),
        forall|k: int|
            0 <= k < results.len() ==> at(post.stack, -(results.len() as int) + k) == results[k],
{
    let base = pre.stack.len() - nargs;
    assert forall|k: int|
        0 <= k < results.len() implies at(post.stack, -(results.len() as int) + k)
        == results[k] by {
        let idx = -(results.len() as int) + k;
        assert(resolve(post.stack.len() as int, idx) - 1 == base + k);
        assert(post.stack[base + k] == results[k]);
    }
}

/// An unbound global name reads as nil: the empty association list binds
/// nothing.
pub proof fn lemma_unbound_global_is_nil(name: Seq<char>)
    ensures
        assoc_lookup(Seq::<(Seq<char>, ValueModel)>::empty(), name) == ValueModel::Nil,
{
}

} // verus!

//! Installation of the built-in functions into an environment.

use vstd::prelude::*;

use crate::env::{Binding, Builtin, Env, Value, ValueG};
use crate::semantics::builtin_name;

verus! {

/// The root environment's map: the five built-in functions under their
/// names.
pub open spec fn builtins_map() -> Map<Seq<char>, ValueG> {
    Map::empty().insert(builtin_name(Builtin::Print), ValueG::FuncBuiltIn(Builtin::Print)).insert(
        builtin_name(Builtin::Println),
        ValueG::FuncBuiltIn(Builtin::Println),
    ).insert(builtin_name(Builtin::Input), ValueG::FuncBuiltIn(Builtin::Input)).insert(
        builtin_name(Builtin::Int),
        ValueG::FuncBuiltIn(Builtin::Int),
    ).insert(builtin_name(Builtin::Str), ValueG::FuncBuiltIn(Builtin::Str))
}

/// Defines the built-in functions in `env`, in a fixed order, so that a
/// fresh environment afterwards holds exactly [`builtins_map`].
pub fn std_fn(env: &mut Env)
    ensures
        final(env)@.parent == old(env)@.parent,
        final(env)@.map == old(env)@.map.insert(
            builtin_name(Builtin::Print),
            ValueG::FuncBuiltIn(Builtin::Print),
        ).insert(builtin_name(Builtin::Println), ValueG::FuncBuiltIn(Builtin::Println)).insert(
            builtin_name(Builtin::Input),
            ValueG::FuncBuiltIn(Builtin::Input),
        ).insert(builtin_name(Builtin::Int), ValueG::FuncBuiltIn(Builtin::Int)).insert(
            builtin_name(Builtin::Str),
            ValueG::FuncBuiltIn(Builtin::Str),
        ),
{
    print_fn(env);
    println_fn(env);
    input_fn(env);
    int_fn(env);
    str_fn(env);
}

/// Defines one built-in under its name.
fn define_builtin(env: &mut Env, k: Builtin)
    ensures
        final(env)@.parent == old(env)@.parent,
        final(env)@.map == old(env)@.map.insert(builtin_name(k), ValueG::FuncBuiltIn(k)),
{
    let name = crate::eval::make_builtin_name(k);
    let ghost bs = env.bindings@;
    env.bindings.push(Binding { name, value: Value::FuncBuiltIn { name: k } });
    proof {
        assert(env.bindings@.drop_last() =~= bs);
        assert(env@.map =~= old(env)@.map.insert(builtin_name(k), ValueG::FuncBuiltIn(k)));
    }
}

/// Defines `print`: writes each argument's display form and returns the
/// argument count.
fn print_fn(env: &mut Env)
    ensures
        final(env)@.parent == old(env)@.parent,
        final(env)@.map == old(env)@.map.insert(
            builtin_name(Builtin::Print),
            ValueG::FuncBuiltIn(Builtin::Print),
        ),
{
    define_builtin(env, Builtin::Print)
}

/// Defines `println`: like `print` with a trailing newline.
fn println_fn(env: &mut Env)
    ensures
        final(env)@.parent == old(env)@.parent,
        final(env)@.map == old(env)@.map.insert(
            builtin_name(Builtin::Println),
            ValueG::FuncBuiltIn(Builtin::Println),
        ),
{
    define_builtin(env, Builtin::Println)
}

/// Defines `input`: prints its arguments as a prompt and reads one line.
fn input_fn(env: &mut Env)
    ensures
        final(env)@.parent == old(env)@.parent,
        final(env)@.map == old(env)@.map.insert(
            builtin_name(Builtin::Input),
            ValueG::FuncBuiltIn(Builtin::Input),
        ),
{
    define_builtin(env, Builtin::Input)
}

/// Defines `int`: numeric conversion.
fn int_fn(env: &mut Env)
    ensures
        final(env)@.parent == old(env)@.parent,
        final(env)@.map == old(env)@.map.insert(
            builtin_name(Builtin::Int),
            ValueG::FuncBuiltIn(Builtin::Int),
        ),
{
    define_builtin(env, Builtin::Int)
}

/// Defines `str`: string conversion.
fn str_fn(env: &mut Env)
    ensures
        final(env)@.parent == old(env)@.parent,
        final(env)@.map == old(env)@.map.insert(
            builtin_name(Builtin::Str),
            ValueG::FuncBuiltIn(Builtin::Str),
        ),
{
    define_builtin(env, Builtin::Str)
}

} // verus!

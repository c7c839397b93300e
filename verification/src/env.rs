//! Runtime values and the environment arena.
//!
//! Environments form a chain of name-to-value maps used for lexical
//! resolution: resolution checks the local map first, then walks parent
//! links. All environments live in one arena owned by the interpreter
//! state; a child holds its parent's index, and an environment outlives
//! every child and closure that refers to it because the arena never
//! shrinks. Every parent index is smaller than its child's own index, so
//! the chain is acyclic by construction.

use vstd::prelude::*;

use crate::error::{Diag, DiagG, ErrorType, RunError, RunErrorG};
use crate::expr::clone_chars;
use crate::std_fn::{builtins_map, std_fn};

verus! {

/// The built-in functions.
#[derive(Debug, Clone, Copy, PartialEq, Eq, Structural)]
pub enum Builtin {
    Print,
    Println,
    Input,
    Int,
    Str,
}

/// A runtime value. A number is the 64-bit encoding of a double. A
/// function holds the index of its body in the program's body arena and
/// the index of the environment captured at its declaration site.
#[derive(Debug)]
pub enum Value {
    Number(u64),
    Bool(bool),
    String(Vec<char>),
    Function { name: Vec<char>, params: Vec<Vec<char>>, body: usize, closure: usize },
    FuncBuiltIn { name: Builtin },
    Nil,
}

/// Mathematical image of a runtime value.
pub ghost enum ValueG {
    Number(u64),
    Bool(bool),
    String(Seq<char>),
    Function { name: Seq<char>, params: Seq<Seq<char>>, body: int, closure: int },
    FuncBuiltIn(Builtin),
    Nil,
}

impl View for Value {
    type V = ValueG;

    open spec fn view(&self) -> ValueG {
        match self {
            Value::Number(b) => ValueG::Number(*b),
            Value::Bool(b) => ValueG::Bool(*b),
            Value::String(s) => ValueG::String(s@),
            Value::Function { name, params, body, closure } => ValueG::Function {
                name: name@,
                params: params@.map_values(|p: Vec<char>| p@),
                body: *body as int,
                closure: *closure as int,
            },
            Value::FuncBuiltIn { name } => ValueG::FuncBuiltIn(*name),
            Value::Nil => ValueG::Nil,
        }
    }
}

impl Value {
    /// A copy of this value. A function value shares its body and its
    /// captured environment through their arena indices.
    pub fn dup(&self) -> (r: Value)
        ensures
            r@ == self@,
    {
        match self {
            Value::Number(b) => Value::Number(*b),
            Value::Bool(b) => Value::Bool(*b),
            Value::String(s) => Value::String(clone_chars(s)),
            Value::Function { name, params, body, closure } => {
                let mut ps: Vec<Vec<char>> = Vec::new();
                let mut k: usize = 0;
                while k < params.len()
                    invariant
                        0 <= k <= params.len(),
                        ps@.len() == k,
                        forall|j: int| 0 <= j < k ==> ps@[j]@ == params@[j]@,
                    decreases params.len() - k,
                {
                    ps.push(clone_chars(&params[k]));
                    k = k + 1;
                }
                proof {
                    assert(ps@.map_values(|p: Vec<char>| p@) =~= params@.map_values(
                        |p: Vec<char>| p@,
                    ));
                }
                Value::Function {
                    name: clone_chars(name),
                    params: ps,
                    body: *body,
                    closure: *closure,
                }
            },
            Value::FuncBuiltIn { name } => Value::FuncBuiltIn { name: *name },
            Value::Nil => Value::Nil,
        }
    }
}

impl Env {
    /// The root environment: no parent, pre-populated with the built-ins.
    pub fn new() -> (e: Env)
        ensures
            e@.map == builtins_map(),
            e@.parent is None,
    {
        let mut root = Env { bindings: Vec::new(), parent: None };
        proof {
            assert(root.bindings@ =~= Seq::<Binding>::empty());
            assert(root@.map =~= Map::empty());
        }
        std_fn(&mut root);
        root
    }

    /// A fresh child environment of the environment at `parent`.
    pub fn child_env(parent: usize) -> (e: Env)
        ensures
            e@.map == Map::<Seq<char>, ValueG>::empty(),
            e@.parent == Some(parent as int),
    {
        let e = Env { bindings: Vec::new(), parent: Some(parent) };
        proof {
            assert(e.bindings@ =~= Seq::<Binding>::empty());
            assert(e@.map =~= Map::<Seq<char>, ValueG>::empty());
        }
        e
    }
}

/// One name-to-value binding.
#[derive(Debug)]
pub struct Binding {
    pub name: Vec<char>,
    pub value: Value,
}

/// One environment: its bindings, later ones shadowing earlier ones of
/// the same name, and the index of its parent, if any.
#[derive(Debug)]
pub struct Env {
    pub bindings: Vec<Binding>,
    pub parent: Option<usize>,
}

/// Mathematical image of an environment.
pub ghost struct EnvG {
    pub map: Map<Seq<char>, ValueG>,
    pub parent: Option<int>,
}

/// The map an ordered binding list denotes: later bindings win.
pub open spec fn bindings_map(s: Seq<Binding>) -> Map<Seq<char>, ValueG>
    decreases s.len(),
{
    if s.len() == 0 {
        Map::empty()
    } else {
        bindings_map(s.drop_last()).insert(s.last().name@, s.last().value@)
    }
}

impl View for Env {
    type V = EnvG;

    open spec fn view(&self) -> EnvG {
        EnvG {
            map: bindings_map(self.bindings@),
            parent: match self.parent {
                Some(p) => Some(p as int),
                None => None,
            },
        }
    }
}

/// Name resolution: the local map first, then the parent chain. A parent
/// index that is not below its child's is treated as absent, which keeps
/// resolution well-defined on every state; the interpreter only ever
/// builds chains whose parent indices decrease.
pub open spec fn lookup_g(envs: Seq<EnvG>, i: int, name: Seq<char>) -> Option<ValueG>
    decreases i,
{
    if i < 0 || i >= envs.len() {
        None
    } else if envs[i].map.contains_key(name) {
        Some(envs[i].map[name])
    } else {
        match envs[i].parent {
            Some(p) => if 0 <= p < i {
                lookup_g(envs, p, name)
            } else {
                None
            },
            None => None,
        }
    }
}

/// Definition: inserts or overwrites in environment `i`'s own map.
pub open spec fn define_g(envs: Seq<EnvG>, i: int, name: Seq<char>, v: ValueG) -> Seq<EnvG> {
    if 0 <= i < envs.len() {
        envs.update(i, EnvG { map: envs[i].map.insert(name, v), parent: envs[i].parent })
    } else {
        envs
    }
}

/// Assignment: mutates the nearest enclosing environment that already
/// binds `name`, or reports that none does.
pub open spec fn assign_g(envs: Seq<EnvG>, i: int, name: Seq<char>, v: ValueG) -> Option<
    Seq<EnvG>,
>
    decreases i,
{
    if i < 0 || i >= envs.len() {
        None
    } else if envs[i].map.contains_key(name) {
        Some(envs.update(i, EnvG { map: envs[i].map.insert(name, v), parent: envs[i].parent }))
    } else {
        match envs[i].parent {
            Some(p) => if 0 <= p < i {
                assign_g(envs, p, name, v)
            } else {
                None
            },
            None => None,
        }
    }
}

/// Mathematical image of the interpreter state.
pub ghost struct StateG {
    pub envs: Seq<EnvG>,
    pub output: Seq<char>,
    pub diags: Seq<DiagG>,
    pub input: Seq<Seq<char>>,
    pub input_pos: int,
}

/// The interpreter state: the environment arena, the bytes written by the
/// print family so far, the recoverable diagnostics reported so far, and
/// the line-oriented input stream with a cursor.
#[derive(Debug)]
pub struct Interp {
    pub envs: Vec<Env>,
    pub output: Vec<char>,
    pub diags: Vec<Diag>,
    pub input: Vec<Vec<char>>,
    pub input_pos: usize,
}

impl View for Interp {
    type V = StateG;

    open spec fn view(&self) -> StateG {
        StateG {
            envs: self.envs@.map_values(|e: Env| e@),
            output: self.output@,
            diags: self.diags@.map_values(|d: Diag| d@),
            input: self.input@.map_values(|l: Vec<char>| l@),
            input_pos: self.input_pos as int,
        }
    }
}

// ---------------------------------------------------------------------------
// Lemmas connecting the binding list to its map
// ---------------------------------------------------------------------------

/// A backward search that found `name` at `j`, with no later occurrence,
/// found the map's value.
proof fn lemma_bindings_found(s: Seq<Binding>, name: Seq<char>, j: int)
    requires
        0 <= j < s.len(),
        s[j].name@ == name,
        forall|k: int| j < k < s.len() ==> s[k].name@ != name,
    ensures
        bindings_map(s).contains_key(name),
        bindings_map(s)[name] == s[j].value@,
    decreases s.len(),
{
    if j == s.len() - 1 {
    } else {
        lemma_bindings_found(s.drop_last(), name, j);
    }
}

/// A backward search that found no occurrence of `name` finds no entry.
proof fn lemma_bindings_absent(s: Seq<Binding>, name: Seq<char>)
    requires
        forall|k: int| 0 <= k < s.len() ==> s[k].name@ != name,
    ensures
        !bindings_map(s).contains_key(name),
    decreases s.len(),
{
    if s.len() > 0 {
        lemma_bindings_absent(s.drop_last(), name);
    }
}

/// Replacing the last occurrence of `name` updates the map's entry.
proof fn lemma_bindings_update_last(s: Seq<Binding>, name: Seq<char>, j: int, b: Binding)
    requires
        0 <= j < s.len(),
        s[j].name@ == name,
        b.name@ == name,
        forall|k: int| j < k < s.len() ==> s[k].name@ != name,
    ensures
        bindings_map(s.update(j, b)) == bindings_map(s).insert(name, b.value@),
    decreases s.len(),
{
    let t = s.update(j, b);
    if j == s.len() - 1 {
        assert(t.drop_last() =~= s.drop_last());
        assert(bindings_map(t) =~= bindings_map(s).insert(name, b.value@));
    } else {
        lemma_bindings_update_last(s.drop_last(), name, j, b);
        assert(t.drop_last() =~= s.drop_last().update(j, b));
        assert(t.last() == s.last());
        assert(bindings_map(t) =~= bindings_map(s).insert(name, b.value@));
    }
}

// ---------------------------------------------------------------------------
// Executable state operations
// ---------------------------------------------------------------------------

impl Interp {
    /// Looks a name up from environment `env` outward, returning a copy of
    /// the value found.
    pub fn get(&self, env: usize, name: &Vec<char>) -> (r: Option<Value>)
        ensures
            match lookup_g(self@.envs, env as int, name@) {
                Some(v) => r matches Some(rv) && rv@ == v,
                None => r is None,
            },
    {
        let mut cur = env;
        loop
            invariant
                lookup_g(self@.envs, env as int, name@) == lookup_g(
                    self@.envs,
                    cur as int,
                    name@,
                ),
            decreases cur,
        {
            if cur >= self.envs.len() {
                return None;
            }
            let e = &self.envs[cur];
            let ghost bs = e.bindings@;
            assert(self@.envs[cur as int].map == bindings_map(bs));
            let mut k = e.bindings.len();
            while k > 0
                invariant
                    cur < self.envs.len(),
                    k <= e.bindings.len(),
                    e == &self.envs[cur as int],
                    bs == e.bindings@,
                    self@.envs[cur as int].map == bindings_map(bs),
                    lookup_g(self@.envs, env as int, name@) == lookup_g(
                        self@.envs,
                        cur as int,
                        name@,
                    ),
                    forall|t: int| k <= t < bs.len() ==> bs[t].name@ != name@,
                decreases k,
            {
                k = k - 1;
                if crate::expr::chars_eq(&e.bindings[k].name, name) {
                    proof {
                        lemma_bindings_found(bs, name@, k as int);
                        assert(lookup_g(self@.envs, cur as int, name@) == Some(
                            bs[k as int].value@,
                        ));
                    }
                    return Some(e.bindings[k].value.dup());
                }
            }
            proof {
                lemma_bindings_absent(bs, name@);
            }
            match e.parent {
                Some(p) => {
                    if p < cur {
                        cur = p;
                    } else {
                        return None;
                    }
                },
                None => {
                    return None;
                },
            }
        }
    }

    /// Defines `name` in environment `env`'s own map, shadowing any outer
    /// binding. An index outside the arena leaves the state unchanged.
    pub fn define(&mut self, env: usize, name: Vec<char>, v: Value)
        ensures
            final(self)@ == (StateG {
                envs: define_g(old(self)@.envs, env as int, name@, v@),
                ..old(self)@
            }),
    {
        let ghost pre = self@;
        let ghost ng = name@;
        let ghost vg = v@;
        if env < self.envs.len() {
            let ghost oldenv = self.envs@[env as int];
            self.envs[env].bindings.push(Binding { name, value: v });
            proof {
                let nbs = self.envs@[env as int].bindings@;
                assert(nbs.drop_last() =~= oldenv.bindings@);
                assert(nbs.last().name@ == ng && nbs.last().value@ == vg);
                assert(bindings_map(nbs) == bindings_map(oldenv.bindings@).insert(ng, vg));
                assert(self@.envs =~= define_g(pre.envs, env as int, ng, vg));
                assert(self@ =~= (StateG { envs: define_g(pre.envs, env as int, ng, vg), ..pre }));
            }
        } else {
            proof {
                assert(self@.envs =~= define_g(pre.envs, env as int, ng, vg));
                assert(self@ =~= (StateG { envs: define_g(pre.envs, env as int, ng, vg), ..pre }));
            }
        }
    }

    /// Assigns to the nearest enclosing binding of `name`, or reports that
    /// no enclosing scope defines it. Assignment never creates a binding.
    pub fn assign(&mut self, env: usize, name: &Vec<char>, v: Value) -> (r: bool)
        ensures
            match assign_g(old(self)@.envs, env as int, name@, v@) {
                Some(envs2) => r && final(self)@ == (StateG { envs: envs2, ..old(self)@ }),
                None => !r && final(self)@ == old(self)@ && final(self).envs@ == old(self).envs@,
            },
    {
        let ghost pre = self@;
        let mut cur = env;
        loop
            invariant
                self == old(self),
                pre == self@,
                assign_g(pre.envs, env as int, name@, v@) == assign_g(
                    pre.envs,
                    cur as int,
                    name@,
                    v@,
                ),
            decreases cur,
        {
            if cur >= self.envs.len() {
                return false;
            }
            let ghost bs = self.envs@[cur as int].bindings@;
            let mut k = self.envs[cur].bindings.len();
            while k > 0
                invariant
                    cur < self.envs.len(),
                    self == old(self),
                    pre == self@,
                    assign_g(pre.envs, env as int, name@, v@) == assign_g(
                        pre.envs,
                        cur as int,
                        name@,
                        v@,
                    ),
                    k <= self.envs@[cur as int].bindings.len(),
                    bs == self.envs@[cur as int].bindings@,
                    pre.envs[cur as int].map == bindings_map(bs),
                    forall|t: int| k <= t < bs.len() ==> bs[t].name@ != name@,
                decreases k,
            {
                k = k - 1;
                if crate::expr::chars_eq(&self.envs[cur].bindings[k].name, name) {
                    proof {
                        lemma_bindings_found(bs, name@, k as int);
                    }
                    let b = Binding { name: clone_chars(name), value: v };
                    proof {
                        lemma_bindings_update_last(bs, name@, k as int, b);
                    }
                    let ghost oldenv = self.envs@[cur as int];
                    self.envs[cur].bindings.set(k, b);
                    proof {
                        assert(self.envs@[cur as int].bindings@ =~= bs.update(k as int, b));
                        assert(self.envs@[cur as int]@.map == bindings_map(bs).insert(name@, b.value@));
                        assert(self@.envs =~= pre.envs.update(
                            cur as int,
                            EnvG {
                                map: pre.envs[cur as int].map.insert(name@, v@),
                                parent: pre.envs[cur as int].parent,
                            },
                        ));
                        assert(assign_g(pre.envs, cur as int, name@, v@) == Some(self@.envs));
                        assert(self@ =~= (StateG { envs: self@.envs, ..pre }));
                    }
                    return true;
                }
            }
            proof {
                lemma_bindings_absent(bs, name@);
            }
            let parent = self.envs[cur].parent;
            match parent {
                Some(p) => {
                    if p < cur {
                        cur = p;
                    } else {
                        return false;
                    }
                },
                None => {
                    return false;
                },
            }
        }
    }

    /// Creates a fresh child environment of `parent` and returns its index.
    pub fn push_env(&mut self, parent: usize) -> (r: usize)
        ensures
            r as int == old(self)@.envs.len(),
            final(self)@ == (StateG {
                envs: old(self)@.envs.push(
                    EnvG { map: Map::empty(), parent: Some(parent as int) },
                ),
                ..old(self)@
            }),
    {
        let ghost pre = self@;
        let r = self.envs.len();
        self.envs.push(Env::child_env(parent));
        proof {
            assert(self@.envs =~= pre.envs.push(
                EnvG { map: Map::empty(), parent: Some(parent as int) },
            ));
        }
        r
    }

    /// Appends text to the output.
    pub fn append_out(&mut self, text: &Vec<char>)
        ensures
            final(self)@ == (StateG { output: old(self)@.output + text@, ..old(self)@ }),
    {
        let ghost pre = self@;
        let mut k: usize = 0;
        while k < text.len()
            invariant
                0 <= k <= text.len(),
                self.envs@ == old(self).envs@,
                self.diags@ == old(self).diags@,
                self.input@ == old(self).input@,
                self.input_pos == old(self).input_pos,
                self.output@ == old(self).output@ + text@.subrange(0, k as int),
            decreases text.len() - k,
        {
            self.output.push(text[k]);
            assert(self.output@ =~= old(self).output@ + text@.subrange(0, k + 1 as int));
            k = k + 1;
        }
        proof {
            assert(text@.subrange(0, text@.len() as int) =~= text@);
            assert(self@ =~= (StateG { output: pre.output + text@, ..pre }));
        }
    }

    /// Appends one character to the output.
    pub fn push_out(&mut self, c: char)
        ensures
            final(self)@ == (StateG { output: old(self)@.output.push(c), ..old(self)@ }),
    {
        self.output.push(c);
        proof {
            assert(self@ =~= (StateG { output: old(self)@.output.push(c), ..old(self)@ }));
        }
    }

    /// Records a recoverable diagnostic.
    pub fn report(&mut self, kind: ErrorType, ctx: Vec<char>)
        ensures
            final(self)@ == (StateG {
                diags: old(self)@.diags.push(DiagG { kind, ctx: ctx@ }),
                ..old(self)@
            }),
    {
        let ghost pre = self@;
        let ghost dg = DiagG { kind, ctx: ctx@ };
        self.diags.push(Diag { kind, ctx });
        proof {
            assert(self@.diags =~= pre.diags.push(dg));
            assert(self@ =~= (StateG { diags: pre.diags.push(dg), ..pre }));
        }
    }

    /// Reads the next line of input, or an empty line when the stream is
    /// exhausted, and advances the cursor past what was read.
    pub fn read_line(&mut self) -> (r: Vec<char>)
        ensures
            r@ == read_line_text(old(self)@),
            final(self)@ == (StateG { input_pos: read_line_pos(old(self)@), ..old(self)@ }),
    {
        let ghost pre = self@;
        if self.input_pos < self.input.len() {
            let line = clone_chars(&self.input[self.input_pos]);
            self.input_pos = self.input_pos + 1;
            proof {
                assert(self@ =~= (StateG { input_pos: read_line_pos(pre), ..pre }));
            }
            line
        } else {
            proof {
                assert(self@ =~= (StateG { input_pos: read_line_pos(pre), ..pre }));
            }
            Vec::new()
        }
    }
}

/// The text the next read yields: the line under the cursor, or an empty
/// line when the stream is exhausted.
pub open spec fn read_line_text(s: StateG) -> Seq<char> {
    if 0 <= s.input_pos < s.input.len() {
        s.input[s.input_pos]
    } else {
        Seq::empty()
    }
}

/// The cursor after a read.
pub open spec fn read_line_pos(s: StateG) -> int {
    if 0 <= s.input_pos < s.input.len() {
        s.input_pos + 1
    } else {
        s.input_pos
    }
}

} // verus!

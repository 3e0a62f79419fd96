//! Variables.

use crate::model::Val;
use crate::runtime::object::W_Root;
use crate::text::str_eq;
use crate::value::{held, Value};
use crate::runtime::interned::{held_view, HeldV};
use vstd::prelude::*;

verus! {

/// Named values. No name is bound twice.
#[derive(Debug)]
pub struct Bindings {
    vars: Vec<(String, Value)>,
}

/// Whether `name` is bound at `i`.
spec fn bound_at(vars: Seq<(String, Value)>, name: Seq<char>, i: int) -> bool {
    0 <= i < vars.len() && vars[i].0@ == name
}

/// What the names are bound to.
spec fn bound_values(vars: Seq<(String, Value)>) -> Map<Seq<char>, Value> {
    Map::new(
        |name: Seq<char>| exists|i: int| bound_at(vars, name, i),
        |name: Seq<char>| vars[choose|i: int| bound_at(vars, name, i)].1,
    )
}

impl View for Bindings {
    type V = Map<Seq<char>, Val>;

    open spec fn view(&self) -> Map<Seq<char>, Val> {
        Map::new(
            |name: Seq<char>| self.values().dom().contains(name),
            |name: Seq<char>| self.values()[name]@,
        )
    }
}

impl Bindings {
    #[verifier::type_invariant]
    spec fn inv(self) -> bool {
        forall|i: int, j: int|
            0 <= i < self.vars@.len() && 0 <= j < self.vars@.len() && (#[trigger] self.vars@[i]).0@
                == (#[trigger] self.vars@[j]).0@ ==> i == j
    }

    /// What the names are bound to.
    pub closed spec fn values(&self) -> Map<Seq<char>, Value> {
        bound_values(self.vars@)
    }

    /// The leaves that names are bound to.
    pub open spec fn leaves(&self) -> Map<Seq<char>, W_Root> {
        Map::new(
            |name: Seq<char>| self.values().dom().contains(name) && held(self.values()[name]) is Some,
            |name: Seq<char>| held(self.values()[name])->0,
        )
    }

    /// No variables.
    pub fn new() -> (r: Bindings)
        ensures
            r.values() == Map::<Seq<char>, Value>::empty(),
            r@ == Map::<Seq<char>, Val>::empty(),
            r.leaves() == Map::<Seq<char>, W_Root>::empty(),
    {
        let r = Bindings { vars: Vec::new() };
        assert(r.values() =~= Map::<Seq<char>, Value>::empty());
        assert(r@ =~= Map::<Seq<char>, Val>::empty());
        assert(r.leaves() =~= Map::<Seq<char>, W_Root>::empty());
        r
    }

    /// The place of a variable.
    fn position(&self, name: &str) -> (r: Option<usize>)
        ensures
            match r {
                Some(i) => bound_at(self.vars@, name@, i as int),
                None => forall|i: int| !#[trigger] bound_at(self.vars@, name@, i),
            },
    {
        let mut i: usize = 0;
        while i < self.vars.len()
            invariant
                i <= self.vars@.len(),
                forall|j: int| 0 <= j < i ==> !#[trigger] bound_at(self.vars@, name@, j),
            decreases self.vars@.len() - i,
        {
            if str_eq(self.vars[i].0.as_str(), name) {
                return Some(i);
            }
            i = i + 1;
        }
        None
    }

    /// The value of a variable.
    pub fn get(&self, name: &str) -> (r: Option<Value>)
        ensures
            match r {
                Some(v) => self.values().dom().contains(name@) && v == self.values()[name@],
                None => !self.values().dom().contains(name@),
            },
    {
        proof {
            use_type_invariant(self);
        }
        match self.position(name) {
            Some(i) => {
                let ghost c = choose|j: int| bound_at(self.vars@, name@, j);
                assert(bound_at(self.vars@, name@, i as int));
                assert(bound_at(self.vars@, name@, c));
                assert(self.vars@[c].0@ == self.vars@[i as int].0@);
                Some(self.vars[i].1.clone())
            },
            None => None,
        }
    }

    /// Bind `name` to `value`, in place of what it was bound to.
    pub fn bind(&mut self, name: &str, value: Value)
        ensures
            final(self).values() == old(self).values().insert(name@, value),
            final(self)@ == old(self)@.insert(name@, value@),
            final(self).leaves() == match held(value) {
                Some(w) => old(self).leaves().insert(name@, w),
                None => old(self).leaves().remove(name@),
            },
    {
        proof {
            use_type_invariant(&*self);
        }
        let at = self.position(name);
        let ghost was = self.values();
        let ghost was_view = self@;
        let ghost was_leaves = self.leaves();
        let ghost before = self.vars@;
        let mut vars: Vec<(String, Value)> = Vec::new();
        std::mem::swap(&mut vars, &mut self.vars);
        match at {
            Some(i) => {
                vars[i] = (name.to_owned(), value);
                proof {
                    lemma_bound(before, vars@, name@, value, i as int);
                }
                self.vars = vars;
            },
            None => {
                vars.push((name.to_owned(), value));
                proof {
                    lemma_bound(before, vars@, name@, value, before.len() as int);
                }
                self.vars = vars;
            },
        }
        proof {
            assert(self.values() == was.insert(name@, value));
            assert(self@ =~= was_view.insert(name@, value@));
            match held(value) {
                Some(w) => assert(self.leaves() =~= was_leaves.insert(name@, w)),
                None => assert(self.leaves() =~= was_leaves.remove(name@)),
            }
        }
    }

    /// A copy. The values are shared.
    pub fn copy(&self) -> (r: Bindings)
        ensures
            r.values() == self.values(),
    {
        proof {
            use_type_invariant(self);
        }
        let mut vars: Vec<(String, Value)> = Vec::new();
        let mut i: usize = 0;
        while i < self.vars.len()
            invariant
                i <= self.vars@.len(),
                vars@ == self.vars@.take(i as int),
            decreases self.vars@.len() - i,
        {
            vars.push((self.vars[i].0.clone(), self.vars[i].1.clone()));
            assert(vars@ =~= self.vars@.take(i + 1));
            i = i + 1;
        }
        assert(vars@ =~= self.vars@);
        Bindings { vars }
    }
}

/// Binding a name at one place, and leaving the others, changes the map there only.
proof fn lemma_bound(
    before: Seq<(String, Value)>,
    after: Seq<(String, Value)>,
    name: Seq<char>,
    v: Value,
    at: int,
)
    requires
        0 <= at <= before.len(),
        after.len() == if at == before.len() {
            before.len() + 1
        } else {
            before.len()
        },
        at < before.len() ==> before[at].0@ == name,
        at == before.len() ==> forall|i: int| !#[trigger] bound_at(before, name, i),
        after[at].0@ == name,
        after[at].1 == v,
        forall|i: int| 0 <= i < before.len() && i != at ==> #[trigger] after[i] == before[i],
        forall|i: int, j: int|
            0 <= i < before.len() && 0 <= j < before.len() && (#[trigger] before[i]).0@ == (
            #[trigger] before[j]).0@ ==> i == j,
    ensures
        bound_values(after) == bound_values(before).insert(name, v),
        forall|i: int, j: int|
            0 <= i < after.len() && 0 <= j < after.len() && (#[trigger] after[i]).0@ == (
            #[trigger] after[j]).0@ ==> i == j,
{
    assert forall|i: int, j: int|
        0 <= i < after.len() && 0 <= j < after.len() && (#[trigger] after[i]).0@ == (
        #[trigger] after[j]).0@ implies i == j by {
        assert(i != at ==> !(at == before.len() && bound_at(before, name, i)));
        assert(j != at ==> !(at == before.len() && bound_at(before, name, j)));
        if i != at && j != at {
            assert(before[i].0@ == before[j].0@);
        } else if i == at && j != at {
            if at < before.len() {
                assert(before[at].0@ == before[j].0@);
            } else {
                assert(bound_at(before, name, j));
            }
        } else if i != at && j == at {
            if at < before.len() {
                assert(before[at].0@ == before[i].0@);
            } else {
                assert(bound_at(before, name, i));
            }
        }
    }
    let l = bound_values(after);
    let r = bound_values(before).insert(name, v);
    assert(bound_at(after, name, at));
    assert forall|k: Seq<char>| l.dom().contains(k) == r.dom().contains(k) by {
        if k != name {
            if exists|i: int| bound_at(after, k, i) {
                let i = choose|i: int| bound_at(after, k, i);
                assert(bound_at(before, k, i));
            }
            if exists|i: int| bound_at(before, k, i) {
                let i = choose|i: int| bound_at(before, k, i);
                assert(bound_at(after, k, i));
            }
        }
    }
    assert forall|k: Seq<char>| l.dom().contains(k) implies l[k] == r[k] by {
        let i = choose|i: int| bound_at(after, k, i);
        assert(bound_at(after, k, i));
        if k == name {
            assert(after[i].0@ == after[at].0@);
        } else {
            assert(bound_at(before, k, i));
            let j = choose|j: int| bound_at(before, k, j);
            assert(bound_at(before, k, j));
            assert(before[i].0@ == before[j].0@);
        }
    }
    assert(l =~= r);
}

impl Default for Bindings {
    fn default() -> (r: Bindings)
        ensures
            r.values() == Map::<Seq<char>, Value>::empty(),
    {
        Bindings::new()
    }
}

/// What an expression is evaluated in: the variables of the program.
#[derive(Debug)]
pub struct Context {
    pub variables: Bindings,
}

impl Context {
    /// A context without variables.
    pub fn new() -> (r: Context)
        ensures
            r.variables.values() == Map::<Seq<char>, Value>::empty(),
            r.variables@ == Map::<Seq<char>, Val>::empty(),
            r.variables.leaves() == Map::<Seq<char>, W_Root>::empty(),
    {
        Context { variables: Bindings::new() }
    }

    /// Bind a variable.
    pub fn add_variable_from_value(&mut self, name: &str, value: Value)
        ensures
            final(self).variables.values() == old(self).variables.values().insert(name@, value),
            final(self).variables@ == old(self).variables@.insert(name@, value@),
            final(self).variables.leaves() == match held(value) {
                Some(w) => old(self).variables.leaves().insert(name@, w),
                None => old(self).variables.leaves().remove(name@),
            },
    {
        self.variables.bind(name, value);
    }
}

impl Default for Context {
    fn default() -> (r: Context)
        ensures
            r.variables.values() == Map::<Seq<char>, Value>::empty(),
            r.variables@ == Map::<Seq<char>, Val>::empty(),
            r.variables.leaves() == Map::<Seq<char>, W_Root>::empty(),
    {
        Context::new()
    }
}

/// The names in sight: those of the program, and those that the enclosing
/// comprehensions bind. `leaves` are the program's variables that are held as leaves.
pub struct ScopeV {
    pub globals: Map<Seq<char>, Val>,
    pub locals: Map<Seq<char>, HeldV>,
    pub leaves: Map<Seq<char>, W_Root>,
}

impl ScopeV {
    /// What a name is. A comprehension's variable shadows the program's.
    pub open spec fn load(self, name: Seq<char>) -> Option<Val> {
        if self.locals.dom().contains(name) {
            Some(self.locals[name].val)
        } else if self.globals.dom().contains(name) {
            Some(self.globals[name])
        } else {
            None
        }
    }

    /// The leaf that a name is held as, if it is held as one.
    pub open spec fn leaf(self, name: Seq<char>) -> Option<W_Root> {
        if self.locals.dom().contains(name) {
            self.locals[name].leaf
        } else if self.leaves.dom().contains(name) {
            Some(self.leaves[name])
        } else {
            None
        }
    }

    /// The scope with a comprehension's variable bound.
    pub open spec fn bind(self, name: Seq<char>, v: HeldV) -> ScopeV {
        ScopeV { locals: self.locals.insert(name, v), ..self }
    }
}

/// The names of a program, before any comprehension.
pub open spec fn root_scope(ctx: Context) -> ScopeV {
    ScopeV {
        globals: ctx.variables@,
        locals: Map::<Seq<char>, HeldV>::empty(),
        leaves: ctx.variables.leaves(),
    }
}

/// The names in sight while an expression is evaluated.
#[derive(Debug)]
pub struct Scope<'a> {
    context: &'a Context,
    locals: Bindings,
}

impl<'a> View for Scope<'a> {
    type V = ScopeV;

    closed spec fn view(&self) -> ScopeV {
        ScopeV {
            globals: self.context.variables@,
            locals: self.locals.values().map_values(|v: Value| held_view(v)),
            leaves: self.context.variables.leaves(),
        }
    }
}

impl<'a> Scope<'a> {
    /// The program's names.
    pub fn root(context: &'a Context) -> (r: Scope<'a>)
        ensures
            r@ == root_scope(*context),
    {
        let r = Scope { context, locals: Bindings::new() };
        assert(r@.locals =~= Map::<Seq<char>, HeldV>::empty());
        r
    }

    /// A scope of its own for a comprehension, with the same names in sight.
    pub fn new_inner_scope(&self) -> (r: Scope<'a>)
        ensures
            r@ == self@,
    {
        Scope { context: self.context, locals: self.locals.copy() }
    }

    /// What a name is.
    pub fn load_ident(&self, name: &str) -> (r: Option<Value>)
        ensures
            match r {
                Some(v) => self@.load(name@) == Some(v@) && self@.leaf(name@) == held(v),
                None => self@.load(name@) is None,
            },
    {
        match self.locals.get(name) {
            Some(v) => Some(v),
            None => self.context.variables.get(name),
        }
    }

    /// Whether an enclosing comprehension binds the name.
    pub fn is_comprehension_variable(&self, name: &str) -> (r: bool)
        ensures
            r == self@.locals.dom().contains(name@),
    {
        self.locals.get(name).is_some()
    }

    /// Bind a comprehension's variable.
    pub fn rebind(&mut self, name: &str, value: Value)
        ensures
            final(self)@ == old(self)@.bind(name@, held_view(value)),
    {
        let mut locals = Bindings::new();
        std::mem::swap(&mut locals, &mut self.locals);
        locals.bind(name, value);
        self.locals = locals;
        assert(self@.locals =~= old(self)@.locals.insert(name@, held_view(value)));
    }
}

} // verus!

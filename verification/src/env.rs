//! Scopes: the names that are bound, and what they are bound to.
//!
//! An environment is one global scope and, above it, the scopes of the
//! frames that are active, the innermost last. A name is looked for from the
//! innermost scope outwards and in the global scope last. An assignment
//! changes the binding that a lookup would find; where there is none, it
//! makes one in the innermost scope.

use vstd::prelude::*;
use vstd::string::*;
use crate::text::same_text;
use crate::value::{copy_value, str_entry_models, FasValue, ValueModel};

verus! {

/// The bindings of one scope, in the order in which they were made.
#[derive(Debug)]
pub struct Scope {
    pub entries: Vec<(String, FasValue)>,
}

/// What a scope is, as mathematics: names and what they are bound to.
pub type ScopeModel = Seq<(Seq<char>, ValueModel)>;

impl View for Scope {
    type V = ScopeModel;

    open spec fn view(&self) -> ScopeModel {
        str_entry_models(self.entries)
    }
}

/// The index of the first binding of `name` at or after `from`.
pub open spec fn position_from(scope: ScopeModel, name: Seq<char>, from: int) -> Option<int>
    decreases scope.len() - from,
{
    if from < 0 || from >= scope.len() {
        None
    } else if scope[from].0 == name {
        Some(from)
    } else {
        position_from(scope, name, from + 1)
    }
}

/// The index of the first binding of `name`.
pub open spec fn position(scope: ScopeModel, name: Seq<char>) -> Option<int> {
    position_from(scope, name, 0)
}

/// What `name` is bound to in the scope.
pub open spec fn bound_in(scope: ScopeModel, name: Seq<char>) -> Option<ValueModel> {
    match position(scope, name) {
        Some(i) => Some(scope[i].1),
        None => None,
    }
}

/// The scope after `name` has been bound to `value` in it: the binding that
/// there was is replaced, and a new one comes last.
pub open spec fn rebound(scope: ScopeModel, name: Seq<char>, value: ValueModel) -> ScopeModel {
    match position(scope, name) {
        Some(i) => scope.update(i, (name, value)),
        None => scope.push((name, value)),
    }
}

/// What `name` is bound to in the environment: in the innermost of the
/// first `depth` scopes that binds it, and else in the global scope.
pub open spec fn looked_up(
    global: ScopeModel,
    scopes: Seq<ScopeModel>,
    depth: int,
    name: Seq<char>,
) -> Option<ValueModel>
    decreases depth,
{
    if depth <= 0 || depth > scopes.len() {
        bound_in(global, name)
    } else {
        match bound_in(scopes[depth - 1], name) {
            Some(v) => Some(v),
            None => looked_up(global, scopes, depth - 1, name),
        }
    }
}

/// The index of the innermost of the first `depth` scopes that binds
/// `name`.
pub open spec fn owner(scopes: Seq<ScopeModel>, depth: int, name: Seq<char>) -> Option<int>
    decreases depth,
{
    if depth <= 0 || depth > scopes.len() {
        None
    } else if position(scopes[depth - 1], name) is Some {
        Some(depth - 1)
    } else {
        owner(scopes, depth - 1, name)
    }
}

/// The environment after `name` has been assigned `value`. The scope that
/// binds the name, the innermost such, is changed, and else the global
/// scope if it binds the name; a name that is bound nowhere is bound in the
/// innermost scope, which is the global one where no other is active.
pub open spec fn assigned(
    global: ScopeModel,
    scopes: Seq<ScopeModel>,
    name: Seq<char>,
    value: ValueModel,
) -> (ScopeModel, Seq<ScopeModel>) {
    match owner(scopes, scopes.len() as int, name) {
        Some(i) => (global, scopes.update(i, rebound(scopes[i], name, value))),
        None => if position(global, name) is Some || scopes.len() == 0 {
            (rebound(global, name, value), scopes)
        } else {
            (
                global,
                scopes.update(
                    scopes.len() - 1,
                    rebound(scopes[scopes.len() - 1], name, value),
                ),
            )
        },
    }
}

impl Scope {
    /// A scope without bindings.
    pub fn new() -> (s: Scope)
        ensures
            s@ == Seq::<(Seq<char>, ValueModel)>::empty(),
    {
        let s = Scope { entries: Vec::new() };
        assert(s@ =~= Seq::<(Seq<char>, ValueModel)>::empty());
        s
    }

    /// The index of the first binding of `name`.
    pub fn find(&self, name: &str) -> (found: Option<usize>)
        ensures
            match position(self@, name@) {
                Some(i) => found == Some(i as usize) && 0 <= i < self.entries.len(),
                None => found is None,
            },
    {
        let mut i: usize = 0;
        while i < self.entries.len()
            invariant
                i <= self.entries.len(),
                position(self@, name@) == position_from(self@, name@, i as int),
            decreases self.entries.len() - i,
        {
            if same_text(self.entries[i].0.as_str(), name) {
                return Some(i);
            }
            i = i + 1;
        }
        None
    }

    /// A copy of what `name` is bound to.
    pub fn get(&self, name: &str) -> (value: Option<FasValue>)
        ensures
            match bound_in(self@, name@) {
                Some(v) => value is Some && value->Some_0@ == v,
                None => value is None,
            },
    {
        match self.find(name) {
            Some(i) => Some(copy_value(&self.entries[i].1)),
            None => None,
        }
    }

    /// Binds `name` to `value`, in place of the binding that there was.
    pub fn set(&mut self, name: String, value: FasValue)
        ensures
            final(self)@ == rebound(old(self)@, name@, value@),
    {
        match self.find(name.as_str()) {
            Some(i) => {
                self.entries.set(i, (name, value));
                assert(self@ =~= rebound(old(self)@, name@, value@));
            },
            None => {
                self.entries.push((name, value));
                assert(self@ =~= rebound(old(self)@, name@, value@));
            },
        }
    }
}

/// After a name has been bound in a scope, it is bound to the value there,
/// and every other name is bound as before.
pub proof fn lemma_rebound(scope: ScopeModel, name: Seq<char>, value: ValueModel, other: Seq<char>)
    ensures
        bound_in(rebound(scope, name, value), name) == Some(value),
        other != name ==> bound_in(rebound(scope, name, value), other) == bound_in(scope, other),
{
    lemma_rebound_one(scope, name, value, name);
    lemma_rebound_one(scope, name, value, other);
}

/// A name that no scope up to a depth binds is looked up in the global
/// scope.
proof fn lemma_unowned(global: ScopeModel, scopes: Seq<ScopeModel>, depth: int, name: Seq<char>)
    requires
        owner(scopes, depth, name) is None,
    ensures
        looked_up(global, scopes, depth, name) == bound_in(global, name),
    decreases depth,
{
    if 0 < depth <= scopes.len() {
        lemma_unowned(global, scopes, depth - 1, name);
    }
}

/// A name that has been bound anew in the scope that owns it is looked up
/// as the new value.
proof fn lemma_owned(
    global: ScopeModel,
    scopes: Seq<ScopeModel>,
    depth: int,
    name: Seq<char>,
    value: ValueModel,
)
    requires
        owner(scopes, depth, name) is Some,
    ensures
        ({
            let i = owner(scopes, depth, name)->Some_0;
            &&& 0 <= i < depth <= scopes.len()
            &&& looked_up(
                global,
                scopes.update(i, rebound(scopes[i], name, value)),
                depth,
                name,
            ) == Some(value)
        }),
    decreases depth,
{
    let i = owner(scopes, depth, name)->Some_0;
    if position(scopes[depth - 1], name) is Some {
        lemma_rebound_one(scopes[depth - 1], name, value, name);
    } else {
        lemma_owned(global, scopes, depth - 1, name, value);
        let after = scopes.update(i, rebound(scopes[i], name, value));
        assert(after[depth - 1] == scopes[depth - 1]);
    }
}

/// What has been assigned to a name is what the name is looked up as
/// afterwards, from the same place.
pub proof fn lemma_assigned_is_looked_up(
    global: ScopeModel,
    scopes: Seq<ScopeModel>,
    name: Seq<char>,
    value: ValueModel,
)
    ensures
        ({
            let after = assigned(global, scopes, name, value);
            looked_up(after.0, after.1, after.1.len() as int, name) == Some(value)
        }),
{
    let depth = scopes.len() as int;
    match owner(scopes, depth, name) {
        Some(i) => {
            lemma_owned(global, scopes, depth, name, value);
        },
        None => {
            if position(global, name) is Some || scopes.len() == 0 {
                lemma_unowned(rebound(global, name, value), scopes, depth, name);
                lemma_rebound_one(global, name, value, name);
            } else {
                lemma_rebound_one(scopes[depth - 1], name, value, name);
            }
        },
    }
}

/// Where the first binding of a name is found, the name stands, and it does
/// not stand before.
proof fn lemma_position_found(scope: ScopeModel, name: Seq<char>, from: int)
    requires
        0 <= from,
    ensures
        match position_from(scope, name, from) {
            Some(i) => from <= i < scope.len() && scope[i].0 == name && forall|j: int|
                from <= j < i ==> (#[trigger] scope[j]).0 != name,
            None => forall|j: int| from <= j < scope.len() ==> (#[trigger] scope[j]).0 != name,
        },
    decreases scope.len() - from,
{
    if from < scope.len() && scope[from].0 != name {
        lemma_position_found(scope, name, from + 1);
    }
}

/// The first binding of a name that stands from `from` on is where no
/// earlier one stands.
proof fn lemma_position_is(scope: ScopeModel, name: Seq<char>, from: int, at: int)
    requires
        0 <= from <= at < scope.len(),
        scope[at].0 == name,
        forall|j: int| from <= j < at ==> (#[trigger] scope[j]).0 != name,
    ensures
        position_from(scope, name, from) == Some(at),
    decreases at - from,
{
    if from < at {
        assert(scope[from].0 != name);
        lemma_position_is(scope, name, from + 1, at);
    }
}

/// No binding of a name from `from` on means no first one.
proof fn lemma_position_none(scope: ScopeModel, name: Seq<char>, from: int)
    requires
        0 <= from,
        forall|j: int| from <= j < scope.len() ==> (#[trigger] scope[j]).0 != name,
    ensures
        position_from(scope, name, from) is None,
    decreases scope.len() - from,
{
    if from < scope.len() {
        assert(scope[from].0 != name);
        lemma_position_none(scope, name, from + 1);
    }
}

/// What one name is bound to after another, or the same, has been bound.
proof fn lemma_rebound_one(scope: ScopeModel, name: Seq<char>, value: ValueModel, other: Seq<char>)
    ensures
        other == name ==> bound_in(rebound(scope, name, value), other) == Some(value),
        other != name ==> bound_in(rebound(scope, name, value), other) == bound_in(scope, other),
{
    let after = rebound(scope, name, value);
    lemma_position_found(scope, name, 0);
    lemma_position_found(scope, other, 0);
    match position(scope, name) {
        Some(i) => {
            assert(after == scope.update(i, (name, value)));
            if other == name {
                assert forall|j: int| 0 <= j < i implies (#[trigger] after[j]).0 != name by {
                    assert(scope[j].0 != name);
                }
                lemma_position_is(after, name, 0, i);
            } else {
                match position(scope, other) {
                    Some(k) => {
                        assert forall|j: int| 0 <= j < k implies (#[trigger] after[j]).0 != other by {
                            assert(scope[j].0 != other);
                        }
                        lemma_position_is(after, other, 0, k);
                    },
                    None => {
                        assert forall|j: int| 0 <= j < after.len() implies (#[trigger] after[j]).0
                            != other by {
                            assert(scope[j].0 != other);
                        }
                        lemma_position_none(after, other, 0);
                    },
                }
            }
        },
        None => {
            assert(after == scope.push((name, value)));
            if other == name {
                assert forall|j: int| 0 <= j < scope.len() implies (#[trigger] after[j]).0
                    != name by {
                    assert(scope[j].0 != name);
                }
                lemma_position_is(after, name, 0, scope.len() as int);
            } else {
                match position(scope, other) {
                    Some(k) => {
                        assert forall|j: int| 0 <= j < k implies (#[trigger] after[j]).0 != other by {
                            assert(scope[j].0 != other);
                        }
                        lemma_position_is(after, other, 0, k);
                    },
                    None => {
                        assert forall|j: int| 0 <= j < after.len() implies (#[trigger] after[j]).0
                            != other by {
                            if j < scope.len() {
                                assert(scope[j].0 != other);
                            }
                        }
                        lemma_position_none(after, other, 0);
                    },
                }
            }
        },
    }
}

} // verus!

//! Environments: scopes of variable bindings, each inside an enclosing one.
//!
//! The scopes live in one table, `Environments`, and refer to their
//! enclosing scope by index; a scope is always made after the scope that
//! encloses it, so walking outward always ends.
use vstd::prelude::*;
use crate::runtime::value::{Value, ValueView};
use crate::runtime::error::{RuntimeError, RuntimeErrorView};
use crate::text::append_str;

verus! {

/// The bindings that names and values, paired by position, stand for; a
/// later pair for a name wins.
pub open spec fn bindings_of<V>(names: Seq<Seq<char>>, values: Seq<V>) -> Map<Seq<char>, V>
    decreases names.len(),
{
    if names.len() == 0 || values.len() == 0 {
        Map::empty()
    } else {
        bindings_of(names.drop_last(), values.drop_last()).insert(names.last(), values.last())
    }
}

/// No name occurs twice.
pub open spec fn distinct_names(names: Seq<Seq<char>>) -> bool {
    forall|i: int, j: int| 0 <= i < j < names.len() ==> names[i] != names[j]
}

/// The name at a position of distinct names is bound to the value at that
/// position.
pub proof fn lemma_bindings_at<V>(names: Seq<Seq<char>>, values: Seq<V>, i: int)
    requires
        names.len() == values.len(),
        distinct_names(names),
        0 <= i < names.len(),
    ensures
        bindings_of(names, values).dom().contains(names[i]),
        bindings_of(names, values)[names[i]] == values[i],
    decreases names.len(),
{
    if i < names.len() - 1 {
        lemma_bindings_at(names.drop_last(), values.drop_last(), i);
    }
}

/// A name at no position is not bound.
pub proof fn lemma_bindings_absent<V>(names: Seq<Seq<char>>, values: Seq<V>, k: Seq<char>)
    requires
        names.len() == values.len(),
        forall|i: int| 0 <= i < names.len() ==> names[i] != k,
    ensures
        !bindings_of(names, values).dom().contains(k),
    decreases names.len(),
{
    if names.len() > 0 {
        lemma_bindings_absent(names.drop_last(), values.drop_last(), k);
    }
}

/// Replacing the value at a position rebinds that position's name.
pub proof fn lemma_bindings_update<V>(names: Seq<Seq<char>>, values: Seq<V>, i: int, v: V)
    requires
        names.len() == values.len(),
        distinct_names(names),
        0 <= i < names.len(),
    ensures
        bindings_of(names, values.update(i, v)) == bindings_of(names, values).insert(names[i], v),
    decreases names.len(),
{
    let n = names.len();
    if i == n - 1 {
        assert(values.update(i, v).drop_last() =~= values.drop_last());
        lemma_bindings_absent(names.drop_last(), values.drop_last(), names[i]);
        assert(bindings_of(names, values.update(i, v)) =~= bindings_of(names, values).insert(names[i], v));
    } else {
        lemma_bindings_update(names.drop_last(), values.drop_last(), i, v);
        assert(values.update(i, v).drop_last() =~= values.drop_last().update(i, v));
        assert(bindings_of(names, values.update(i, v)) =~= bindings_of(names, values).insert(names[i], v));
    }
}

/// One scope: its enclosing scope, if any, and its bindings.
#[derive(Debug)]
pub struct Environment {
    enclosing: Option<usize>,
    names: Vec<String>,
    values: Vec<Value>,
}

impl Environment {
    /// The enclosing scope.
    pub closed spec fn outer(&self) -> Option<usize> {
        self.enclosing
    }

    /// The names, as views.
    pub closed spec fn name_views(&self) -> Seq<Seq<char>> {
        self.names@.map_values(|s: String| s@)
    }

    /// The values, as views.
    pub closed spec fn value_views(&self) -> Seq<ValueView> {
        self.values@.map_values(|v: Value| v@)
    }

    /// The scope is well formed: one value per name, no name twice.
    pub closed spec fn wf(&self) -> bool {
        &&& self.names@.len() == self.values@.len()
        &&& distinct_names(self.name_views())
    }

    /// What the scope binds.
    pub closed spec fn bindings(&self) -> Map<Seq<char>, ValueView> {
        bindings_of(self.name_views(), self.value_views())
    }

    /// An empty scope inside `enclosing`.
    pub fn new(enclosing: Option<usize>) -> (r: Self)
        ensures
            r.wf(),
            r.outer() == enclosing,
            r.bindings() == Map::<Seq<char>, ValueView>::empty(),
    {
        let r = Environment { enclosing, names: Vec::new(), values: Vec::new() };
        assert(r.bindings() =~= Map::<Seq<char>, ValueView>::empty());
        r
    }

    /// The position of a name, if the scope binds it.
    fn position_of(&self, name: &String) -> (r: Option<usize>)
        requires
            self.wf(),
        ensures
            match r {
                Some(i) => i < self.names@.len() && self.name_views()[i as int] == name@,
                None => forall|i: int| 0 <= i < self.names@.len() ==> self.name_views()[i] != name@,
            },
    {
        let mut i: usize = 0;
        while i < self.names.len()
            invariant
                self.wf(),
                i <= self.names@.len(),
                forall|j: int| 0 <= j < i ==> self.name_views()[j] != name@,
            decreases self.names@.len() - i,
        {
            if self.names[i] == *name {
                return Some(i);
            }
            i = i + 1;
        }
        None
    }

    /// Binds `name` to `value` in this scope, replacing an earlier binding
    /// of it.
    pub fn define(&mut self, name: String, value: Value)
        requires
            old(self).wf(),
        ensures
            final(self).wf(),
            final(self).outer() == old(self).outer(),
            final(self).bindings() == old(self).bindings().insert(name@, value@),
    {
        let ghost vv = value@;
        let ghost nv = name@;
        match self.position_of(&name) {
            Some(i) => {
                proof {
                    lemma_bindings_update(self.name_views(), self.value_views(), i as int, vv);
                }
                self.values.set(i, value);
                assert(self.value_views() =~= old(self).value_views().update(i as int, vv));
            },
            None => {
                self.names.push(name);
                self.values.push(value);
                assert(self.name_views() =~= old(self).name_views().push(nv));
                assert(self.value_views() =~= old(self).value_views().push(vv));
                assert(self.name_views().drop_last() =~= old(self).name_views());
                assert(self.value_views().drop_last() =~= old(self).value_views());
            },
        }
    }

    /// The value this scope binds to `name`, if any.
    pub fn lookup(&self, name: &String) -> (r: Option<Value>)
        requires
            self.wf(),
        ensures
            match r {
                Some(v) => self.bindings().dom().contains(name@) && self.bindings()[name@] == v@,
                None => !self.bindings().dom().contains(name@),
            },
    {
        match self.position_of(name) {
            Some(i) => {
                proof {
                    lemma_bindings_at(self.name_views(), self.value_views(), i as int);
                }
                Some(self.values[i].copy())
            },
            None => {
                proof {
                    lemma_bindings_absent(self.name_views(), self.value_views(), name@);
                }
                None
            },
        }
    }

    /// Rebinds a name the scope binds to `value`.
    fn replace(&mut self, name: &String, value: Value)
        requires
            old(self).wf(),
            old(self).bindings().dom().contains(name@),
        ensures
            final(self).wf(),
            final(self).outer() == old(self).outer(),
            final(self).bindings() == old(self).bindings().insert(name@, value@),
    {
        let ghost vv = value@;
        match self.position_of(name) {
            Some(i) => {
                proof {
                    lemma_bindings_update(self.name_views(), self.value_views(), i as int, vv);
                }
                self.values.set(i, value);
                assert(self.value_views() =~= old(self).value_views().update(i as int, vv));
            },
            None => {
                proof {
                    lemma_bindings_absent(self.name_views(), self.value_views(), name@);
                }
            },
        }
    }
}

/// The message of a lookup or assignment of a name bound nowhere.
pub open spec fn undefined_message(name: Seq<char>) -> Seq<char> {
    "Undefined variable '"@ + name + "'."@
}

/// The error of a lookup or assignment of a name bound nowhere.
pub open spec fn undefined_error(name: Seq<char>, line: usize) -> RuntimeErrorView {
    RuntimeErrorView { line, message: undefined_message(name) }
}

/// The error for an undefined variable.
fn undefined(name: &String, line: usize) -> (e: RuntimeError)
    ensures
        e@ == undefined_error(name@, line),
{
    let mut m = String::from_str("Undefined variable '");
    append_str(&mut m, name.as_str());
    append_str(&mut m, "'.");
    RuntimeError::new(line, m)
}

/// All scopes of a run. Scope 0 is the global scope.
#[derive(Debug)]
pub struct Environments {
    frames: Vec<Environment>,
}

impl Environments {
    /// Every scope is well formed and encloses nothing made after it; the
    /// global scope is there and encloses nothing.
    pub closed spec fn wf(&self) -> bool {
        &&& self.frames@.len() > 0
        &&& self.frames@[0].enclosing is None
        &&& forall|i: int| 0 <= i < self.frames@.len() ==> (#[trigger] self.frames@[i]).wf()
        &&& forall|i: int|
            0 <= i < self.frames@.len() && (#[trigger] self.frames@[i]).enclosing is Some ==> self.frames@[i].enclosing.unwrap()
                < i
    }

    /// How many scopes there are.
    pub closed spec fn count(&self) -> nat {
        self.frames@.len()
    }

    /// What scope `i` binds.
    pub closed spec fn scope(&self, i: int) -> Map<Seq<char>, ValueView> {
        self.frames@[i].bindings()
    }

    /// The scope enclosing scope `i`.
    pub closed spec fn parent(&self, i: int) -> Option<usize> {
        self.frames@[i].enclosing
    }

    /// The scope `d` steps out from scope `i`, if the chain is that long.
    pub open spec fn ancestor(&self, i: int, d: nat) -> Option<int>
        decreases d,
    {
        if d == 0 {
            Some(i)
        } else {
            match self.parent(i) {
                Some(p) => self.ancestor(p as int, (d - 1) as nat),
                None => None,
            }
        }
    }

    /// The innermost scope, from `i` outward, that binds `name`.
    pub open spec fn holder(&self, i: int, name: Seq<char>) -> Option<int>
        decreases i,
    {
        if !(0 <= i < self.count()) {
            None
        } else if self.scope(i).dom().contains(name) {
            Some(i)
        } else {
            match self.parent(i) {
                Some(p) => if p < i {
                    self.holder(p as int, name)
                } else {
                    None
                },
                None => None,
            }
        }
    }

    /// What `name` stands for, seen from scope `i`.
    pub open spec fn resolve(&self, i: int, name: Seq<char>) -> Option<ValueView> {
        match self.holder(i, name) {
            Some(h) => Some(self.scope(h)[name]),
            None => None,
        }
    }

    /// The table with the global scope alone, empty.
    pub fn new() -> (r: Self)
        ensures
            r.wf(),
            r.count() == 1,
            r.scope(0) == Map::<Seq<char>, ValueView>::empty(),
    {
        let mut frames: Vec<Environment> = Vec::new();
        frames.push(Environment::new(None));
        Environments { frames }
    }

    /// A new, empty scope inside scope `enclosing`; returns its index.
    pub fn new_scope(&mut self, enclosing: usize) -> (r: usize)
        requires
            old(self).wf(),
            enclosing < old(self).count(),
        ensures
            final(self).wf(),
            r == old(self).count(),
            final(self).count() == old(self).count() + 1,
            final(self).scope(r as int) == Map::<Seq<char>, ValueView>::empty(),
            final(self).parent(r as int) == Some(enclosing),
            forall|i: int| 0 <= i < old(self).count() ==> final(self).scope(i) == old(self).scope(i)
                && final(self).parent(i) == old(self).parent(i),
    {
        let r = self.frames.len();
        self.frames.push(Environment::new(Some(enclosing)));
        assert forall|i: int| 0 <= i < self.frames@.len() implies (#[trigger] self.frames@[i]).wf() by {
            if i < r {
                assert(self.frames@[i] == old(self).frames@[i]);
            }
        }
        r
    }

    /// Binds `name` to `value` in scope `frame`.
    pub fn define(&mut self, frame: usize, name: String, value: Value)
        requires
            old(self).wf(),
            frame < old(self).count(),
        ensures
            final(self).wf(),
            final(self).count() == old(self).count(),
            final(self).scope(frame as int) == old(self).scope(frame as int).insert(name@, value@),
            forall|i: int| 0 <= i < old(self).count() && i != frame ==> final(self).scope(i) == old(self).scope(i),
            forall|i: int| 0 <= i < old(self).count() ==> final(self).parent(i) == old(self).parent(i),
    {
        let mut f = Environment::new(None);
        std::mem::swap(&mut f, &mut self.frames[frame]);
        f.define(name, value);
        self.frames.set(frame, f);
        assert forall|i: int| 0 <= i < self.frames@.len() implies (#[trigger] self.frames@[i]).wf() by {
            if i != frame {
                assert(self.frames@[i] == old(self).frames@[i]);
            }
        }
    }

    /// Rebinds `name` in scope `frame`, which binds it.
    fn replace_in(&mut self, frame: usize, name: &String, value: Value)
        requires
            old(self).wf(),
            frame < old(self).count(),
            old(self).scope(frame as int).dom().contains(name@),
        ensures
            final(self).wf(),
            final(self).count() == old(self).count(),
            final(self).scope(frame as int) == old(self).scope(frame as int).insert(name@, value@),
            forall|i: int| 0 <= i < old(self).count() && i != frame ==> final(self).scope(i) == old(self).scope(i),
            forall|i: int| 0 <= i < old(self).count() ==> final(self).parent(i) == old(self).parent(i),
    {
        let mut f = Environment::new(None);
        std::mem::swap(&mut f, &mut self.frames[frame]);
        f.replace(name, value);
        self.frames.set(frame, f);
        assert forall|i: int| 0 <= i < self.frames@.len() implies (#[trigger] self.frames@[i]).wf() by {
            if i != frame {
                assert(self.frames@[i] == old(self).frames@[i]);
            }
        }
    }

    /// The scope binding `name` from scope `frame` outward, found by walking.
    fn find_holder(&self, frame: usize, name: &String) -> (r: Option<usize>)
        requires
            self.wf(),
            frame < self.count(),
        ensures
            match r {
                Some(h) => self.holder(frame as int, name@) == Some(h as int),
                None => self.holder(frame as int, name@) is None,
            },
    {
        let mut i = frame;
        loop
            invariant
                self.wf(),
                i < self.count(),
                self.holder(frame as int, name@) == self.holder(i as int, name@),
            decreases i,
        {
            match self.frames[i].lookup(name) {
                Some(_) => {
                    return Some(i);
                },
                None => {},
            }
            match self.frames[i].enclosing {
                Some(p) => {
                    i = p;
                },
                None => {
                    return None;
                },
            }
        }
    }

    /// The value of `name` as seen from scope `frame`: from the innermost
    /// scope that binds it, or an error if none does.
    pub fn get(&self, frame: usize, name: &String, line: usize) -> (r: Result<Value, RuntimeError>)
        requires
            self.wf(),
            frame < self.count(),
        ensures
            match self.resolve(frame as int, name@) {
                Some(v) => r is Ok && r->Ok_0@ == v,
                None => r is Err && r->Err_0@ == undefined_error(name@, line),
            },
    {
        match self.find_holder(frame, name) {
            Some(h) => {
                proof {
                    self.lemma_holder_binds(frame as int, name@);
                }
                match self.frames[h].lookup(name) {
                    Some(v) => Ok(v),
                    None => Err(undefined(name, line)),
                }
            },
            None => Err(undefined(name, line)),
        }
    }

    /// The scope `distance` steps out from `frame`, if the chain is that long.
    fn ancestor_of(&self, frame: usize, distance: usize) -> (r: Option<usize>)
        requires
            self.wf(),
            frame < self.count(),
        ensures
            match r {
                Some(a) => self.ancestor(frame as int, distance as nat) == Some(a as int) && a < self.count(),
                None => self.ancestor(frame as int, distance as nat) is None,
            },
    {
        let mut i = frame;
        let mut d = distance;
        while d > 0
            invariant
                self.wf(),
                i < self.count(),
                self.ancestor(frame as int, distance as nat) == self.ancestor(i as int, d as nat),
            decreases d,
        {
            match self.frames[i].enclosing {
                Some(p) => {
                    i = p;
                    d = d - 1;
                },
                None => {
                    return None;
                },
            }
        }
        Some(i)
    }

    /// The value of `name` looked up from the scope `distance` steps out
    /// from `frame` (and outward from there).
    pub fn get_at(&self, frame: usize, distance: usize, name: &String, line: usize) -> (r: Result<Value, RuntimeError>)
        requires
            self.wf(),
            frame < self.count(),
        ensures
            match self.ancestor(frame as int, distance as nat) {
                Some(a) => match self.resolve(a, name@) {
                    Some(v) => r is Ok && r->Ok_0@ == v,
                    None => r is Err && r->Err_0@ == undefined_error(name@, line),
                },
                None => r is Err && r->Err_0@ == undefined_error(name@, line),
            },
    {
        match self.ancestor_of(frame, distance) {
            Some(a) => self.get(a, name, line),
            None => Err(undefined(name, line)),
        }
    }

    /// Rebinds `name` in the innermost scope, from `frame` outward, that
    /// binds it; an error if none does.
    pub fn assign(&mut self, frame: usize, name: &String, value: Value, line: usize) -> (r: Result<(), RuntimeError>)
        requires
            old(self).wf(),
            frame < old(self).count(),
        ensures
            final(self).wf(),
            final(self).count() == old(self).count(),
            forall|i: int| 0 <= i < old(self).count() ==> final(self).parent(i) == old(self).parent(i),
            match old(self).holder(frame as int, name@) {
                Some(h) => r is Ok && final(self).scope(h) == old(self).scope(h).insert(name@, value@)
                    && forall|i: int| 0 <= i < old(self).count() && i != h ==> final(self).scope(i) == old(self).scope(i),
                None => r is Err && r->Err_0@ == undefined_error(name@, line) && forall|i: int|
                    0 <= i < old(self).count() ==> final(self).scope(i) == old(self).scope(i),
            },
            forall|i: int| 0 <= i < old(self).count() ==> #[trigger] final(self).scope(i).dom() == old(self).scope(i).dom(),
    {
        match self.find_holder(frame, name) {
            Some(h) => {
                proof {
                    self.lemma_holder_binds(frame as int, name@);
                }
                self.replace_in(h, name, value);
                assert(self.scope(h as int).dom() =~= old(self).scope(h as int).dom());
                Ok(())
            },
            None => Err(undefined(name, line)),
        }
    }

    /// Rebinds `name` from the scope `distance` steps out from `frame`.
    pub fn assign_at(&mut self, frame: usize, distance: usize, name: &String, value: Value, line: usize) -> (r: Result<(), RuntimeError>)
        requires
            old(self).wf(),
            frame < old(self).count(),
        ensures
            final(self).wf(),
            final(self).count() == old(self).count(),
            forall|i: int| 0 <= i < old(self).count() ==> final(self).parent(i) == old(self).parent(i),
            match old(self).ancestor(frame as int, distance as nat) {
                Some(a) => match old(self).holder(a, name@) {
                    Some(h) => r is Ok && final(self).scope(h) == old(self).scope(h).insert(name@, value@)
                        && forall|i: int| 0 <= i < old(self).count() && i != h ==> final(self).scope(i) == old(self).scope(i),
                    None => r is Err && r->Err_0@ == undefined_error(name@, line) && forall|i: int|
                        0 <= i < old(self).count() ==> final(self).scope(i) == old(self).scope(i),
                },
                None => r is Err && r->Err_0@ == undefined_error(name@, line) && forall|i: int|
                    0 <= i < old(self).count() ==> final(self).scope(i) == old(self).scope(i),
            },
            forall|i: int| 0 <= i < old(self).count() ==> #[trigger] final(self).scope(i).dom() == old(self).scope(i).dom(),
    {
        match self.ancestor_of(frame, distance) {
            Some(a) => self.assign(a, name, value, line),
            None => Err(undefined(name, line)),
        }
    }

    /// The scope that `holder` finds binds the name, and lies in the table.
    proof fn lemma_holder_binds(&self, i: int, name: Seq<char>)
        requires
            self.wf(),
        ensures
            self.holder(i, name) matches Some(h) ==> 0 <= h < self.count() && self.scope(h).dom().contains(name),
        decreases i,
    {
        if 0 <= i < self.count() && !self.scope(i).dom().contains(name) {
            match self.parent(i) {
                Some(p) => if p < i {
                    self.lemma_holder_binds(p as int, name);
                },
                None => {},
            }
        }
    }
}

/// A read after a write: once `name` is defined in a scope, looking it up
/// from that scope gives the value defined.
pub proof fn lemma_get_after_define(before: Environments, after: Environments, frame: int, name: Seq<char>, value: ValueView)
    requires
        before.wf(),
        after.wf(),
        0 <= frame < before.count(),
        after.count() == before.count(),
        after.scope(frame) == before.scope(frame).insert(name, value),
    ensures
        after.resolve(frame, name) == Some(value),
{
}

/// A read after an assignment: once an assignment from scope `frame`
/// succeeds, looking the name up from `frame` gives the value assigned.
pub proof fn lemma_get_after_assign(before: Environments, after: Environments, frame: int, name: Seq<char>, value: ValueView)
    requires
        before.wf(),
        after.wf(),
        0 <= frame < before.count(),
        after.count() == before.count(),
        forall|i: int| 0 <= i < before.count() ==> after.parent(i) == before.parent(i),
        before.holder(frame, name) is Some,
        after.scope(before.holder(frame, name)->Some_0) == before.scope(before.holder(frame, name)->Some_0).insert(name, value),
        forall|i: int| 0 <= i < before.count() && i != before.holder(frame, name)->Some_0 ==> after.scope(i) == before.scope(i),
    ensures
        after.resolve(frame, name) == Some(value),
    decreases frame,
{
    let h = before.holder(frame, name)->Some_0;
    if frame != h {
        match before.parent(frame) {
            Some(p) => {
                if p < frame {
                    lemma_get_after_assign(before, after, p as int, name, value);
                }
            },
            None => {},
        }
    }
}

/// Scopes whose enclosing scopes are unchanged are reached by the same walk
/// outward, which stays in the table.
pub proof fn lemma_ancestor_kept(before: Environments, after: Environments, i: int, d: nat)
    requires
        before.wf(),
        0 <= i < before.count(),
        before.count() <= after.count(),
        forall|j: int| 0 <= j < before.count() ==> after.parent(j) == before.parent(j),
    ensures
        after.ancestor(i, d) == before.ancestor(i, d),
        before.ancestor(i, d) matches Some(a) ==> 0 <= a < before.count(),
    decreases d,
{
    reveal_with_fuel(Environments::ancestor, 2);
    if d > 0 {
        match before.parent(i) {
            Some(p) => {
                assert(before.frames@[i].enclosing is Some);
                lemma_ancestor_kept(before, after, p as int, (d - 1) as nat);
            },
            None => {},
        }
    }
}

/// Defining a name changes what no other name stands for, from any scope.
pub proof fn lemma_define_keeps_other_names(
    before: Environments,
    after: Environments,
    frame: int,
    name: Seq<char>,
    value: ValueView,
    from: int,
    other: Seq<char>,
)
    requires
        before.wf(),
        after.wf(),
        0 <= frame < before.count(),
        0 <= from < before.count(),
        after.count() == before.count(),
        forall|i: int| 0 <= i < before.count() ==> after.parent(i) == before.parent(i),
        after.scope(frame) == before.scope(frame).insert(name, value),
        forall|i: int| 0 <= i < before.count() && i != frame ==> after.scope(i) == before.scope(i),
        other != name,
    ensures
        after.resolve(from, other) == before.resolve(from, other),
    decreases from,
{
    assert(after.scope(from).dom().contains(other) == before.scope(from).dom().contains(other));
    if !before.scope(from).dom().contains(other) {
        match before.parent(from) {
            Some(p) => {
                if p < from {
                    lemma_define_keeps_other_names(before, after, frame, name, value, p as int, other);
                }
            },
            None => {},
        }
    }
}

} // verus!

use vstd::prelude::*;
use crate::token::{Literal, bytes_equal};
use crate::types::ValueType;

verus! {

/// The bindings of a stack of scopes, innermost last.
pub type ScopesView = Seq<Map<Seq<u8>, ValueType>>;

/// The type bound to `name`, searching from the innermost scope outwards.
pub open spec fn lookup(scopes: ScopesView, name: Seq<u8>) -> Option<ValueType>
    decreases scopes.len(),
{
    if scopes.len() == 0 {
        None
    } else if scopes.last().contains_key(name) {
        Some(scopes.last()[name])
    } else {
        lookup(scopes.drop_last(), name)
    }
}

/// The stack with a new empty innermost scope.
pub open spec fn pushed(scopes: ScopesView) -> ScopesView {
    scopes.push(Map::empty())
}

/// The stack without its innermost scope; the outermost scope is never removed.
pub open spec fn popped(scopes: ScopesView) -> ScopesView {
    if scopes.len() > 1 {
        scopes.drop_last()
    } else {
        scopes
    }
}

/// The stack with `name` bound to `t` in its innermost scope.
pub open spec fn registered(scopes: ScopesView, name: Seq<u8>, t: ValueType) -> ScopesView {
    scopes.update(scopes.len() - 1, scopes.last().insert(name, t))
}

/// Closing a scope forgets what was bound in it and keeps what was bound before
/// it was opened: bind `outer`, open a scope, bind `inner` in it and close it;
/// then `outer` still resolves to its type, and `inner` resolves exactly as it
/// did before the scope was opened (not at all, if it was unbound then).
pub proof fn lemma_closed_scope_forgets(
    scopes: ScopesView,
    outer: Seq<u8>,
    outer_type: ValueType,
    inner: Seq<u8>,
    inner_type: ValueType,
)
    requires
        scopes.len() >= 1,
    ensures
        ({
            let before = registered(scopes, outer, outer_type);
            let after = popped(registered(pushed(before), inner, inner_type));
            &&& lookup(after, outer) == Some(outer_type)
            &&& lookup(after, inner) == lookup(before, inner)
            &&& lookup(before, inner) is None ==> lookup(after, inner) is None
        }),
{
    let before = registered(scopes, outer, outer_type);
    let after = popped(registered(pushed(before), inner, inner_type));
    assert(after =~= before);
    assert(before.last().contains_key(outer));
}

/// A stack of lexical scopes mapping names to types.
pub struct SymbolTable {
    scopes: Vec<Scope>,
}

impl View for SymbolTable {
    type V = ScopesView;

    closed spec fn view(&self) -> ScopesView {
        self.scopes@.map_values(|s: Scope| s@)
    }
}

impl SymbolTable {
    /// At least one scope, each well formed.
    pub closed spec fn wf(self) -> bool {
        &&& self.scopes@.len() >= 1
        &&& forall|i: int| 0 <= i < self.scopes@.len() ==> (#[trigger] self.scopes@[i]).wf()
    }

    /// A table with one empty, global scope.
    pub fn new() -> (r: SymbolTable)
        ensures
            r.wf(),
            r@ == seq![Map::<Seq<u8>, ValueType>::empty()],
    {
        let r = SymbolTable { scopes: vec![Scope::new()] };
        assert(r@ =~= seq![Map::<Seq<u8>, ValueType>::empty()]);
        r
    }

    /// Opens a new innermost scope.
    pub fn initiate_scope(&mut self)
        requires
            old(self).wf(),
        ensures
            final(self).wf(),
            final(self)@ == pushed(old(self)@),
    {
        self.scopes.push(Scope::new());
        assert(self@ =~= pushed(old(self)@));
    }

    /// Closes the innermost scope, forgetting its bindings; the global scope stays.
    pub fn drop_scope(&mut self)
        requires
            old(self).wf(),
        ensures
            final(self).wf(),
            final(self)@ == popped(old(self)@),
    {
        if self.scopes.len() > 1 {
            self.scopes.pop();
            assert(self@ =~= popped(old(self)@));
        }
    }

    /// Binds `name` to `type_` in the innermost scope.
    pub fn register(&mut self, name: Literal, type_: ValueType)
        requires
            old(self).wf(),
        ensures
            final(self).wf(),
            final(self)@ == registered(old(self)@, name@, type_),
    {
        let ghost n = name@;
        let last = self.scopes.len() - 1;
        let mut scope = self.scopes.pop().unwrap();
        assert(scope == old(self).scopes@[last as int]);
        scope.register(name, type_);
        self.scopes.push(scope);
        assert(self.scopes@ == old(self).scopes@.update(last as int, scope));
        assert(self@ =~= registered(old(self)@, n, type_));
    }

    /// The type bound to `name`, searching from the innermost scope outwards.
    pub fn get(&self, name: &Literal) -> (r: Option<&ValueType>)
        requires
            self.wf(),
        ensures
            r is None <==> lookup(self@, name@) is None,
            r matches Some(t) ==> lookup(self@, name@) == Some(*t),
    {
        let mut i: usize = self.scopes.len();
        assert(self@.subrange(0, i as int) =~= self@);
        while i > 0
            invariant
                self.wf(),
                i <= self.scopes@.len(),
                lookup(self@, name@) == lookup(self@.subrange(0, i as int), name@),
            decreases i,
        {
            let scope = &self.scopes[i - 1];
            assert(self@.subrange(0, i as int).last() == scope@);
            assert(self@.subrange(0, i as int).drop_last() =~= self@.subrange(0, i - 1));
            match scope.get(name) {
                Some(t) => {
                    return Some(t);
                },
                None => {},
            }
            i = i - 1;
        }
        None
    }
}

/// One scope: names, each bound once, with their types.
pub struct Scope {
    variables: Vec<(Literal, ValueType)>,
}

impl View for Scope {
    type V = Map<Seq<u8>, ValueType>;

    closed spec fn view(&self) -> Map<Seq<u8>, ValueType> {
        Map::new(
            |k: Seq<u8>| exists|i: int| 0 <= i < self.variables@.len() && self.variables@[i].0@ == k,
            |k: Seq<u8>| self.variables@[self.index_of(k)].1,
        )
    }
}

impl Scope {
    /// The position of the entry for `k`.
    pub closed spec fn index_of(self, k: Seq<u8>) -> int {
        choose|i: int| 0 <= i < self.variables@.len() && self.variables@[i].0@ == k
    }

    /// No name has two entries.
    pub closed spec fn wf(self) -> bool {
        forall|i: int, j: int|
            0 <= i < j < self.variables@.len() ==> self.variables@[i].0@ != self.variables@[j].0@
    }

    pub fn new() -> (r: Scope)
        ensures
            r.wf(),
            r@ == Map::<Seq<u8>, ValueType>::empty(),
    {
        let r = Scope { variables: Vec::new() };
        assert(r@ =~= Map::<Seq<u8>, ValueType>::empty());
        r
    }

    fn find(&self, name: &Literal) -> (r: Option<usize>)
        requires
            self.wf(),
        ensures
            r is None ==> !self@.contains_key(name@),
            r matches Some(i) ==> i < self.variables@.len() && self.variables@[i as int].0@ == name@
                && self@.contains_key(name@) && self@[name@] == self.variables@[i as int].1,
    {
        let mut i: usize = 0;
        while i < self.variables.len()
            invariant
                self.wf(),
                i <= self.variables@.len(),
                forall|j: int| 0 <= j < i ==> self.variables@[j].0@ != name@,
            decreases self.variables.len() - i,
        {
            if bytes_equal(&self.variables[i].0, name) {
                proof {
                    self.lemma_index_of(i as int);
                }
                return Some(i);
            }
            i = i + 1;
        }
        None
    }

    proof fn lemma_index_of(self, i: int)
        requires
            self.wf(),
            0 <= i < self.variables@.len(),
        ensures
            self.index_of(self.variables@[i].0@) == i,
            self@.contains_key(self.variables@[i].0@),
            self@[self.variables@[i].0@] == self.variables@[i].1,
    {
        let k = self.variables@[i].0@;
        assert(exists|j: int| 0 <= j < self.variables@.len() && self.variables@[j].0@ == k);
        let j = self.index_of(k);
        assert(self.variables@[j].0@ == k);
    }

    /// Binds `name` to `type_`, replacing an earlier binding of it.
    pub fn register(&mut self, name: Literal, type_: ValueType)
        requires
            old(self).wf(),
        ensures
            final(self).wf(),
            final(self)@ == old(self)@.insert(name@, type_),
    {
        let ghost n = name@;
        let ghost before = *self;
        let found = self.find(&name);
        match found {
            Some(i) => {
                self.variables.set(i, (name, type_));
            },
            None => {
                self.variables.push((name, type_));
            },
        }
        let ghost after = *self;
        let ghost pos: int = match found {
            Some(i) => i as int,
            None => before.variables@.len() as int,
        };
        assert(after.variables@[pos].0@ == n);
        assert(after.wf()) by {
            assert forall|i: int, j: int| 0 <= i < j < after.variables@.len() implies after.variables@[i].0@
                != after.variables@[j].0@ by {
                if i != pos && j != pos {
                    assert(after.variables@[i] == before.variables@[i]);
                    assert(after.variables@[j] == before.variables@[j]);
                } else if i == pos {
                    assert(after.variables@[j] == before.variables@[j]);
                    if found is None {
                        assert(false);
                    } else {
                        assert(before.variables@[pos].0@ == n);
                    }
                } else {
                    assert(after.variables@[i] == before.variables@[i]);
                    if found is Some {
                        assert(before.variables@[pos].0@ == n);
                    } else {
                        before.lemma_index_of(i);
                    }
                }
            }
        }
        assert(after@ =~= before@.insert(n, type_)) by {
            after.lemma_index_of(pos);
            assert forall|k: Seq<u8>| #[trigger] after@.contains_key(k) == before@.insert(n, type_).contains_key(k)
                by {
                if k != n {
                    if before@.contains_key(k) {
                        let j = before.index_of(k);
                        assert(j != pos);
                        assert(after.variables@[j] == before.variables@[j]);
                    }
                    if after@.contains_key(k) {
                        let j = after.index_of(k);
                        assert(j != pos);
                        assert(after.variables@[j] == before.variables@[j]);
                    }
                }
            }
            assert forall|k: Seq<u8>| #[trigger] after@.contains_key(k) && k != n implies after@[k]
                == before@[k] by {
                let j = after.index_of(k);
                assert(j != pos);
                assert(after.variables@[j] == before.variables@[j]);
                before.lemma_index_of(j);
            }
        }
    }

    /// The type bound to `name` in this scope.
    pub fn get(&self, name: &Literal) -> (r: Option<&ValueType>)
        requires
            self.wf(),
        ensures
            r is None <==> !self@.contains_key(name@),
            r matches Some(t) ==> *t == self@[name@],
    {
        match self.find(name) {
            Some(i) => Some(&self.variables[i].1),
            None => None,
        }
    }
}

} // verus!

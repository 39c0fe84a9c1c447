//! The lexically scoped symbol table: a flat stack of per-scope name maps.
//!
//! Depth 1 is the global scope; every deeper scope is local. `define`
//! always writes the top scope, `resolve` searches innermost first.

use vstd::prelude::*;
use vstd::string::StringExecFns;

verus! {

/// Where a symbol lives: a global slot or a stack slot of the current
/// function frame.
#[derive(Clone, Copy, Debug, PartialEq, Eq, Structural)]
pub enum SymbolScope {
    Global,
    Local,
}

/// A resolved name: its scope and its slot index within that scope.
#[derive(Debug, PartialEq, Eq)]
pub struct Symbol {
    pub name: String,
    pub scope: SymbolScope,
    pub index: usize,
}

/// The mathematical model of a symbol.
pub struct SymbolModel {
    pub name: Seq<char>,
    pub scope: SymbolScope,
    pub index: int,
}

impl View for Symbol {
    type V = SymbolModel;

    open spec fn view(&self) -> SymbolModel {
        SymbolModel { name: self.name@, scope: self.scope, index: self.index as int }
    }
}

impl Clone for Symbol {
    /// Cloning preserves the symbol's model.
    fn clone(&self) -> (r: Symbol)
        ensures
            r@ == self@,
    {
        Symbol { name: self.name.clone(), scope: self.scope, index: self.index }
    }
}

impl Symbol {
    /// Whether the symbol lives in the global scope.
    pub fn is_global(&self) -> (r: bool)
        ensures
            r == (self.scope == SymbolScope::Global),
    {
        match self.scope {
            SymbolScope::Global => true,
            SymbolScope::Local => false,
        }
    }
}

/// One scope's name map together with how many definitions it has seen.
pub struct SymbolTable {
    pub store: Vec<(String, Symbol)>,
    pub num_definitions: usize,
}

/// The mathematical model of one scope: its name map and its definition
/// count.
pub struct TableModel {
    pub map: Map<Seq<char>, SymbolModel>,
    pub count: int,
}

/// The name map an entry list builds up; a later entry for a name
/// overrides an earlier one.
pub open spec fn store_map(s: Seq<(String, Symbol)>) -> Map<Seq<char>, SymbolModel>
    decreases s,
{
    if s.len() == 0 {
        Map::<Seq<char>, SymbolModel>::empty()
    } else {
        store_map(s.drop_last()).insert(s.last().0@, s.last().1@)
    }
}

impl View for SymbolTable {
    type V = TableModel;

    open spec fn view(&self) -> TableModel {
        TableModel { map: store_map(self.store@), count: self.num_definitions as int }
    }
}

impl SymbolTable {
    /// Within one scope a name maps to exactly one entry, stored under the
    /// symbol's own name.
    pub open spec fn wf(&self) -> bool {
        &&& forall|i: int, j: int|
            0 <= i < j < self.store@.len() ==> (#[trigger] self.store@[i]).0@ != (
            #[trigger] self.store@[j]).0@
        &&& forall|i: int|
            0 <= i < self.store@.len() ==> (#[trigger] self.store@[i]).0@
                == self.store@[i].1.name@
    }
}

proof fn lemma_store_map_found(s: Seq<(String, Symbol)>, i: int)
    requires
        forall|p: int, q: int|
            0 <= p < q < s.len() ==> (#[trigger] s[p]).0@ != (#[trigger] s[q]).0@,
        0 <= i < s.len(),
    ensures
        store_map(s).contains_key(s[i].0@),
        store_map(s)[s[i].0@] == s[i].1@,
    decreases s,
{
    if i == s.len() - 1 {
    } else {
        let sub = s.drop_last();
        assert(forall|p: int, q: int|
            0 <= p < q < sub.len() ==> (#[trigger] sub[p]).0@ != (#[trigger] sub[q]).0@);
        lemma_store_map_found(sub, i);
        assert(s[i].0@ != s.last().0@);
    }
}

proof fn lemma_store_map_absent(s: Seq<(String, Symbol)>, name: Seq<char>)
    requires
        forall|i: int| 0 <= i < s.len() ==> (#[trigger] s[i]).0@ != name,
    ensures
        !store_map(s).contains_key(name),
    decreases s,
{
    if s.len() > 0 {
        lemma_store_map_absent(s.drop_last(), name);
    }
}

proof fn lemma_store_map_update(s: Seq<(String, Symbol)>, i: int, entry: (String, Symbol))
    requires
        forall|p: int, q: int|
            0 <= p < q < s.len() ==> (#[trigger] s[p]).0@ != (#[trigger] s[q]).0@,
        0 <= i < s.len(),
        entry.0@ == s[i].0@,
    ensures
        store_map(s.update(i, entry)) == store_map(s).insert(entry.0@, entry.1@),
    decreases s,
{
    let t = s.update(i, entry);
    if i == s.len() - 1 {
        assert(t.drop_last() =~= s.drop_last());
        assert(store_map(t) == store_map(s.drop_last()).insert(entry.0@, entry.1@));
        lemma_store_map_absent(s.drop_last(), s.last().0@);
        assert(store_map(s).insert(entry.0@, entry.1@) =~= store_map(s.drop_last()).insert(
            entry.0@,
            entry.1@,
        ));
    } else {
        let sub = s.drop_last();
        assert(forall|p: int, q: int|
            0 <= p < q < sub.len() ==> (#[trigger] sub[p]).0@ != (#[trigger] sub[q]).0@);
        lemma_store_map_update(sub, i, entry);
        assert(t.drop_last() =~= sub.update(i, entry));
        assert(t.last() == s.last());
        assert(store_map(t) == store_map(sub).insert(entry.0@, entry.1@).insert(
            s.last().0@,
            s.last().1@,
        ));
        assert(entry.0@ != s.last().0@);
        assert(store_map(sub).insert(entry.0@, entry.1@).insert(s.last().0@, s.last().1@)
            =~= store_map(sub).insert(s.last().0@, s.last().1@).insert(entry.0@, entry.1@));
    }
}

/// The stack of scopes. Its depth is at least 1 while in use; depth 1 is
/// the global scope.
pub struct SymbolTableStack {
    pub stack: Vec<SymbolTable>,
}

/// The models of the scopes, bottom (global) first.
pub open spec fn scopes_model(s: Seq<SymbolTable>) -> Seq<TableModel> {
    Seq::new(s.len(), |i: int| s[i]@)
}

impl View for SymbolTableStack {
    type V = Seq<TableModel>;

    open spec fn view(&self) -> Seq<TableModel> {
        scopes_model(self.stack@)
    }
}

/// The model of an empty scope.
pub open spec fn empty_scope() -> TableModel {
    TableModel { map: Map::<Seq<char>, SymbolModel>::empty(), count: 0 }
}

/// Resolution searches the scopes innermost (topmost) first; the first
/// scope that knows the name wins.
pub open spec fn spec_resolve(scopes: Seq<TableModel>, name: Seq<char>) -> Option<SymbolModel>
    decreases scopes,
{
    if scopes.len() == 0 {
        None
    } else if scopes.last().map.contains_key(name) {
        Some(scopes.last().map[name])
    } else {
        spec_resolve(scopes.drop_last(), name)
    }
}

/// The symbol that defining a name in the top scope yields: global iff
/// only the global scope is open, with the top scope's next free index.
pub open spec fn spec_defined_symbol(scopes: Seq<TableModel>, name: Seq<char>) -> SymbolModel
    recommends
        scopes.len() >= 1,
{
    SymbolModel {
        name: name,
        scope: if scopes.len() == 1 {
            SymbolScope::Global
        } else {
            SymbolScope::Local
        },
        index: scopes.last().count,
    }
}

/// The scopes after defining a name in the top scope: the name is bound
/// to the fresh symbol and the definition count goes up by one.
pub open spec fn spec_define(scopes: Seq<TableModel>, name: Seq<char>) -> Seq<TableModel>
    recommends
        scopes.len() >= 1,
{
    scopes.update(
        scopes.len() - 1,
        TableModel {
            map: scopes.last().map.insert(name, spec_defined_symbol(scopes, name)),
            count: scopes.last().count + 1,
        },
    )
}

impl SymbolTableStack {
    /// Every scope on the stack is well formed.
    pub open spec fn wf(&self) -> bool {
        forall|i: int| 0 <= i < self.stack@.len() ==> (#[trigger] self.stack@[i]).wf()
    }

    /// Opens a new (empty) scope.
    pub fn push(&mut self)
        requires
            old(self).wf(),
        ensures
            final(self).wf(),
            final(self)@ =~= old(self)@ + seq![empty_scope()],
    {
        self.stack.push(SymbolTable { store: Vec::new(), num_definitions: 0 });
        proof {
            assert(store_map(Seq::<(String, Symbol)>::empty()) =~= Map::<
                Seq<char>,
                SymbolModel,
            >::empty());
            assert(self@ =~= old(self)@ + seq![empty_scope()]);
        }
    }

    /// Closes the top scope and hands it back; the global scope cannot be
    /// closed.
    pub fn pop(&mut self) -> (r: SymbolTable)
        requires
            old(self).wf(),
            old(self)@.len() >= 2,
        ensures
            final(self).wf(),
            final(self)@ =~= old(self)@.drop_last(),
            r@ == old(self)@.last(),
    {
        let r = self.stack.pop().unwrap();
        proof {
            assert(self@ =~= old(self)@.drop_last());
        }
        r
    }

    /// Defines a name in the top scope and returns the fresh symbol.
    /// Redefining a name in the same scope re-binds it under a fresh
    /// index: the definition count only grows.
    pub fn define(&mut self, name: &str) -> (r: Symbol)
        requires
            old(self).wf(),
            old(self)@.len() >= 1,
            old(self)@.last().count < usize::MAX,
        ensures
            final(self).wf(),
            r@ == spec_defined_symbol(old(self)@, name@),
            final(self)@ =~= spec_define(old(self)@, name@),
    {
        let n = self.stack.len();
        let scope = if n == 1 {
            SymbolScope::Global
        } else {
            SymbolScope::Local
        };
        let mut table = self.stack.pop().unwrap();
        let symbol = Symbol { name: name.to_owned(), scope, index: table.num_definitions };
        let entry_symbol = symbol.clone();
        let entry = (name.to_owned(), entry_symbol);

        let ghost old_store = table.store@;
        let mut found: Option<usize> = None;
        let store_len = table.store.len();
        let mut i: usize = 0;
        while i < store_len
            invariant
                store_len == table.store@.len(),
                i <= store_len,
                match found {
                    Some(j) => j < i && table.store@[j as int].0@ == name@,
                    None => forall|j: int| 0 <= j < i ==> (#[trigger] table.store@[j]).0@ != name@,
                },
            decreases store_len - i,
        {
            if found.is_none() {
                let candidate = &table.store[i];
                let owned = name.to_owned();
                if candidate.0 == owned {
                    found = Some(i);
                }
            }
            i = i + 1;
        }
        proof {
            assert(table.store@ == old_store);
        }
        match found {
            Some(j) => {
                proof {
                    assert(forall|p: int, q: int|
                        0 <= p < q < old_store.len() ==> (#[trigger] old_store[p]).0@ != (
                        #[trigger] old_store[q]).0@);
                    lemma_store_map_update(old_store, j as int, entry);
                }
                table.store[j] = entry;
            },
            None => {
                proof {
                    assert(old_store.push(entry).drop_last() =~= old_store);
                }
                table.store.push(entry);
            },
        }
        table.num_definitions = table.num_definitions + 1;
        self.stack.push(table);
        proof {
            assert(self@ =~= spec_define(old(self)@, name@));
        }
        symbol
    }

    /// Looks a name up, innermost scope first; the first match wins.
    pub fn resolve(&self, name: &str) -> (r: Option<Symbol>)
        requires
            self.wf(),
        ensures
            match r {
                Some(s) => spec_resolve(self@, name@) == Some(s@),
                None => spec_resolve(self@, name@) is None,
            },
    {
        let owned = name.to_owned();
        let depth = self.stack.len();
        proof {
            assert(self@.take(depth as int) =~= self@);
        }
        let mut level: usize = depth;
        while level > 0
            invariant
                self.wf(),
                depth == self.stack@.len(),
                level <= depth,
                owned@ == name@,
                spec_resolve(self@, name@) == spec_resolve(self@.take(level as int), name@),
            decreases level,
        {
            level = level - 1;
            let store_len = self.stack[level].store.len();
            let mut i: usize = 0;
            while i < store_len
                invariant
                    self.wf(),
                    depth == self.stack@.len(),
                    level < depth,
                    owned@ == name@,
                    store_len == self.stack@[level as int].store@.len(),
                    i <= store_len,
                    spec_resolve(self@, name@) == spec_resolve(self@.take(level + 1), name@),
                    forall|j: int|
                        0 <= j < i ==> (#[trigger] self.stack@[level as int].store@[j]).0@
                            != name@,
                decreases store_len - i,
            {
                let candidate = &self.stack[level].store[i];
                if candidate.0 == owned {
                    let r = candidate.1.clone();
                    proof {
                        assert(self.stack@[level as int].wf());
                        lemma_store_map_found(self.stack@[level as int].store@, i as int);
                        assert(self@.take(level + 1).last() == self@[level as int]);
                        assert(self@[level as int].map == store_map(
                            self.stack@[level as int].store@,
                        ));
                        assert(spec_resolve(self@.take(level + 1), name@) == Some(r@));
                    }
                    return Some(r);
                }
                i = i + 1;
            }
            proof {
                lemma_store_map_absent(self.stack@[level as int].store@, name@);
                assert(self@.take(level + 1).last() == self@[level as int]);
                assert(self@.take(level + 1).drop_last() =~= self@.take(level as int));
            }
        }
        proof {
            assert(self@.take(0) =~= Seq::<TableModel>::empty());
        }
        None
    }

    /// The top (innermost) scope.
    pub fn last(&self) -> (r: &SymbolTable)
        requires
            self@.len() >= 1,
        ensures
            r@ == self@.last(),
    {
        &self.stack[self.stack.len() - 1]
    }
}

/// A fresh stack holding one empty scope: the global one.
pub fn new_symbol_table_stack() -> (r: SymbolTableStack)
    ensures
        r.wf(),
        r@ =~= seq![empty_scope()],
{
    let mut stack = SymbolTableStack { stack: Vec::new() };
    stack.push();
    proof {
        assert(stack@ =~= seq![empty_scope()]);
    }
    stack
}

/// Resolution prefers the innermost scope: a name known to the top scope
/// resolves to that scope's binding, whatever the outer scopes say.
pub proof fn lemma_resolve_prefers_innermost(scopes: Seq<TableModel>, name: Seq<char>)
    requires
        scopes.len() >= 1,
        scopes.last().map.contains_key(name),
    ensures
        spec_resolve(scopes, name) == Some(scopes.last().map[name]),
{
}

/// Defining the same name twice in one scope re-binds it: the second
/// symbol gets the next index, and resolution afterwards finds the second
/// symbol.
pub proof fn lemma_define_last_write_wins(scopes: Seq<TableModel>, name: Seq<char>)
    requires
        scopes.len() >= 1,
    ensures
        ({
            let first = spec_defined_symbol(scopes, name);
            let once = spec_define(scopes, name);
            let second = spec_defined_symbol(once, name);
            let twice = spec_define(once, name);
            &&& second.index == first.index + 1
            &&& second.scope == first.scope
            &&& spec_resolve(twice, name) == Some(second)
        }),
{
    let once = spec_define(scopes, name);
    let twice = spec_define(once, name);
    assert(once.last() == once[scopes.len() - 1]);
    assert(twice.last() == twice[scopes.len() - 1]);
    assert(twice.last().map.contains_key(name));
}

/// A name defined in an outer scope is still resolvable after a new scope
/// is opened; once the new scope shadows it, resolution returns the
/// shadowing symbol instead.
pub proof fn lemma_outer_definition_visible_unless_shadowed(
    scopes: Seq<TableModel>,
    name: Seq<char>,
)
    requires
        scopes.len() >= 1,
        spec_resolve(scopes, name) is Some,
    ensures
        ({
            let pushed = scopes + seq![empty_scope()];
            let shadowed = spec_define(pushed, name);
            &&& spec_resolve(pushed, name) == spec_resolve(scopes, name)
            &&& spec_resolve(shadowed, name) == Some(spec_defined_symbol(pushed, name))
        }),
{
    let pushed = scopes + seq![empty_scope()];
    assert(pushed.last() == empty_scope());
    assert(!pushed.last().map.contains_key(name));
    assert(pushed.drop_last() =~= scopes);
    let shadowed = spec_define(pushed, name);
    assert(shadowed.last() == shadowed[pushed.len() - 1]);
    assert(shadowed.last().map.contains_key(name));
}

} // verus!

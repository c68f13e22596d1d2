use crate::token::token::{Value, ValueView};
use crate::text::same_text;
use vstd::prelude::*;

verus! {

/// The model of a scope: a mapping from names to values.
pub type Bindings = Map<Seq<char>, ValueView>;

/// The value that the innermost scope holding `name` gives it.
pub open spec fn lookup(scopes: Seq<Bindings>, name: Seq<char>) -> Option<ValueView>
    decreases scopes.len(),
{
    if scopes.len() == 0 {
        None
    } else if scopes.last().contains_key(name) {
        Some(scopes.last()[name])
    } else {
        lookup(scopes.drop_last(), name)
    }
}

/// The scopes after `name` is bound to `value` in the innermost one.
pub open spec fn bind(scopes: Seq<Bindings>, name: Seq<char>, value: ValueView) -> Seq<Bindings> {
    if scopes.len() == 0 {
        scopes
    } else {
        scopes.update(scopes.len() - 1, scopes.last().insert(name, value))
    }
}

/// The scopes after the innermost scope holding `name` gives it `value`, or
/// `None` where no scope holds it.
pub open spec fn reassign(scopes: Seq<Bindings>, name: Seq<char>, value: ValueView) -> Option<
    Seq<Bindings>,
>
    decreases scopes.len(),
{
    if scopes.len() == 0 {
        None
    } else if scopes.last().contains_key(name) {
        Some(scopes.update(scopes.len() - 1, scopes.last().insert(name, value)))
    } else {
        match reassign(scopes.drop_last(), name, value) {
            Some(below) => Some(below.push(scopes.last())),
            None => None,
        }
    }
}

/// The scopes without the innermost one.
pub open spec fn leave(scopes: Seq<Bindings>) -> Seq<Bindings> {
    if scopes.len() > 0 {
        scopes.drop_last()
    } else {
        scopes
    }
}

/// After a name is bound, it has the value it was bound to, and every other
/// name the value it had.
pub proof fn lemma_lookup_bind(
    scopes: Seq<Bindings>,
    name: Seq<char>,
    value: ValueView,
    other: Seq<char>,
)
    requires
        scopes.len() > 0,
    ensures
        lookup(bind(scopes, name, value), other) == if other == name {
            Some(value)
        } else {
            lookup(scopes, other)
        },
{
    let bound = bind(scopes, name, value);
    assert(bound.drop_last() =~= scopes.drop_last());
}

/// A name and the value bound to it.
pub struct Binding {
    pub name: String,
    pub value: Value,
}

/// The mapping that a list of bindings stands for: a later binding of a name
/// replaces an earlier one.
pub open spec fn bindings_of(entries: Seq<Binding>) -> Bindings
    decreases entries.len(),
{
    if entries.len() == 0 {
        Map::empty()
    } else {
        bindings_of(entries.drop_last()).insert(entries.last().name@, entries.last().value@)
    }
}

/// A name that no binding has is not in the mapping.
pub proof fn lemma_absent(entries: Seq<Binding>, name: Seq<char>)
    requires
        forall|j: int| 0 <= j < entries.len() ==> entries[j].name@ != name,
    ensures
        !bindings_of(entries).contains_key(name),
    decreases entries.len(),
{
    if entries.len() > 0 {
        lemma_absent(entries.drop_last(), name);
    }
}

/// The mapping gives a name the value of its last binding.
pub proof fn lemma_present(entries: Seq<Binding>, i: int, name: Seq<char>)
    requires
        0 <= i < entries.len(),
        entries[i].name@ == name,
        forall|j: int| i < j < entries.len() ==> entries[j].name@ != name,
    ensures
        bindings_of(entries).contains_key(name),
        bindings_of(entries)[name] == entries[i].value@,
    decreases entries.len(),
{
    if i < entries.len() - 1 {
        lemma_present(entries.drop_last(), i, name);
    }
}

/// Replacing the last binding of a name is binding the name anew.
pub proof fn lemma_replaced(entries: Seq<Binding>, i: int, binding: Binding)
    requires
        0 <= i < entries.len(),
        entries[i].name@ == binding.name@,
        forall|j: int| i < j < entries.len() ==> entries[j].name@ != binding.name@,
    ensures
        bindings_of(entries.update(i, binding)) == bindings_of(entries).insert(
            binding.name@,
            binding.value@,
        ),
    decreases entries.len(),
{
    let after = entries.update(i, binding);
    if i == entries.len() - 1 {
        assert(after.drop_last() =~= entries.drop_last());
        assert(bindings_of(after) =~= bindings_of(entries).insert(binding.name@, binding.value@));
    } else {
        lemma_replaced(entries.drop_last(), i, binding);
        assert(after.drop_last() =~= entries.drop_last().update(i, binding));
        assert(bindings_of(after) =~= bindings_of(entries).insert(binding.name@, binding.value@));
    }
}

/// One scope: the names bound in it and their values.
///
/// The bindings are kept in a list, and the list is proved to stand for a
/// mapping. A hash map keyed by strings would not do: what is known of hash
/// maps holds for keys whose hashing has a model, and strings have none.
pub struct Scope {
    entries: Vec<Binding>,
}

impl View for Scope {
    type V = Bindings;

    closed spec fn view(&self) -> Bindings {
        bindings_of(self.entries@)
    }
}

impl Clone for Scope {
    fn clone(&self) -> (copy: Self)
        ensures
            copy@ == self@,
    {
        let mut entries: Vec<Binding> = Vec::new();
        let mut i: usize = 0;
        assert(self.entries@.take(0) =~= Seq::<Binding>::empty());
        while i < self.entries.len()
            invariant
                i <= self.entries.len(),
                bindings_of(entries@) == bindings_of(self.entries@.take(i as int)),
            decreases self.entries.len() - i,
        {
            let binding = Binding {
                name: self.entries[i].name.clone(),
                value: self.entries[i].value.clone(),
            };
            proof {
                assert(entries@.push(binding).drop_last() =~= entries@);
                assert(self.entries@.take(i + 1).drop_last() =~= self.entries@.take(i as int));
            }
            entries.push(binding);
            i += 1;
        }
        assert(self.entries@.take(i as int) =~= self.entries@);
        Scope { entries }
    }
}

impl Scope {
    /// A scope that binds nothing.
    pub fn new() -> (scope: Scope)
        ensures
            scope@ == Map::<Seq<char>, ValueView>::empty(),
    {
        Scope { entries: Vec::new() }
    }

    /// The place of the last binding of a name.
    fn find(&self, name: &str) -> (place: Option<usize>)
        ensures
            match place {
                Some(i) => {
                    &&& i < self.entries.len()
                    &&& self.entries[i as int].name@ == name@
                    &&& forall|j: int|
                        i < j < self.entries.len() ==> self.entries[j].name@ != name@
                },
                None => forall|j: int|
                    0 <= j < self.entries.len() ==> self.entries[j].name@ != name@,
            },
    {
        let mut i: usize = self.entries.len();
        while i > 0
            invariant
                i <= self.entries.len(),
                forall|j: int| i <= j < self.entries.len() ==> self.entries[j].name@ != name@,
            decreases i,
        {
            i -= 1;
            if same_text(self.entries[i].name.as_str(), name) {
                return Some(i);
            }
        }
        None
    }

    /// Whether the scope binds a name.
    pub fn contains(&self, name: &str) -> (r: bool)
        ensures
            r == self@.contains_key(name@),
    {
        match self.find(name) {
            Some(i) => {
                proof {
                    lemma_present(self.entries@, i as int, name@);
                }
                true
            },
            None => {
                proof {
                    lemma_absent(self.entries@, name@);
                }
                false
            },
        }
    }

    /// A copy of the value that the scope binds a name to.
    pub fn get(&self, name: &str) -> (r: Option<Value>)
        ensures
            match r {
                Some(value) => self@.contains_key(name@) && value@ == self@[name@],
                None => !self@.contains_key(name@),
            },
    {
        match self.find(name) {
            Some(i) => {
                proof {
                    lemma_present(self.entries@, i as int, name@);
                }
                Some(self.entries[i].value.clone())
            },
            None => {
                proof {
                    lemma_absent(self.entries@, name@);
                }
                None
            },
        }
    }

    /// Binds a name to a value, in place of what it was bound to.
    pub fn insert(&mut self, name: String, value: Value)
        ensures
            final(self)@ == old(self)@.insert(name@, value@),
    {
        match self.find(name.as_str()) {
            Some(i) => {
                let binding = Binding { name, value };
                proof {
                    lemma_replaced(self.entries@, i as int, binding);
                }
                self.entries.set(i, binding);
            },
            None => {
                let binding = Binding { name, value };
                assert(self.entries@.push(binding).drop_last() =~= self.entries@);
                self.entries.push(binding);
            },
        }
    }
}

/// The models of a stack of scopes, outermost first.
pub open spec fn scope_views(scopes: Seq<Scope>) -> Seq<Bindings> {
    scopes.map_values(|scope: Scope| scope@)
}

/// The stack of scopes: the global scope first, the innermost scope last.
pub struct ScopeManager {
    scopes: Vec<Scope>,
}

impl View for ScopeManager {
    type V = Seq<Bindings>;

    closed spec fn view(&self) -> Seq<Bindings> {
        scope_views(self.scopes@)
    }
}

impl Clone for ScopeManager {
    fn clone(&self) -> (copy: Self)
        ensures
            copy@ == self@,
    {
        let mut scopes: Vec<Scope> = Vec::new();
        let mut i: usize = 0;
        while i < self.scopes.len()
            invariant
                i <= self.scopes.len(),
                scopes.len() == i,
                forall|j: int| 0 <= j < i ==> scopes@[j]@ == self.scopes@[j]@,
            decreases self.scopes.len() - i,
        {
            scopes.push(self.scopes[i].clone());
            i += 1;
        }
        let copy = ScopeManager { scopes };
        assert(copy@ =~= self@);
        copy
    }
}

impl ScopeManager {
    /// A stack that holds the global scope, which binds nothing.
    pub fn new() -> (manager: ScopeManager)
        ensures
            manager@ == seq![Map::<Seq<char>, ValueView>::empty()],
    {
        let mut scopes: Vec<Scope> = Vec::new();
        scopes.push(Scope::new());
        let manager = ScopeManager { scopes };
        assert(manager@ =~= seq![Map::<Seq<char>, ValueView>::empty()]);
        manager
    }

    /// Binds a name in the innermost scope.
    pub fn insert_identifier(&mut self, identifier: String, value: Value)
        ensures
            final(self)@ == bind(old(self)@, identifier@, value@),
    {
        let n = self.scopes.len();
        if n == 0 {
            return ;
        }
        self.scopes[n - 1].insert(identifier, value);
        assert(self@ =~= bind(old(self)@, identifier@, value@));
    }

    /// Gives a name a new value in the innermost scope that binds it; `false`
    /// where no scope does.
    pub fn reassign_identifier(&mut self, identifier: String, value: Value) -> (found: bool)
        ensures
            match reassign(old(self)@, identifier@, value@) {
                Some(scopes) => found && final(self)@ == scopes,
                None => !found && final(self)@ == old(self)@,
            },
    {
        let mut i: usize = self.scopes.len();
        proof {
            assert(self@.take(i as int) =~= self@);
            match reassign(self@, identifier@, value@) {
                Some(below) => {
                    assert(below + self@.skip(i as int) =~= below);
                },
                None => {},
            }
        }
        while i > 0
            invariant
                i <= self.scopes.len(),
                self.scopes == old(self).scopes,
                reassign(self@, identifier@, value@) == match reassign(
                    self@.take(i as int),
                    identifier@,
                    value@,
                ) {
                    Some(below) => Some(below + self@.skip(i as int)),
                    None => None,
                },
            decreases i,
        {
            i -= 1;
            if self.scopes[i].contains(identifier.as_str()) {
                proof {
                    assert(self@.take(i + 1).last() == self@[i as int]);
                }
                self.scopes[i].insert(identifier, value);
                proof {
                    let before = old(self)@;
                    assert(self@ =~= before.take(i + 1).update(
                        i as int,
                        before[i as int].insert(identifier@, value@),
                    ) + before.skip(i + 1));
                }
                return true;
            }
            proof {
                let whole = self@;
                let upper = whole.take(i + 1);
                assert(upper.drop_last() =~= whole.take(i as int));
                assert(upper.last() == whole[i as int]);
                match reassign(whole.take(i as int), identifier@, value@) {
                    Some(below) => {
                        assert(below.push(whole[i as int]) + whole.skip(i + 1) =~= below
                            + whole.skip(i as int));
                    },
                    None => {},
                }
            }
        }
        assert(self@.take(0) =~= Seq::empty());
        false
    }

    /// A copy of the value that the innermost scope binding a name gives it.
    pub fn get_identifier(&self, identifier: &str) -> (r: Option<Value>)
        ensures
            match r {
                Some(value) => lookup(self@, identifier@) == Some(value@),
                None => lookup(self@, identifier@) is None,
            },
    {
        let mut i: usize = self.scopes.len();
        assert(self@.take(i as int) =~= self@);
        while i > 0
            invariant
                i <= self.scopes.len(),
                lookup(self@, identifier@) == lookup(self@.take(i as int), identifier@),
            decreases i,
        {
            i -= 1;
            proof {
                let upper = self@.take(i + 1);
                assert(upper.drop_last() =~= self@.take(i as int));
                assert(upper.last() == self@[i as int]);
            }
            match self.scopes[i].get(identifier) {
                Some(value) => {
                    return Some(value);
                },
                None => {},
            }
        }
        assert(self@.take(0) =~= Seq::empty());
        None
    }

    /// Whether some scope binds a name.
    pub fn contains_identifier(&self, identifier: &str) -> (r: bool)
        ensures
            r == lookup(self@, identifier@) is Some,
    {
        let mut i: usize = self.scopes.len();
        assert(self@.take(i as int) =~= self@);
        while i > 0
            invariant
                i <= self.scopes.len(),
                lookup(self@, identifier@) == lookup(self@.take(i as int), identifier@),
            decreases i,
        {
            i -= 1;
            proof {
                let upper = self@.take(i + 1);
                assert(upper.drop_last() =~= self@.take(i as int));
                assert(upper.last() == self@[i as int]);
            }
            if self.scopes[i].contains(identifier) {
                return true;
            }
        }
        assert(self@.take(0) =~= Seq::empty());
        false
    }

    /// Pushes a scope on the stack. It becomes the innermost.
    pub fn new_scope_with_values(&mut self, scope: Scope)
        ensures
            final(self)@ == old(self)@.push(scope@),
    {
        self.scopes.push(scope);
        assert(self@ =~= old(self)@.push(scope@));
    }

    /// Pushes a scope that binds nothing.
    pub fn new_scope(&mut self)
        ensures
            final(self)@ == old(self)@.push(Map::<Seq<char>, ValueView>::empty()),
    {
        self.new_scope_with_values(Scope::new());
    }

    /// Pops the innermost scope, if there is one.
    pub fn pop_scope(&mut self)
        ensures
            final(self)@ == leave(old(self)@),
    {
        self.scopes.pop();
        assert(self@ =~= leave(old(self)@));
    }
}

} // verus!

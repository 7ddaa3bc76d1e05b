use crate::error_reporter::RuntimeError;
use crate::tokens::Token;
use vstd::prelude::*;
use vstd::string::StringExecFns;

verus! {

/// The bindings of one scope as a mapping from name to value. Later entries
/// win, though a well-formed scope holds each name once.
pub open spec fn scope_map<V>(s: Seq<(String, V)>) -> Map<Seq<char>, V>
    decreases s.len(),
{
    if s.len() == 0 {
        Map::empty()
    } else {
        scope_map(s.drop_last()).insert(s.last().0@, s.last().1)
    }
}

/// Each name occurs at most once in a scope.
pub open spec fn unique_names<V>(s: Seq<(String, V)>) -> bool {
    forall|i: int, j: int| 0 <= i < j < s.len() ==> s[i].0@ != s[j].0@
}

/// The value of `name` in the innermost scope that binds it.
pub open spec fn lookup<V>(scopes: Seq<Map<Seq<char>, V>>, name: Seq<char>) -> Option<V>
    decreases scopes.len(),
{
    if scopes.len() == 0 {
        None
    } else if scopes.last().contains_key(name) {
        Some(scopes.last()[name])
    } else {
        lookup(scopes.drop_last(), name)
    }
}

/// The scopes after overwriting `name` in the innermost scope that binds it.
pub open spec fn assigned<V>(scopes: Seq<Map<Seq<char>, V>>, name: Seq<char>, value: V) -> Seq<
    Map<Seq<char>, V>,
>
    decreases scopes.len(),
{
    if scopes.len() == 0 {
        scopes
    } else if scopes.last().contains_key(name) {
        scopes.update(scopes.len() - 1, scopes.last().insert(name, value))
    } else {
        assigned(scopes.drop_last(), name, value).push(scopes.last())
    }
}

/// The message of the error for a name that no scope binds.
pub open spec fn undefined_message(name: Seq<char>) -> Seq<char> {
    "Undefined variable '"@ + name + "'."@
}

/// The entry at `i` is the last one for its name: the scope maps the name to
/// its value.
proof fn lemma_last_entry<V>(s: Seq<(String, V)>, i: int)
    requires
        0 <= i < s.len(),
        forall|j: int| i < j < s.len() ==> s[j].0@ != s[i].0@,
    ensures
        scope_map(s).contains_key(s[i].0@),
        scope_map(s)[s[i].0@] == s[i].1,
    decreases s.len(),
{
    if i < s.len() - 1 {
        lemma_last_entry(s.drop_last(), i);
    }
}

/// No entry has the name: the scope does not bind it.
proof fn lemma_no_entry<V>(s: Seq<(String, V)>, k: Seq<char>)
    requires
        forall|j: int| 0 <= j < s.len() ==> s[j].0@ != k,
    ensures
        !scope_map(s).contains_key(k),
    decreases s.len(),
{
    if s.len() > 0 {
        lemma_no_entry(s.drop_last(), k);
    }
}

/// Overwriting the last entry of a name rebinds the name.
proof fn lemma_overwrite<V>(s: Seq<(String, V)>, i: int, e: (String, V))
    requires
        0 <= i < s.len(),
        e.0@ == s[i].0@,
        forall|j: int| i < j < s.len() ==> s[j].0@ != s[i].0@,
    ensures
        scope_map(s.update(i, e)) == scope_map(s).insert(e.0@, e.1),
    decreases s.len(),
{
    let u = s.update(i, e);
    if i == s.len() - 1 {
        assert(u.drop_last() =~= s.drop_last());
        assert(scope_map(u) =~= scope_map(s).insert(e.0@, e.1));
    } else {
        assert(u.drop_last() =~= s.drop_last().update(i, e));
        lemma_overwrite(s.drop_last(), i, e);
        assert(scope_map(u) =~= scope_map(s).insert(e.0@, e.1));
    }
}

/// The scopes with each value replaced by its model.
pub open spec fn scopes_view<V: View>(scopes: Seq<Map<Seq<char>, V>>) -> Seq<Map<Seq<char>, V::V>> {
    scopes.map_values(|m: Map<Seq<char>, V>| m.map_values(|v: V| v@))
}

pub open spec fn view_of<V: View>(o: Option<V>) -> Option<V::V> {
    match o {
        Some(v) => Some(v@),
        None => None,
    }
}

/// Looking a name up commutes with taking models.
pub proof fn lemma_lookup_view<V: View>(scopes: Seq<Map<Seq<char>, V>>, name: Seq<char>)
    ensures
        lookup(scopes_view(scopes), name) == view_of(lookup(scopes, name)),
    decreases scopes.len(),
{
    if scopes.len() > 0 {
        assert(scopes_view(scopes).drop_last() =~= scopes_view(scopes.drop_last()));
        lemma_lookup_view(scopes.drop_last(), name);
    }
}

/// Assigning commutes with taking models.
pub proof fn lemma_assigned_view<V: View>(scopes: Seq<Map<Seq<char>, V>>, name: Seq<char>, value: V)
    ensures
        scopes_view(assigned(scopes, name, value)) == assigned(scopes_view(scopes), name, value@),
    decreases scopes.len(),
{
    if scopes.len() > 0 {
        assert(scopes_view(scopes).drop_last() =~= scopes_view(scopes.drop_last()));
        if scopes.last().contains_key(name) {
            assert(scopes.last().insert(name, value).map_values(|v: V| v@) =~= scopes.last().map_values(
                |v: V| v@,
            ).insert(name, value@));
            assert(scopes_view(assigned(scopes, name, value)) =~= assigned(
                scopes_view(scopes),
                name,
                value@,
            ));
        } else {
            lemma_assigned_view(scopes.drop_last(), name, value);
            assert(scopes_view(assigned(scopes, name, value)) =~= assigned(
                scopes_view(scopes),
                name,
                value@,
            ));
        }
    }
}

/// Defining in the innermost scope commutes with taking models.
pub proof fn lemma_define_view<V: View>(scopes: Seq<Map<Seq<char>, V>>, name: Seq<char>, value: V)
    requires
        scopes.len() >= 1,
    ensures
        scopes_view(scopes.update(scopes.len() - 1, scopes.last().insert(name, value)))
            == scopes_view(scopes).update(
            scopes.len() - 1,
            scopes_view(scopes).last().insert(name, value@),
        ),
{
    assert(scopes.last().insert(name, value).map_values(|v: V| v@) =~= scopes.last().map_values(
        |v: V| v@,
    ).insert(name, value@));
    assert(scopes_view(scopes.update(scopes.len() - 1, scopes.last().insert(name, value)))
        =~= scopes_view(scopes).update(
        scopes.len() - 1,
        scopes_view(scopes).last().insert(name, value@),
    ));
}

/// Entering and leaving scopes commute with taking models.
pub proof fn lemma_push_pop_view<V: View>(scopes: Seq<Map<Seq<char>, V>>)
    requires
        scopes.len() >= 1,
    ensures
        scopes_view(scopes.push(Map::empty())) == scopes_view(scopes).push(Map::empty()),
        scopes_view(scopes.drop_last()) == scopes_view(scopes).drop_last(),
        scopes_view(scopes).len() == scopes.len(),
{
    assert(Map::<Seq<char>, V>::empty().map_values(|v: V| v@) =~= Map::empty());
    assert(scopes_view(scopes.push(Map::empty())) =~= scopes_view(scopes).push(Map::empty()));
    assert(scopes_view(scopes.drop_last()) =~= scopes_view(scopes).drop_last());
}

/// A stack of scopes: position 0 is the global scope, which is never removed;
/// the last is the innermost.
pub struct EnvironmentStack<V> {
    environments: Vec<Vec<(String, V)>>,
}

impl<V> View for EnvironmentStack<V> {
    type V = Seq<Map<Seq<char>, V>>;

    closed spec fn view(&self) -> Seq<Map<Seq<char>, V>> {
        self.environments@.map_values(|s: Vec<(String, V)>| scope_map(s@))
    }
}

impl<V> EnvironmentStack<V> {
    /// At least the global scope is present, and no scope binds a name twice.
    pub closed spec fn wf(&self) -> bool {
        &&& self.environments@.len() >= 1
        &&& forall|k: int|
            0 <= k < self.environments@.len() ==> unique_names(#[trigger] self.environments@[k]@)
    }

    /// A well-formed stack holds at least the global scope.
    pub proof fn lemma_wf_nonempty(&self)
        requires
            self.wf(),
        ensures
            self@.len() >= 1,
    {
    }

    pub fn new() -> (r: Self)
        ensures
            r.wf(),
            r@ == seq![Map::<Seq<char>, V>::empty()],
    {
        let mut environments: Vec<Vec<(String, V)>> = Vec::new();
        environments.push(Vec::new());
        let r = EnvironmentStack { environments };
        assert(scope_map(r.environments@[0]@) == Map::<Seq<char>, V>::empty());
        assert(r@ =~= seq![Map::<Seq<char>, V>::empty()]);
        r
    }

    /// The bindings of the innermost scope.
    pub fn current_environment(&self) -> (r: &Vec<(String, V)>)
        requires
            self.wf(),
        ensures
            scope_map(r@) == self@.last(),
            unique_names(r@),
    {
        let n = self.environments.len();
        &self.environments[n - 1]
    }

    /// Enters a new, empty innermost scope.
    pub fn push_environment(&mut self)
        requires
            old(self).wf(),
        ensures
            final(self).wf(),
            final(self)@ == old(self)@.push(Map::empty()),
    {
        self.environments.push(Vec::new());
        assert(scope_map(self.environments@.last()@) == Map::<Seq<char>, V>::empty());
        assert(self@ =~= old(self)@.push(Map::empty()));
    }

    /// Leaves the innermost scope; the global scope is never removed.
    pub fn pop_environment(&mut self)
        requires
            old(self).wf(),
        ensures
            final(self).wf(),
            final(self)@ == if old(self)@.len() > 1 {
                old(self)@.drop_last()
            } else {
                old(self)@
            },
    {
        if self.environments.len() > 1 {
            self.environments.pop();
            assert(self@ =~= old(self)@.drop_last());
        }
    }

    /// The index in `scope` of the last entry for `name`.
    fn find(scope: &Vec<(String, V)>, name: &String) -> (r: Option<usize>)
        ensures
            r matches Some(i) ==> {
                &&& i < scope@.len()
                &&& scope@[i as int].0@ == name@
                &&& forall|j: int| i < j < scope@.len() ==> scope@[j].0@ != name@
                &&& scope_map(scope@).contains_key(name@)
                &&& scope_map(scope@)[name@] == scope@[i as int].1
            },
            r is None ==> !scope_map(scope@).contains_key(name@),
            r is None ==> forall|j: int| 0 <= j < scope@.len() ==> scope@[j].0@ != name@,
    {
        let mut i: usize = scope.len();
        while i > 0
            invariant
                i <= scope@.len(),
                forall|j: int| i <= j < scope@.len() ==> scope@[j].0@ != name@,
            decreases i,
        {
            if scope[i - 1].0 == *name {
                proof {
                    lemma_last_entry(scope@, i - 1);
                }
                return Some(i - 1);
            }
            i = i - 1;
        }
        proof {
            lemma_no_entry(scope@, name@);
        }
        None
    }

    /// Binds `name` in the innermost scope, replacing a binding it had there.
    pub fn define(&mut self, name: &Token, value: V)
        requires
            old(self).wf(),
        ensures
            final(self).wf(),
            final(self)@ == old(self)@.update(
                old(self)@.len() - 1,
                old(self)@.last().insert(name.lexeme@, value),
            ),
    {
        let n = self.environments.len();
        self.define_at(n - 1, name.lexeme.clone(), value);
    }

    /// Binds `name` in the global scope, replacing a binding it had there.
    pub fn define_global(&mut self, name: &str, value: V)
        requires
            old(self).wf(),
        ensures
            final(self).wf(),
            final(self)@ == old(self)@.update(0, old(self)@[0].insert(name@, value)),
    {
        self.define_at(0, name.to_owned(), value);
    }

    fn define_at(&mut self, k: usize, name: String, value: V)
        requires
            old(self).wf(),
            k < old(self)@.len(),
        ensures
            final(self).wf(),
            final(self)@ == old(self)@.update(k as int, old(self)@[k as int].insert(name@, value)),
    {
        let ghost old_scope = self.environments@[k as int]@;
        assert(unique_names(old_scope));
        let mut scope: Vec<(String, V)> = Vec::new();
        std::mem::swap(&mut scope, &mut self.environments[k]);
        match Self::find(&scope, &name) {
            Some(i) => {
                let ghost e = (name, value);
                proof {
                    lemma_overwrite(old_scope, i as int, e);
                }
                scope.set(i, (name, value));
                assert(unique_names(scope@)) by {
                    assert forall|a: int, b: int| 0 <= a < b < scope@.len() implies scope@[a].0@
                        != scope@[b].0@ by {
                        assert(scope@[a].0@ == old_scope[a].0@);
                        assert(scope@[b].0@ == old_scope[b].0@);
                    }
                }
            },
            None => {
                scope.push((name, value));
                assert(scope@.drop_last() =~= old_scope);
                assert(unique_names(scope@)) by {
                    assert forall|a: int, b: int| 0 <= a < b < scope@.len() implies scope@[a].0@
                        != scope@[b].0@ by {
                        if b == scope@.len() - 1 {
                            assert(old_scope[a] == scope@[a]);
                        } else {
                            assert(old_scope[a] == scope@[a] && old_scope[b] == scope@[b]);
                        }
                    }
                }
            },
        }
        self.environments.set(k, scope);
        assert(self@ =~= old(self)@.update(k as int, old(self)@[k as int].insert(name@, value)));
    }

    /// The value of `name` in the innermost scope that binds it; an error
    /// naming the token where no scope does.
    pub fn get(&self, name: &Token) -> (r: Result<&V, RuntimeError>)
        requires
            self.wf(),
        ensures
            match lookup(self@, name.lexeme@) {
                Some(v) => r == Ok::<&V, RuntimeError>(&v),
                None => r matches Err(e) && e.token == *name && e.message@ == undefined_message(
                    name.lexeme@,
                ),
            },
    {
        let mut i: usize = self.environments.len();
        assert(self@.subrange(0, i as int) =~= self@);
        while i > 0
            invariant
                self.wf(),
                i <= self@.len(),
                lookup(self@, name.lexeme@) == lookup(self@.subrange(0, i as int), name.lexeme@),
            decreases i,
        {
            let ghost prefix = self@.subrange(0, i as int);
            assert(prefix.drop_last() =~= self@.subrange(0, i - 1));
            match Self::find(&self.environments[i - 1], &name.lexeme) {
                Some(j) => {
                    return Ok(&self.environments[i - 1][j].1);
                },
                None => {},
            }
            i = i - 1;
        }
        Err(undefined(name))
    }

    /// Overwrites `name` in the innermost scope that binds it; an error naming
    /// the token, and no change, where no scope does.
    pub fn assign(&mut self, name: &Token, value: V) -> (r: Result<(), RuntimeError>)
        requires
            old(self).wf(),
        ensures
            final(self).wf(),
            match lookup(old(self)@, name.lexeme@) {
                Some(_) => r is Ok && final(self)@ == assigned(old(self)@, name.lexeme@, value),
                None => r matches Err(e) && e.token == *name && e.message@ == undefined_message(
                    name.lexeme@,
                ) && final(self)@ == old(self)@,
            },
    {
        let mut i: usize = self.environments.len();
        assert(self@.subrange(0, i as int) =~= self@);
        assert(assigned(self@, name.lexeme@, value) + self@.subrange(i as int, self@.len() as int)
            =~= assigned(self@, name.lexeme@, value));
        while i > 0
            invariant
                self.wf(),
                self@ == old(self)@,
                i <= self@.len(),
                lookup(self@, name.lexeme@) == lookup(self@.subrange(0, i as int), name.lexeme@),
                assigned(self@, name.lexeme@, value) == assigned(
                    self@.subrange(0, i as int),
                    name.lexeme@,
                    value,
                ) + self@.subrange(i as int, self@.len() as int),
            decreases i,
        {
            let ghost prefix = self@.subrange(0, i as int);
            assert(prefix.drop_last() =~= self@.subrange(0, i - 1));
            let found = Self::find(&self.environments[i - 1], &name.lexeme);
            if found.is_some() {
                assert(assigned(prefix, name.lexeme@, value) =~= prefix.update(
                    i - 1,
                    prefix.last().insert(name.lexeme@, value),
                ));
                self.define_at(i - 1, name.lexeme.clone(), value);
                assert(self@ =~= assigned(old(self)@, name.lexeme@, value));
                return Ok(());
            }
            assert(assigned(prefix, name.lexeme@, value) == assigned(
                self@.subrange(0, i - 1),
                name.lexeme@,
                value,
            ).push(prefix.last()));
            assert(self@.subrange(i - 1, self@.len() as int) =~= seq![prefix.last()]
                + self@.subrange(i as int, self@.len() as int));
            i = i - 1;
        }
        Err(undefined(name))
    }
}

/// The error for a name that no scope binds, naming its token.
fn undefined(name: &Token) -> (e: RuntimeError)
    ensures
        e.token == *name,
        e.message@ == undefined_message(name.lexeme@),
{
    let message = "Undefined variable '".to_owned().concat(name.lexeme.as_str()).concat("'.");
    RuntimeError { message, token: name.duplicate() }
}

} // verus!

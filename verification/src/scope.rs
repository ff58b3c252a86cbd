use vstd::prelude::*;

use crate::ids::{group_ids, ClassId, VarId};
use crate::table::Table;
use crate::scope_laws::{
    law_class_insert_keeps, law_initial_consistent, law_pop_keeps, law_push_keeps,
    law_var_insert_accepts, law_var_insert_keeps,
};

verus! {

broadcast use vstd::string::group_string_axioms, group_ids;

/// The variables declared in one block, and their classes.
#[derive(Debug)]
pub struct SubScope {
    pub str_to_var: Table<String, VarId>,
    pub var_to_class: Table<VarId, ClassId>,
}

/// A sub-scope as mathematical maps.
pub struct SpecSubScope {
    pub vars: Map<Seq<char>, VarId>,
    pub var_classes: Map<VarId, ClassId>,
}

impl SpecSubScope {
    /// The sub-scope of a block that declares nothing yet.
    pub open spec fn empty() -> SpecSubScope {
        SpecSubScope { vars: Map::empty(), var_classes: Map::empty() }
    }
}

impl View for SubScope {
    type V = SpecSubScope;

    open spec fn view(&self) -> SpecSubScope {
        SpecSubScope { vars: self.str_to_var.view(), var_classes: self.var_to_class.view() }
    }
}

impl SubScope {
    /// Both tables keep their invariant.
    pub open spec fn wf(&self) -> bool {
        self.str_to_var.wf() && self.var_to_class.wf()
    }

    /// A sub-scope that declares nothing.
    pub fn empty() -> (s: SubScope)
        ensures
            s.wf(),
            s@ == SpecSubScope::empty(),
    {
        SubScope { str_to_var: Table::new(), var_to_class: Table::new() }
    }
}

impl Clone for SubScope {
    /// A copy of the sub-scope.
    fn clone(&self) -> (r: SubScope)
        ensures
            r@ == self@,
            r.wf() == self.wf(),
    {
        SubScope { str_to_var: self.str_to_var.clone(), var_to_class: self.var_to_class.clone() }
    }
}

impl Default for SubScope {
    fn default() -> (s: SubScope)
        ensures
            s.wf(),
            s@ == SpecSubScope::empty(),
    {
        SubScope::empty()
    }
}

/// The variable that a name stands for in a stack of sub-scopes: the one
/// declared in the innermost sub-scope that declares the name.
pub open spec fn lookup_var(subs: Seq<SpecSubScope>, name: Seq<char>) -> Option<VarId>
    decreases subs.len(),
{
    if subs.len() == 0 {
        None
    } else if subs.last().vars.contains_key(name) {
        Some(subs.last().vars[name])
    } else {
        lookup_var(subs.drop_last(), name)
    }
}

/// The class of a variable in a stack of sub-scopes: as recorded by the
/// innermost sub-scope that records the variable.
pub open spec fn lookup_var_class(subs: Seq<SpecSubScope>, v: VarId) -> Option<ClassId>
    decreases subs.len(),
{
    if subs.len() == 0 {
        None
    } else if subs.last().var_classes.contains_key(v) {
        Some(subs.last().var_classes[v])
    } else {
        lookup_var_class(subs.drop_last(), v)
    }
}

/// In each sub-scope every name has a class recorded for its variable, and
/// no variable is recorded in two sub-scopes.
pub open spec fn subs_consistent(subs: Seq<SpecSubScope>) -> bool {
    &&& forall|i: int, n: Seq<char>|
        0 <= i < subs.len() && #[trigger] subs[i].vars.contains_key(n)
            ==> subs[i].var_classes.contains_key(subs[i].vars[n])
    &&& forall|i: int, j: int, v: VarId|
        0 <= i < subs.len() && 0 <= j < subs.len() && i != j && #[trigger] subs[i].var_classes.contains_key(v)
            ==> !#[trigger] subs[j].var_classes.contains_key(v)
}

/// A scope as mathematical values: the stack of sub-scopes (innermost last),
/// the classes by name and by path, and the counter that numbers variables
/// and classes.
pub struct SpecScope {
    pub subs: Seq<SpecSubScope>,
    pub classes: Map<Seq<char>, ClassId>,
    pub paths: Map<Seq<Seq<char>>, ClassId>,
    pub count: nat,
}

impl SpecScope {
    /// A new scope: one empty sub-scope, the three reserved classes, and the
    /// counter at 2 (numbers up to 2 are reserved).
    pub open spec fn initial() -> SpecScope {
        SpecScope {
            subs: seq![SpecSubScope::empty()],
            classes: Map::<Seq<char>, ClassId>::empty().insert("This"@, ClassId::at(0)).insert(
                "StringLiteral"@,
                ClassId::at(2),
            ).insert("NumberLiteral"@, ClassId::at(1)),
            paths: Map::empty(),
            count: 2,
        }
    }

    /// The scope with one more, empty, innermost sub-scope.
    pub open spec fn push_subscope(self) -> SpecScope {
        SpecScope { subs: self.subs.push(SpecSubScope::empty()), ..self }
    }

    /// The innermost sub-scope and the scope without it; `None` when it is the
    /// only one.
    pub open spec fn pop_subscope(self) -> Option<(SpecSubScope, SpecScope)> {
        if self.subs.len() > 1 {
            Some((self.subs.last(), SpecScope { subs: self.subs.drop_last(), ..self }))
        } else {
            None
        }
    }

    /// Declares a variable of class `class` in the innermost sub-scope, under
    /// the next number. `None` when the counter cannot grow, or when the
    /// innermost sub-scope already declares the name or the number.
    pub open spec fn var_insert(self, name: Seq<char>, class: ClassId) -> Option<(VarId, SpecScope)> {
        let id = VarId::at((self.count + 1) as nat);
        let last = self.subs.last();
        if self.subs.len() == 0 || self.count >= usize::MAX || last.vars.contains_key(name)
            || last.var_classes.contains_key(id) {
            None
        } else {
            Some(
                (
                    id,
                    SpecScope {
                        subs: self.subs.update(
                            self.subs.len() - 1,
                            SpecSubScope {
                                vars: last.vars.insert(name, id),
                                var_classes: last.var_classes.insert(id, class),
                            },
                        ),
                        count: self.count + 1,
                        ..self
                    },
                ),
            )
        }
    }

    /// Declares a class under a name and a path, under the next number.
    /// `None` when the counter cannot grow, or when the path or the name is
    /// already taken.
    pub open spec fn class_insert(self, name: Seq<char>, path: Seq<Seq<char>>) -> Option<
        (ClassId, SpecScope),
    > {
        let id = ClassId::at(self.count + 1);
        if self.count >= usize::MAX || self.paths.contains_key(path) || self.classes.contains_key(
            name,
        ) {
            None
        } else {
            Some(
                (
                    id,
                    SpecScope {
                        classes: self.classes.insert(name, id),
                        paths: self.paths.insert(path, id),
                        count: self.count + 1,
                        ..self
                    },
                ),
            )
        }
    }

    /// What holds of every scope that the library builds: at least one
    /// sub-scope; the counter past the reserved numbers and within a `usize`;
    /// every name of a sub-scope has a class recorded in that sub-scope; no
    /// variable is recorded in two sub-scopes; and no variable or class is
    /// numbered above the counter.
    pub open spec fn consistent(self) -> bool {
        &&& self.subs.len() >= 1
        &&& 2 <= self.count <= usize::MAX
        &&& subs_consistent(self.subs)
        &&& forall|i: int, v: VarId|
            0 <= i < self.subs.len() && #[trigger] self.subs[i].var_classes.contains_key(v)
                ==> v.index() <= self.count
        &&& forall|n: Seq<char>| #[trigger]
            self.classes.contains_key(n) ==> self.classes[n].index() <= self.count
        &&& forall|p: Seq<Seq<char>>| #[trigger]
            self.paths.contains_key(p) ==> self.paths[p].index() <= self.count
    }

    /// The variable that a name stands for.
    pub open spec fn get_var(self, name: Seq<char>) -> Option<VarId> {
        lookup_var(self.subs, name)
    }

    /// The class that a name stands for.
    pub open spec fn get_class(self, name: Seq<char>) -> Option<ClassId> {
        if self.classes.contains_key(name) {
            Some(self.classes[name])
        } else {
            None
        }
    }

    /// The class of a variable.
    pub open spec fn type_var(self, v: VarId) -> Option<ClassId> {
        lookup_var_class(self.subs, v)
    }
}

/// The sub-scopes of a stack as mathematical values.
pub open spec fn view_subs(subs: Seq<SubScope>) -> Seq<SpecSubScope> {
    subs.map_values(|s: SubScope| s@)
}

/// The scope of names while a program is read: the variables of each open
/// block, the classes, and a counter that numbers both.
///
/// There is always at least one sub-scope.
#[derive(Debug)]
pub struct Scope {
    sub_scopes: Vec<SubScope>,
    str_to_class: Table<String, ClassId>,
    path_to_class: Table<Vec<String>, ClassId>,
    count: usize,
}

impl View for Scope {
    type V = SpecScope;

    /// The scope as mathematical values.
    closed spec fn view(&self) -> SpecScope {
        SpecScope {
            subs: view_subs(self.sub_scopes@),
            classes: self.str_to_class.view(),
            paths: self.path_to_class.view(),
            count: self.count as nat,
        }
    }
}

impl Clone for Scope {
    /// A copy of the scope.
    fn clone(&self) -> (r: Scope)
        ensures
            r@ == self@,
            r.wf() == self.wf(),
    {
        let mut subs: Vec<SubScope> = Vec::new();
        let mut i: usize = 0;
        while i < self.sub_scopes.len()
            invariant
                i <= self.sub_scopes@.len(),
                subs@.len() == i,
                forall|j: int|
                    0 <= j < i ==> (#[trigger] subs@[j])@ == self.sub_scopes@[j]@ && subs@[j].wf()
                        == self.sub_scopes@[j].wf(),
            decreases self.sub_scopes@.len() - i,
        {
            subs.push(self.sub_scopes[i].clone());
            i = i + 1;
        }
        let r = Scope {
            sub_scopes: subs,
            str_to_class: self.str_to_class.clone(),
            path_to_class: self.path_to_class.clone(),
            count: self.count,
        };
        assert(view_subs(r.sub_scopes@) =~= view_subs(self.sub_scopes@));
        assert(r.wf() == self.wf()) by {
            if self.wf() {
                assert forall|j: int| 0 <= j < r.sub_scopes@.len() implies (#[trigger] r.sub_scopes@[j]).wf() by {
                    assert(self.sub_scopes@[j].wf());
                }
            }
            if r.wf() {
                assert forall|j: int| 0 <= j < self.sub_scopes@.len() implies (#[trigger] self.sub_scopes@[j]).wf() by {
                    assert(r.sub_scopes@[j].wf());
                }
            }
        }
        r
    }
}

impl Scope {
    /// The scope's invariant: every table well formed, and the scope
    /// consistent (see `SpecScope::consistent`).
    pub closed spec fn wf(&self) -> bool {
        &&& forall|i: int| 0 <= i < self.sub_scopes@.len() ==> (#[trigger] self.sub_scopes@[i]).wf()
        &&& self.str_to_class.wf()
        &&& self.path_to_class.wf()
        &&& self.view().consistent()
    }

    /// A new scope with one empty sub-scope and the reserved classes `This`,
    /// `StringLiteral` and `NumberLiteral`.
    pub fn new() -> (s: Scope)
        ensures
            s.wf(),
            s.view() == SpecScope::initial(),
    {
        let mut classes: Table<String, ClassId> = Table::new();
        proof {
            reveal_strlit("This");
            reveal_strlit("StringLiteral");
            reveal_strlit("NumberLiteral");
            assert("StringLiteral"@.len() != "This"@.len());
            assert("NumberLiteral"@.len() != "This"@.len());
            assert("NumberLiteral"@[0] != "StringLiteral"@[0]);
        }
        classes.insert_new(String::from_str("This"), ClassId::this());
        classes.insert_new(String::from_str("StringLiteral"), ClassId::string());
        classes.insert_new(String::from_str("NumberLiteral"), ClassId::integer());
        let mut subs: Vec<SubScope> = Vec::new();
        subs.push(SubScope::empty());
        let s = Scope { sub_scopes: subs, str_to_class: classes, path_to_class: Table::new(), count: 2 };
        assert(view_subs(s.sub_scopes@) =~= seq![SpecSubScope::empty()]);
        proof {
            law_initial_consistent();
        }
        s
    }

    /// Opens a new, empty, innermost sub-scope.
    pub fn push_subscope(&mut self)
        requires
            old(self).wf(),
        ensures
            final(self).wf(),
            final(self).view() == old(self).view().push_subscope(),
    {
        let ghost old_subs = self.sub_scopes@;
        proof {
            law_push_keeps(self.view());
        }
        self.sub_scopes.push(SubScope::empty());
        proof {
            assert(view_subs(self.sub_scopes@) =~= view_subs(old_subs).push(SpecSubScope::empty()));
            assert forall|i: int| 0 <= i < self.sub_scopes@.len() implies (#[trigger] self.sub_scopes@[i]).wf() by {
                if i < old_subs.len() {
                    assert(self.sub_scopes@[i] == old_subs[i]);
                }
            }
        }
    }

    /// Closes the innermost sub-scope and returns it. The outermost one
    /// cannot be closed.
    pub fn pop_subscope(&mut self) -> (sub: SubScope)
        requires
            old(self).wf(),
            old(self).view().subs.len() > 1,
        ensures
            final(self).wf(),
            sub.wf(),
            old(self).view().pop_subscope() == Some((sub@, final(self).view())),
    {
        let ghost old_subs = self.sub_scopes@;
        proof {
            law_pop_keeps(self.view());
        }
        let sub = self.sub_scopes.pop().unwrap();
        proof {
            assert(self.sub_scopes@ == old_subs.drop_last());
            assert(view_subs(self.sub_scopes@) =~= view_subs(old_subs).drop_last());
            assert(old_subs[old_subs.len() - 1] == sub);
            assert forall|i: int| 0 <= i < self.sub_scopes@.len() implies (#[trigger] self.sub_scopes@[i]).wf() by {
                assert(self.sub_scopes@[i] == old_subs[i]);
            }
        }
        sub
    }

    /// Declares a variable of class `class` under `name` in the innermost
    /// sub-scope and returns its number.
    pub fn var_insert(&mut self, name: String, class: ClassId) -> (id: VarId)
        requires
            old(self).wf(),
            old(self).view().var_insert(name@, class) is Some,
        ensures
            final(self).wf(),
            old(self).view().var_insert(name@, class) == Some((id, final(self).view())),
    {
        let ghost old_subs = self.sub_scopes@;
        let ghost old_view = self.view();
        proof {
            law_var_insert_keeps(old_view, name@, class);
        }
        let mut sub = self.sub_scopes.pop().unwrap();
        proof {
            assert(old_subs[old_subs.len() - 1] == sub);
            assert(old_view.subs.last() == sub@);
        }
        self.count = self.count + 1;
        let id = VarId::from_count(self.count);
        sub.str_to_var.insert_new(name, id);
        sub.var_to_class.insert_new(id, class);
        let ghost new_sub = sub;
        self.sub_scopes.push(sub);
        proof {
            assert(self.sub_scopes@ == old_subs.update(old_subs.len() - 1, new_sub));
            assert(view_subs(self.sub_scopes@) =~= old_view.subs.update(
                old_subs.len() - 1,
                new_sub@,
            ));
            assert forall|i: int| 0 <= i < self.sub_scopes@.len() implies (#[trigger] self.sub_scopes@[i]).wf() by {
                if i < old_subs.len() - 1 {
                    assert(self.sub_scopes@[i] == old_subs[i]);
                }
            }
        }
        id
    }

    /// Declares a class under `name` and `path` and returns its number.
    pub fn class_insert(&mut self, name: String, path: Vec<String>) -> (id: ClassId)
        requires
            old(self).wf(),
            old(self).view().class_insert(name@, path.deep_view()) is Some,
        ensures
            final(self).wf(),
            old(self).view().class_insert(name@, path.deep_view()) == Some((id, final(self).view())),
    {
        proof {
            law_class_insert_keeps(self.view(), name@, path.deep_view());
        }
        self.count = self.count + 1;
        let id = ClassId::from_count(self.count);
        self.path_to_class.insert_new(path, id);
        self.str_to_class.insert_new(name, id);
        id
    }

    /// The variable that a name stands for, looked up from the innermost
    /// sub-scope outwards.
    pub fn get_var(&self, ident: &str) -> (r: Option<VarId>)
        requires
            self.wf(),
        ensures
            r == self.view().get_var(ident@),
    {
        let ghost subs = view_subs(self.sub_scopes@);
        let mut i = self.sub_scopes.len();
        assert(subs.take(i as int) =~= subs);
        while i > 0
            invariant
                self.wf(),
                i <= self.sub_scopes@.len(),
                subs == view_subs(self.sub_scopes@),
                lookup_var(subs, ident@) == lookup_var(subs.take(i as int), ident@),
            decreases i,
        {
            let found = self.sub_scopes[i - 1].str_to_var.get(ident);
            proof {
                assert(self.sub_scopes@[i - 1].wf());
                assert(subs.take(i as int).last() == self.sub_scopes@[i - 1]@);
                assert(subs.take(i as int).drop_last() =~= subs.take(i - 1));
            }
            if let Some(v) = found {
                return Some(v);
            }
            i = i - 1;
        }
        None
    }

    /// Declares a variable as `var_insert` does, or returns `None`, leaving the
    /// scope as it was, where `var_insert` would not accept the declaration.
    pub fn try_var_insert(&mut self, name: String, class: ClassId) -> (r: Option<VarId>)
        requires
            old(self).wf(),
        ensures
            final(self).wf(),
            match old(self).view().var_insert(name@, class) {
                Some((id, sc)) => r == Some(id) && final(self).view() == sc,
                None => r is None && final(self).view() == old(self).view(),
            },
    {
        let ghost v = self.view();
        proof {
            assert(self.sub_scopes@[self.sub_scopes@.len() - 1].wf());
            assert(v.subs.last() == self.sub_scopes@[self.sub_scopes@.len() - 1]@);
        }
        if self.count == usize::MAX {
            return None;
        }
        let last = self.sub_scopes.len() - 1;
        if self.sub_scopes[last].str_to_var.get(name.as_str()).is_some() {
            return None;
        }
        proof {
            law_var_insert_accepts(v, name@, class);
        }
        Some(self.var_insert(name, class))
    }

    /// Declares a class as `class_insert` does, or returns `None`, leaving the
    /// scope as it was, where `class_insert` would not accept the declaration.
    pub fn try_class_insert(&mut self, name: String, path: Vec<String>) -> (r: Option<ClassId>)
        requires
            old(self).wf(),
        ensures
            final(self).wf(),
            match old(self).view().class_insert(name@, path.deep_view()) {
                Some((id, sc)) => r == Some(id) && final(self).view() == sc,
                None => r is None && final(self).view() == old(self).view(),
            },
    {
        if self.count == usize::MAX || self.path_to_class.contains_path(&path)
            || self.str_to_class.get(name.as_str()).is_some() {
            return None;
        }
        Some(self.class_insert(name, path))
    }

    /// The number of open sub-scopes.
    pub fn num_subscopes(&self) -> (n: usize)
        requires
            self.wf(),
        ensures
            n == self.view().subs.len(),
    {
        self.sub_scopes.len()
    }

    /// Takes a scope apart: its sub-scopes, its classes by name, and its
    /// classes by path.
    pub(crate) fn into_parts(self) -> (r: (Vec<SubScope>, Table<String, ClassId>, Table<Vec<String>, ClassId>))
        requires
            self.wf(),
        ensures
            view_subs(r.0@) == self.view().subs,
            forall|i: int| 0 <= i < r.0@.len() ==> (#[trigger] r.0@[i]).wf(),
            r.1.wf(),
            r.1.view() == self.view().classes,
            r.2.wf(),
            r.2.view() == self.view().paths,
    {
        (self.sub_scopes, self.str_to_class, self.path_to_class)
    }

    /// The class that a name stands for.
    pub fn get_class(&self, ident: &str) -> (r: Option<ClassId>)
        requires
            self.wf(),
        ensures
            r == self.view().get_class(ident@),
    {
        self.str_to_class.get(ident)
    }

    /// The class of a variable, looked up from the innermost sub-scope
    /// outwards.
    pub fn type_var(&self, ident: VarId) -> (r: Option<ClassId>)
        requires
            self.wf(),
        ensures
            r == self.view().type_var(ident),
    {
        let ghost subs = view_subs(self.sub_scopes@);
        let mut i = self.sub_scopes.len();
        assert(subs.take(i as int) =~= subs);
        while i > 0
            invariant
                self.wf(),
                i <= self.sub_scopes@.len(),
                subs == view_subs(self.sub_scopes@),
                lookup_var_class(subs, ident) == lookup_var_class(subs.take(i as int), ident),
            decreases i,
        {
            let found = self.sub_scopes[i - 1].var_to_class.get_class_of(ident);
            proof {
                assert(self.sub_scopes@[i - 1].wf());
                assert(subs.take(i as int).last() == self.sub_scopes@[i - 1]@);
                assert(subs.take(i as int).drop_last() =~= subs.take(i - 1));
            }
            if let Some(c) = found {
                return Some(c);
            }
            i = i - 1;
        }
        None
    }
}

/// Every scope that the library builds is consistent.
pub proof fn law_wf_consistent(s: &Scope)
    requires
        s.wf(),
    ensures
        s.view().consistent(),
{
}

/// A well-formed scope always has a sub-scope to declare variables in, and
/// its counter is past the reserved numbers 0, 1 and 2.
pub proof fn law_scope_has_subscope(s: &Scope)
    requires
        s.wf(),
    ensures
        s.view().subs.len() >= 1,
        s.view().count >= 2,
{
}

/// Opening a sub-scope and closing it again gives back an empty sub-scope,
/// and the scope as it was.
pub proof fn law_push_then_pop(s: &Scope)
    requires
        s.wf(),
    ensures
        s.view().push_subscope().pop_subscope() == Some((SpecSubScope::empty(), s.view())),
{
    let sc = s.view();
    assert(sc.push_subscope().subs.drop_last() =~= sc.subs);
}

/// After a variable is declared, its name stands for it, its class is the
/// one it was declared with, and every other name stands for what it stood
/// for before.
pub proof fn law_var_insert_then_lookup(s: &Scope, name: Seq<char>, class: ClassId, other: Seq<char>)
    requires
        s.wf(),
        s.view().var_insert(name, class) is Some,
    ensures
        ({
            let (id, sc) = s.view().var_insert(name, class).unwrap();
            &&& sc.get_var(name) == Some(id)
            &&& sc.type_var(id) == Some(class)
            &&& other != name ==> sc.get_var(other) == s.view().get_var(other)
        }),
{
    let old_sc = s.view();
    let (id, sc) = old_sc.var_insert(name, class).unwrap();
    assert(sc.subs.drop_last() =~= old_sc.subs.drop_last());
}

/// A new variable gets a number that no variable of the scope has, above the
/// reserved numbers, and the counter moves to it.
pub proof fn law_var_numbers_fresh(s: &Scope, name: Seq<char>, class: ClassId)
    requires
        s.wf(),
        s.view().var_insert(name, class) is Some,
    ensures
        ({
            let (id, sc) = s.view().var_insert(name, class).unwrap();
            &&& id.index() > 2
            &&& id.index() == sc.count
            &&& sc.count == s.view().count + 1
            &&& forall|i: int, v: VarId|
                0 <= i < s.view().subs.len() && #[trigger] s.view().subs[i].var_classes.contains_key(v)
                    ==> v != id
        }),
{
    let (id, sc) = s.view().var_insert(name, class).unwrap();
    assert forall|i: int, v: VarId|
        0 <= i < s.view().subs.len() && #[trigger] s.view().subs[i].var_classes.contains_key(v)
        implies v != id by {
        assert(s.view().subs[i] == s.sub_scopes@[i]@);
        assert(s.sub_scopes@[i]@.var_classes.contains_key(v));
    }
}

/// After a class is declared, its name stands for it, its path leads to it,
/// and every other name stands for what it stood for before.
pub proof fn law_class_insert_then_lookup(
    s: &Scope,
    name: Seq<char>,
    path: Seq<Seq<char>>,
    other: Seq<char>,
)
    requires
        s.wf(),
        s.view().class_insert(name, path) is Some,
    ensures
        ({
            let (id, sc) = s.view().class_insert(name, path).unwrap();
            &&& sc.get_class(name) == Some(id)
            &&& sc.paths[path] == id
            &&& id.index() == sc.count
            &&& id.index() > 2
            &&& other != name ==> sc.get_class(other) == s.view().get_class(other)
        }),
{
}

} // verus!

use vstd::prelude::*;

use crate::ids::{group_ids, ClassId, VarId};
use crate::scope::{lookup_var, lookup_var_class, subs_consistent, SpecScope, SpecSubScope};

verus! {

broadcast use vstd::string::group_string_axioms, group_ids;

/// A new scope is consistent.
pub proof fn law_initial_consistent()
    ensures
        SpecScope::initial().consistent(),
{
    let sc = SpecScope::initial();
    assert(sc.subs[0] == SpecSubScope::empty());
}

/// Opening a sub-scope keeps a scope consistent, and keeps its classes,
/// paths and counter.
pub proof fn law_push_keeps(sc: SpecScope)
    requires
        sc.consistent(),
    ensures
        sc.push_subscope().consistent(),
        sc.push_subscope().classes == sc.classes,
        sc.push_subscope().paths == sc.paths,
        sc.push_subscope().count == sc.count,
{
    let sc2 = sc.push_subscope();
    let n = sc.subs.len();
    assert forall|i: int, m: Seq<char>|
        0 <= i < sc2.subs.len() && #[trigger] sc2.subs[i].vars.contains_key(m)
        implies sc2.subs[i].var_classes.contains_key(sc2.subs[i].vars[m]) by {
        if i < sc.subs.len() {
            assert(sc2.subs[i] == sc.subs[i]);
            assert(sc.subs[i].vars.contains_key(m));
        }
    }
    assert forall|i: int, j: int, v: VarId|
        0 <= i < sc2.subs.len() && 0 <= j < sc2.subs.len() && i != j
            && #[trigger] sc2.subs[i].var_classes.contains_key(v)
        implies !#[trigger] sc2.subs[j].var_classes.contains_key(v) by {
        if i < n && j < n {
            assert(sc2.subs[i] == sc.subs[i]);
            assert(sc2.subs[j] == sc.subs[j]);
        }
    }
    assert forall|i: int, v: VarId|
        0 <= i < sc2.subs.len() && #[trigger] sc2.subs[i].var_classes.contains_key(v)
        implies v.index() <= sc2.count by {
        assert(sc2.subs[i] == sc.subs[i]);
    }
}

/// Closing a sub-scope keeps a scope consistent, and keeps its classes,
/// paths and counter.
pub proof fn law_pop_keeps(sc: SpecScope)
    requires
        sc.consistent(),
        sc.pop_subscope() is Some,
    ensures
        ({
            let (_, sc2) = sc.pop_subscope().unwrap();
            &&& sc2.consistent()
            &&& sc2.classes == sc.classes
            &&& sc2.paths == sc.paths
            &&& sc2.count == sc.count
        }),
{
    let (_, sc2) = sc.pop_subscope().unwrap();
    assert forall|i: int, m: Seq<char>|
        0 <= i < sc2.subs.len() && #[trigger] sc2.subs[i].vars.contains_key(m)
        implies sc2.subs[i].var_classes.contains_key(sc2.subs[i].vars[m]) by {
        if i < sc.subs.len() {
            assert(sc2.subs[i] == sc.subs[i]);
            assert(sc.subs[i].vars.contains_key(m));
        }
    }
    assert forall|i: int, j: int, v: VarId|
        0 <= i < sc2.subs.len() && 0 <= j < sc2.subs.len() && i != j
            && #[trigger] sc2.subs[i].var_classes.contains_key(v)
        implies !#[trigger] sc2.subs[j].var_classes.contains_key(v) by {
        assert(sc2.subs[i] == sc.subs[i]);
        assert(sc2.subs[j] == sc.subs[j]);
    }
    assert forall|i: int, v: VarId|
        0 <= i < sc2.subs.len() && #[trigger] sc2.subs[i].var_classes.contains_key(v)
        implies v.index() <= sc2.count by {
        assert(sc2.subs[i] == sc.subs[i]);
    }
}

/// In a consistent scope, a declaration is refused only when the counter
/// cannot grow or the innermost sub-scope already declares the name: while
/// the counter can grow, the next number is never already recorded.
pub proof fn law_var_insert_accepts(sc: SpecScope, name: Seq<char>, class: ClassId)
    requires
        sc.consistent(),
    ensures
        sc.count < usize::MAX ==> !sc.subs.last().var_classes.contains_key(VarId::at(sc.count + 1)),
        sc.var_insert(name, class) is Some <==> sc.count < usize::MAX && !sc.subs.last().vars.contains_key(
            name,
        ),
{
    let id = VarId::at(sc.count + 1);
    if sc.count < usize::MAX && sc.subs.last().var_classes.contains_key(id) {
        assert(sc.subs[sc.subs.len() - 1].var_classes.contains_key(id));
    }
}

/// Declaring a variable keeps a scope consistent and keeps its classes and
/// paths; the new variable is numbered with the new counter, one above the
/// old.
pub proof fn law_var_insert_keeps(sc: SpecScope, name: Seq<char>, class: ClassId)
    requires
        sc.consistent(),
        sc.var_insert(name, class) is Some,
    ensures
        ({
            let (id, sc2) = sc.var_insert(name, class).unwrap();
            &&& sc2.consistent()
            &&& sc2.classes == sc.classes
            &&& sc2.paths == sc.paths
            &&& sc2.count == sc.count + 1
            &&& id.index() == sc2.count
        }),
{
    let (id, sc2) = sc.var_insert(name, class).unwrap();
    let n = sc.subs.len();
    let last = sc.subs.last();
    assert(id.index() == sc.count + 1);
    assert forall|i: int, m: Seq<char>|
        0 <= i < sc2.subs.len() && #[trigger] sc2.subs[i].vars.contains_key(m)
        implies sc2.subs[i].var_classes.contains_key(sc2.subs[i].vars[m]) by {
        if i < n - 1 {
            assert(sc2.subs[i] == sc.subs[i]);
            assert(sc.subs[i].vars.contains_key(m));
        } else if m != name {
            assert(sc.subs[n - 1].vars.contains_key(m));
            assert(sc.subs[n - 1].var_classes.contains_key(sc.subs[n - 1].vars[m]));
        }
    }
    assert forall|i: int, j: int, v: VarId|
        0 <= i < sc2.subs.len() && 0 <= j < sc2.subs.len() && i != j
            && #[trigger] sc2.subs[i].var_classes.contains_key(v)
        implies !#[trigger] sc2.subs[j].var_classes.contains_key(v) by {
        if i < n - 1 && j < n - 1 {
            assert(sc2.subs[i] == sc.subs[i]);
            assert(sc2.subs[j] == sc.subs[j]);
        } else if i < n - 1 {
            assert(sc2.subs[i] == sc.subs[i]);
            if v == id {
                assert(sc.subs[i].var_classes.contains_key(v));
            } else if sc2.subs[j].var_classes.contains_key(v) {
                assert(sc.subs[n - 1].var_classes.contains_key(v));
            }
        } else {
            assert(sc2.subs[j] == sc.subs[j]);
            if v == id {
                if sc.subs[j].var_classes.contains_key(v) {
                    assert(v.index() <= sc.count);
                }
            } else {
                assert(sc.subs[n - 1].var_classes.contains_key(v));
            }
        }
    }
    assert forall|i: int, v: VarId|
        0 <= i < sc2.subs.len() && #[trigger] sc2.subs[i].var_classes.contains_key(v)
        implies v.index() <= sc2.count by {
        if i < n - 1 {
            assert(sc2.subs[i] == sc.subs[i]);
        } else if v != id {
            assert(sc.subs[n - 1].var_classes.contains_key(v));
        }
    }
}

/// Declaring a class keeps a scope consistent and keeps its sub-scopes; the
/// new class is numbered with the new counter, one above the old.
pub proof fn law_class_insert_keeps(sc: SpecScope, name: Seq<char>, path: Seq<Seq<char>>)
    requires
        sc.consistent(),
        sc.class_insert(name, path) is Some,
    ensures
        ({
            let (id, sc2) = sc.class_insert(name, path).unwrap();
            &&& sc2.consistent()
            &&& sc2.subs == sc.subs
            &&& sc2.count == sc.count + 1
            &&& id.index() == sc2.count
        }),
{
}

/// An operation on a scope, as the `Scope` methods perform them.
pub enum ScopeOp {
    Push,
    Pop,
    Var(Seq<char>, ClassId),
    Class(Seq<char>, Seq<Seq<char>>),
}

/// The operations that hand out a number.
pub open spec fn is_insert(op: ScopeOp) -> bool {
    op is Var || op is Class
}

/// The scope after one operation; `None` where the method would not accept
/// it.
pub open spec fn step_op(sc: SpecScope, op: ScopeOp) -> Option<SpecScope> {
    match op {
        ScopeOp::Push => Some(sc.push_subscope()),
        ScopeOp::Pop => match sc.pop_subscope() {
            Some((_, sc2)) => Some(sc2),
            None => None,
        },
        ScopeOp::Var(n, c) => match sc.var_insert(n, c) {
            Some((_, sc2)) => Some(sc2),
            None => None,
        },
        ScopeOp::Class(n, p) => match sc.class_insert(n, p) {
            Some((_, sc2)) => Some(sc2),
            None => None,
        },
    }
}

/// Runs operations in order: the counter after each one (for `Var` and
/// `Class`, the number it hands out), and the final scope.
pub open spec fn run_ops(sc: SpecScope, ops: Seq<ScopeOp>) -> Option<(Seq<nat>, SpecScope)>
    decreases ops.len(),
{
    if ops.len() == 0 {
        Some((Seq::empty(), sc))
    } else {
        match run_ops(sc, ops.drop_last()) {
            Some((ns, sc1)) => match step_op(sc1, ops.last()) {
                Some(sc2) => Some((ns.push(sc2.count), sc2)),
                None => None,
            },
            None => None,
        }
    }
}

/// The classes by name after the `Class` operations of `ops` (handing out
/// the numbers `ns`) are added to `m`.
pub open spec fn add_classes(m: Map<Seq<char>, ClassId>, ops: Seq<ScopeOp>, ns: Seq<nat>) -> Map<
    Seq<char>,
    ClassId,
>
    decreases ops.len(),
{
    if ops.len() == 0 || ns.len() == 0 {
        m
    } else {
        let m1 = add_classes(m, ops.drop_last(), ns.drop_last());
        match ops.last() {
            ScopeOp::Class(n, _) => m1.insert(n, ClassId::at(ns.last())),
            _ => m1,
        }
    }
}

/// The classes by path after the `Class` operations of `ops` (handing out
/// the numbers `ns`) are added to `m`.
pub open spec fn add_paths(m: Map<Seq<Seq<char>>, ClassId>, ops: Seq<ScopeOp>, ns: Seq<nat>) -> Map<
    Seq<Seq<char>>,
    ClassId,
>
    decreases ops.len(),
{
    if ops.len() == 0 || ns.len() == 0 {
        m
    } else {
        let m1 = add_paths(m, ops.drop_last(), ns.drop_last());
        match ops.last() {
            ScopeOp::Class(_, p) => m1.insert(p, ClassId::at(ns.last())),
            _ => m1,
        }
    }
}

proof fn lemma_step_op_keeps(sc: SpecScope, op: ScopeOp)
    requires
        sc.consistent(),
        step_op(sc, op) is Some,
    ensures
        step_op(sc, op).unwrap().consistent(),
        is_insert(op) ==> step_op(sc, op).unwrap().count == sc.count + 1,
        !is_insert(op) ==> step_op(sc, op).unwrap().count == sc.count,
{
    match op {
        ScopeOp::Push => law_push_keeps(sc),
        ScopeOp::Pop => law_pop_keeps(sc),
        ScopeOp::Var(n, c) => law_var_insert_keeps(sc, n, c),
        ScopeOp::Class(n, p) => law_class_insert_keeps(sc, n, p),
    }
}

/// Numbers rise strictly over any history of operations: the counter never
/// goes down, and each `Var` or `Class` hands out a number above every number
/// handed out before it and above the counter it started from (which is at
/// least every number the scope records), so no number is handed out twice.
/// Every operation keeps the scope consistent.
pub proof fn law_history_numbers(sc: SpecScope, ops: Seq<ScopeOp>)
    requires
        sc.consistent(),
    ensures
        run_ops(sc, ops) matches Some((ns, sc2)) ==> {
            &&& ns.len() == ops.len()
            &&& sc2.consistent()
            &&& sc.count <= sc2.count
            &&& forall|k: int| 0 <= k < ns.len() ==> sc.count <= #[trigger] ns[k] <= sc2.count
            &&& forall|k: int| 0 <= k < ns.len() && is_insert(#[trigger] ops[k]) ==> ns[k] > sc.count
            &&& forall|k: int, l: int|
                0 <= k < l < ns.len() ==> #[trigger] ns[k] <= #[trigger] ns[l] && (is_insert(ops[l])
                    ==> ns[k] < ns[l])
        },
    decreases ops.len(),
{
    if ops.len() > 0 {
        law_history_numbers(sc, ops.drop_last());
        match run_ops(sc, ops.drop_last()) {
            Some((ns1, sc1)) => {
                if step_op(sc1, ops.last()) is Some {
                    lemma_step_op_keeps(sc1, ops.last());
                    let sc2 = step_op(sc1, ops.last()).unwrap();
                    let ns = ns1.push(sc2.count);
                    assert forall|k: int| 0 <= k < ns.len() implies sc.count <= #[trigger] ns[k]
                        <= sc2.count by {
                        if k < ns1.len() {
                            assert(ns[k] == ns1[k]);
                        }
                    }
                    assert forall|k: int| 0 <= k < ns.len() && is_insert(#[trigger] ops[k]) implies ns[k]
                        > sc.count by {
                        if k < ns1.len() {
                            assert(ns[k] == ns1[k]);
                            assert(ops[k] == ops.drop_last()[k]);
                        }
                    }
                    assert forall|k: int, l: int| 0 <= k < l < ns.len() implies #[trigger] ns[k]
                        <= #[trigger] ns[l] && (is_insert(ops[l]) ==> ns[k] < ns[l]) by {
                        assert(ns[k] == ns1[k]);
                        if l < ns1.len() {
                            assert(ns[l] == ns1[l]);
                            assert(ops[l] == ops.drop_last()[l]);
                        }
                    }
                }
            },
            None => {},
        }
    }
}

/// Only `Class` changes the classes: over any history of operations, the
/// classes by name and by path are those the scope started with, plus one
/// entry for each `Class` operation, under the number it handed out. From a
/// new scope, a name stands for a class exactly when it is one of the
/// reserved names or was declared by `Class`.
pub proof fn law_history_classes(sc: SpecScope, ops: Seq<ScopeOp>)
    ensures
        run_ops(sc, ops) matches Some((ns, sc2)) ==> {
            &&& sc2.classes == add_classes(sc.classes, ops, ns)
            &&& sc2.paths == add_paths(sc.paths, ops, ns)
        },
    decreases ops.len(),
{
    if ops.len() > 0 {
        law_history_classes(sc, ops.drop_last());
        match run_ops(sc, ops.drop_last()) {
            Some((ns1, sc1)) => {
                if step_op(sc1, ops.last()) is Some {
                    let sc2 = step_op(sc1, ops.last()).unwrap();
                    let ns = ns1.push(sc2.count);
                    assert(ns.drop_last() =~= ns1);
                }
            },
            None => {},
        }
    }
}

/// The classes recorded for the variables handed out by `ops` are the ones
/// they were declared with, wherever they are still recorded.
proof fn lemma_history_records(sc: SpecScope, ops: Seq<ScopeOp>)
    requires
        sc.consistent(),
    ensures
        run_ops(sc, ops) matches Some((ns, sc2)) ==> forall|k: int, i: int|
            0 <= k < ops.len() && 0 <= i < sc2.subs.len() && #[trigger] ops[k] is Var
                && #[trigger] sc2.subs[i].var_classes.contains_key(VarId::at(ns[k]))
                ==> sc2.subs[i].var_classes[VarId::at(ns[k])] == ops[k]->Var_1,
    decreases ops.len(),
{
    if ops.len() > 0 {
        lemma_history_records(sc, ops.drop_last());
        law_history_numbers(sc, ops.drop_last());
        match run_ops(sc, ops.drop_last()) {
            Some((ns1, sc1)) => {
                if step_op(sc1, ops.last()) is Some {
                    lemma_step_op_keeps(sc1, ops.last());
                    let sc2 = step_op(sc1, ops.last()).unwrap();
                    let ns = ns1.push(sc2.count);
                    let len1 = sc1.subs.len();
                    assert forall|k: int, i: int|
                        0 <= k < ops.len() && 0 <= i < sc2.subs.len() && #[trigger] ops[k] is Var
                            && #[trigger] sc2.subs[i].var_classes.contains_key(VarId::at(ns[k]))
                        implies sc2.subs[i].var_classes[VarId::at(ns[k])] == ops[k]->Var_1 by {
                        if k < ops.len() - 1 {
                            assert(ns[k] == ns1[k]);
                            assert(ops[k] == ops.drop_last()[k]);
                            assert(ns1[k] <= sc1.count);
                            match ops.last() {
                                ScopeOp::Push => {
                                    if i < len1 {
                                        assert(sc2.subs[i] == sc1.subs[i]);
                                    }
                                },
                                ScopeOp::Pop => {
                                    assert(sc2.subs[i] == sc1.subs[i]);
                                },
                                ScopeOp::Class(_, _) => {},
                                ScopeOp::Var(_, _) => {
                                    assert(VarId::at(ns1[k]).index() == ns1[k]);
                                    assert(VarId::at(sc1.count + 1).index() == sc1.count + 1);
                                    if i < len1 - 1 {
                                        assert(sc2.subs[i] == sc1.subs[i]);
                                    } else {
                                        assert(sc1.subs[len1 - 1].var_classes.contains_key(
                                            VarId::at(ns1[k]),
                                        ));
                                    }
                                },
                            }
                        } else {
                            let id = VarId::at(sc1.count + 1);
                            assert(ns[k] == sc1.count + 1);
                            if i < len1 - 1 {
                                assert(sc2.subs[i] == sc1.subs[i]);
                                assert(id.index() == sc1.count + 1);
                                assert(sc1.subs[i].var_classes.contains_key(id));
                            }
                        }
                    }
                }
            },
            None => {},
        }
    }
}

/// A visible variable has a class: where a name stands for a variable, the
/// variable's class is the one recorded in the sub-scope `i` (returned) that
/// records it.
pub proof fn law_visible_var_has_class(subs: Seq<SpecSubScope>, name: Seq<char>) -> (i: int)
    requires
        subs_consistent(subs),
        lookup_var(subs, name) is Some,
    ensures
        0 <= i < subs.len(),
        subs[i].var_classes.contains_key(lookup_var(subs, name).unwrap()),
        lookup_var_class(subs, lookup_var(subs, name).unwrap()) == Some(
            subs[i].var_classes[lookup_var(subs, name).unwrap()],
        ),
    decreases subs.len(),
{
    let n = subs.len() - 1;
    let front = subs.drop_last();
    let v = lookup_var(subs, name).unwrap();
    if subs.last().vars.contains_key(name) {
        assert(subs[n].vars.contains_key(name));
        n
    } else {
        assert(subs_consistent(front)) by {
            assert forall|i: int, m: Seq<char>|
                0 <= i < front.len() && #[trigger] front[i].vars.contains_key(m)
                implies front[i].var_classes.contains_key(front[i].vars[m]) by {
                assert(front[i] == subs[i]);
                assert(subs[i].vars.contains_key(m));
            }
            assert forall|i: int, j: int, w: VarId|
                0 <= i < front.len() && 0 <= j < front.len() && i != j
                    && #[trigger] front[i].var_classes.contains_key(w)
                implies !#[trigger] front[j].var_classes.contains_key(w) by {
                assert(front[i] == subs[i]);
                assert(front[j] == subs[j]);
            }
        }
        let i = law_visible_var_has_class(front, name);
        assert(front[i] == subs[i]);
        assert(subs[i].var_classes.contains_key(v));
        assert(!subs[n].var_classes.contains_key(v));
        i
    }
}

/// A visible variable keeps the class it was declared with: after any
/// history of operations on a consistent scope, if the `k`-th operation
/// declared a variable of class `c`, and a name now stands for that variable,
/// then the variable's class is `c`.
pub proof fn law_history_visible_class(sc: SpecScope, ops: Seq<ScopeOp>, k: int, name: Seq<char>)
    requires
        sc.consistent(),
    ensures
        run_ops(sc, ops) matches Some((ns, sc2)) ==> (0 <= k < ops.len() && ops[k] is Var
            && sc2.get_var(name) == Some(VarId::at(ns[k])) ==> sc2.type_var(VarId::at(ns[k]))
            == Some(ops[k]->Var_1)),
{
    lemma_history_records(sc, ops);
    law_history_numbers(sc, ops);
    match run_ops(sc, ops) {
        Some((ns, sc2)) => {
            if 0 <= k < ops.len() && ops[k] is Var && sc2.get_var(name) == Some(VarId::at(ns[k])) {
                let i = law_visible_var_has_class(sc2.subs, name);
                assert(ops[k] is Var);
                assert(sc2.subs[i].var_classes.contains_key(VarId::at(ns[k])));
            }
        },
        None => {},
    }
}

/// Declares the variables `names[i]` of classes `classes[i]` in order.
/// Returns the variables and the scope; `None` where one declaration is
/// refused.
pub open spec fn declare_all(sc: SpecScope, names: Seq<Seq<char>>, classes: Seq<ClassId>) -> Option<
    (Seq<VarId>, SpecScope),
>
    decreases names.len(),
{
    if names.len() == 0 {
        Some((Seq::empty(), sc))
    } else {
        match declare_all(sc, names.drop_last(), classes.drop_last()) {
            Some((ids, sc1)) => match sc1.var_insert(names.last(), classes.last()) {
                Some((id, sc2)) => Some((ids.push(id), sc2)),
                None => None,
            },
            None => None,
        }
    }
}

/// The map from `ks[i]` to `vs[i]`, later entries over earlier ones.
pub open spec fn zip_map<K, V>(ks: Seq<K>, vs: Seq<V>) -> Map<K, V>
    decreases ks.len(),
{
    if ks.len() == 0 || vs.len() == 0 {
        Map::empty()
    } else {
        zip_map(ks.drop_last(), vs.drop_last()).insert(ks.last(), vs.last())
    }
}

proof fn lemma_declare_all(b: SpecScope, names: Seq<Seq<char>>, classes: Seq<ClassId>)
    requires
        b.subs.len() >= 1,
        b.subs.last() == SpecSubScope::empty(),
        classes.len() == names.len(),
    ensures
        declare_all(b, names, classes) matches Some((ids, sc)) ==> {
            &&& ids.len() == names.len()
            &&& sc.subs.len() == b.subs.len()
            &&& sc.subs.drop_last() == b.subs.drop_last()
            &&& sc.subs.last() == SpecSubScope {
                vars: zip_map(names, ids),
                var_classes: zip_map(ids, classes),
            }
            &&& sc.classes == b.classes
            &&& sc.paths == b.paths
            &&& sc.count == b.count + names.len()
        },
    decreases names.len(),
{
    if names.len() == 0 {
        assert(zip_map(names, Seq::<VarId>::empty()) =~= Map::empty());
        assert(zip_map(Seq::<VarId>::empty(), classes) =~= Map::empty());
    } else {
        lemma_declare_all(b, names.drop_last(), classes.drop_last());
        match declare_all(b, names.drop_last(), classes.drop_last()) {
            Some((ids, sc1)) => match sc1.var_insert(names.last(), classes.last()) {
                Some((id, sc2)) => {
                    let ids2 = ids.push(id);
                    assert(ids2.drop_last() =~= ids);
                    assert(sc2.subs.drop_last() =~= sc1.subs.drop_last());
                },
                None => {},
            },
            None => {},
        }
    }
}

/// What is declared in a block is forgotten when the block closes: after
/// opening a sub-scope, declaring any number of variables and closing the
/// sub-scope, the closed sub-scope holds exactly those names and variables
/// with their classes, and the scope is as it was but for its counter; every
/// name and variable stands for what it stood for before.
pub proof fn law_block_declarations_are_local(
    sc: SpecScope,
    names: Seq<Seq<char>>,
    classes: Seq<ClassId>,
    name: Seq<char>,
    v: VarId,
)
    requires
        sc.consistent(),
        classes.len() == names.len(),
    ensures
        declare_all(sc.push_subscope(), names, classes) matches Some((ids, sc1)) ==> {
            &&& sc1.pop_subscope() == Some(
                (
                    SpecSubScope { vars: zip_map(names, ids), var_classes: zip_map(ids, classes) },
                    SpecScope { count: sc.count + names.len(), ..sc },
                ),
            )
            &&& sc1.pop_subscope().unwrap().1.get_var(name) == sc.get_var(name)
            &&& sc1.pop_subscope().unwrap().1.get_class(name) == sc.get_class(name)
            &&& sc1.pop_subscope().unwrap().1.type_var(v) == sc.type_var(v)
        },
{
    let b = sc.push_subscope();
    assert(b.subs.drop_last() =~= sc.subs);
    lemma_declare_all(b, names, classes);
}

} // verus!

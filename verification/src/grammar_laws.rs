use vstd::prelude::*;

use crate::ast::{SpecBlock, SpecStatement, SpecValue};
use crate::grammar::{
    ident_at, tok_at, p_use_path, p_args, p_args_rest, p_value, tabs_at, p_constructor_stmt, p_do_stmt, p_ident_stmt, p_if_stmt, p_indent, p_inherit_stmt,
    p_line_end, p_method_def, p_params, p_call_stmt, p_statements, p_step, p_use_stmt, p_void_stmt,
    spec_parse, SpecStep,
};
use crate::ids::{group_ids, ClassId, VarId};
use crate::scope::{SpecScope, SpecSubScope};
use crate::token::SpecToken;

verus! {

broadcast use group_ids;

/// The statements that may only stand at the top level of a program.
pub open spec fn top_only(s: SpecStatement) -> bool {
    s is Method || s is Inherit || s is Use
}

/// No block nested in the statement holds a top-level-only statement.
pub open spec fn nested_ok(s: SpecStatement) -> bool
    decreases s, 0nat,
{
    match s {
        SpecStatement::Method(m) => block_ok(m.block.statements),
        SpecStatement::Loop(b, _) => block_ok(b.statements),
        SpecStatement::If(b, _) => block_ok(b.statements),
        _ => true,
    }
}

/// The statements of a nested block: none is top-level-only, and their own
/// nested blocks are alike.
pub open spec fn block_ok(ss: Seq<SpecStatement>) -> bool
    decreases ss, 0nat,
{
    forall|i: int| 0 <= i < ss.len() ==> !top_only(#[trigger] ss[i]) && nested_ok(ss[i])
}

/// The statements of a block at indentation `depth`: every one keeps its
/// nested blocks free of top-level-only statements, and below the top level
/// none is top-level-only itself.
pub open spec fn stmts_ok(ss: Seq<SpecStatement>, depth: nat) -> bool {
    if depth > 0 {
        block_ok(ss)
    } else {
        forall|i: int| 0 <= i < ss.len() ==> nested_ok(#[trigger] ss[i])
    }
}

/// What reading statements keeps of a scope: as many open sub-scopes, all
/// but the innermost one unchanged, every entry of the innermost one kept,
/// and every class it already knew, under the same name.
pub open spec fn frame(sc: SpecScope, sc2: SpecScope) -> bool {
    &&& sc2.subs.len() == sc.subs.len()
    &&& sc2.subs.drop_last() == sc.subs.drop_last()
    &&& sc.subs.len() >= 1 ==> sc.subs.last().vars.submap_of(sc2.subs.last().vars)
        && sc.subs.last().var_classes.submap_of(sc2.subs.last().var_classes)
    &&& forall|k: Seq<char>| #[trigger]
        sc.classes.contains_key(k) ==> sc2.classes.contains_key(k) && sc2.classes[k] == sc.classes[k]
}

/// The indentation at which a block at `depth` can end: 0 at the top level,
/// and less than `depth` below it.
pub open spec fn end_depth_ok(rd: nat, depth: nat) -> bool {
    if depth == 0 {
        rd == 0
    } else {
        rd < depth
    }
}

/// The variables that the statements of a block declare, in order (not
/// those of the blocks nested in them).
pub open spec fn declared_vars(ss: Seq<SpecStatement>) -> Seq<VarId>
    decreases ss.len(),
{
    if ss.len() == 0 {
        Seq::empty()
    } else {
        match ss.last() {
            SpecStatement::VariableDeclaration(x, _) => declared_vars(ss.drop_last()).push(x),
            _ => declared_vars(ss.drop_last()),
        }
    }
}

/// A sub-scope holds exactly the variables `ids`: each of them once, with a
/// class and under a name of its own, and no other.
pub open spec fn holds_exactly(sub: SpecSubScope, ids: Seq<VarId>) -> bool {
    &&& ids.no_duplicates()
    &&& sub.var_classes.dom() == ids.to_set()
    &&& sub.vars.values() == ids.to_set()
    &&& sub.vars.is_injective()
}

/// The innermost sub-scope, holding exactly the variables `pre` and those
/// that the statements `acc` declared, holds afterwards exactly `pre` and
/// those that the statements `ss` declared.
pub open spec fn grows(
    sc: SpecScope,
    acc: Seq<SpecStatement>,
    sc2: SpecScope,
    ss: Seq<SpecStatement>,
    pre: Seq<VarId>,
) -> bool {
    holds_exactly(sc.subs.last(), pre + declared_vars(acc)) ==> holds_exactly(
        sc2.subs.last(),
        pre + declared_vars(ss),
    )
}

/// Every block nested in the statement holds in its sub-scope exactly the
/// variables it declares: a method's block its parameters, then the
/// variables its statements declare; an `If` or `Do` block the variables its
/// statements declare.
pub open spec fn scopes_ok(s: SpecStatement) -> bool
    decreases s, 0nat,
{
    match s {
        SpecStatement::Method(m) => holds_exactly(
            m.block.sub_scope,
            m.args + declared_vars(m.block.statements),
        ) && all_scopes_ok(m.block.statements),
        SpecStatement::Loop(b, _) => holds_exactly(b.sub_scope, declared_vars(b.statements))
            && all_scopes_ok(b.statements),
        SpecStatement::If(b, _) => holds_exactly(b.sub_scope, declared_vars(b.statements))
            && all_scopes_ok(b.statements),
        _ => true,
    }
}

/// `scopes_ok` of each of the statements.
pub open spec fn all_scopes_ok(ss: Seq<SpecStatement>) -> bool
    decreases ss, 0nat,
{
    forall|i: int| 0 <= i < ss.len() ==> scopes_ok(#[trigger] ss[i])
}

/// A step keeps `stmts_ok`, `frame`, `grows` and `all_scopes_ok`, and ends its block only at
/// an indentation at which the block can end.
pub open spec fn step_ok(
    st: SpecStep,
    depth: nat,
    sc: SpecScope,
    acc: Seq<SpecStatement>,
    pre: Seq<VarId>,
) -> bool {
    match st {
        SpecStep::Fail => true,
        SpecStep::Return(ss, rd, _, sc2) => stmts_ok(ss, depth) && frame(sc, sc2) && end_depth_ok(
            rd,
            depth,
        ) && grows(sc, acc, sc2, ss, pre) && all_scopes_ok(ss),
        SpecStep::LineEnd(ss, _, sc2) => stmts_ok(ss, depth) && frame(sc, sc2) && grows(
            sc,
            acc,
            sc2,
            ss,
            pre,
        ) && all_scopes_ok(ss),
        SpecStep::Continue(ss, _, sc2) => stmts_ok(ss, depth) && frame(sc, sc2) && grows(
            sc,
            acc,
            sc2,
            ss,
            pre,
        ) && all_scopes_ok(ss),
    }
}

proof fn lemma_declared_push(ss: Seq<SpecStatement>, s: SpecStatement)
    ensures
        declared_vars(ss.push(s)) == (match s {
            SpecStatement::VariableDeclaration(x, _) => declared_vars(ss).push(x),
            _ => declared_vars(ss),
        }),
{
    assert(ss.push(s).drop_last() =~= ss);
}

/// Declaring a variable in the innermost sub-scope adds it to what that
/// sub-scope holds.
proof fn lemma_var_insert_holds(sc: SpecScope, name: Seq<char>, class: ClassId, ids: Seq<VarId>)
    requires
        sc.subs.len() >= 1,
        holds_exactly(sc.subs.last(), ids),
        sc.var_insert(name, class) is Some,
    ensures
        holds_exactly(sc.var_insert(name, class).unwrap().1.subs.last(), ids.push(sc.var_insert(name, class).unwrap().0)),
        sc.var_insert(name, class).unwrap().1.subs.drop_last() == sc.subs.drop_last(),
        sc.var_insert(name, class).unwrap().1.subs.len() == sc.subs.len(),
{
    let (x, sc1) = sc.var_insert(name, class).unwrap();
    let l = sc.subs.last();
    let l1 = sc1.subs.last();
    let ids1 = ids.push(x);
    assert(sc1.subs.drop_last() =~= sc.subs.drop_last());
    assert(!ids.to_set().contains(x));
    assert(!ids.contains(x));
    assert forall|i: int, j: int| 0 <= i < ids1.len() && 0 <= j < ids1.len() && i != j implies ids1[i]
        != ids1[j] by {
        if i == ids.len() {
            assert(ids.contains(ids1[j]));
        } else if j == ids.len() {
            assert(ids.contains(ids1[i]));
        }
    }
    assert forall|y: VarId| ids1.contains(y) <==> ids.contains(y) || y == x by {
        if ids1.contains(y) {
            let k = choose|k: int| 0 <= k < ids1.len() && ids1[k] == y;
            if k < ids.len() {
                assert(ids[k] == y);
            }
        }
        if ids.contains(y) {
            let k = choose|k: int| 0 <= k < ids.len() && ids[k] == y;
            assert(ids1[k] == y);
        }
        if y == x {
            assert(ids1[ids.len() as int] == y);
        }
    }
    assert(l1.var_classes.dom() =~= ids1.to_set());
    assert forall|v: VarId| l1.vars.contains_value(v) <==> ids1.to_set().contains(v) by {
        if l1.vars.contains_value(v) {
            let k = choose|k: Seq<char>| l1.vars.dom().contains(k) && l1.vars[k] == v;
            if k != name {
                assert(l.vars.contains_value(v));
                assert(l.vars.values().contains(v));
            }
        }
        if ids1.to_set().contains(v) {
            if v == x {
                assert(l1.vars.dom().contains(name) && l1.vars[name] == v);
            } else {
                assert(l.vars.values().contains(v));
                let k = choose|k: Seq<char>| l.vars.dom().contains(k) && l.vars[k] == v;
                assert(l1.vars.dom().contains(k) && l1.vars[k] == v);
            }
        }
    }
    assert(l1.vars.values() =~= ids1.to_set());
    assert forall|a: Seq<char>, b: Seq<char>|
        a != b && l1.vars.dom().contains(a) && l1.vars.dom().contains(b) implies #[trigger] l1.vars[a]
        != #[trigger] l1.vars[b] by {
        if a == name {
            assert(l.vars.contains_value(l.vars[b]));
            assert(l.vars.values().contains(l.vars[b]));
        } else if b == name {
            assert(l.vars.contains_value(l.vars[a]));
            assert(l.vars.values().contains(l.vars[a]));
        }
    }
}

/// Declaring a variable keeps `frame`.
proof fn lemma_var_insert_frame(sc: SpecScope, name: Seq<char>, class: ClassId)
    requires
        sc.var_insert(name, class) is Some,
    ensures
        frame(sc, sc.var_insert(name, class).unwrap().1),
{
    let sc1 = sc.var_insert(name, class).unwrap().1;
    assert(sc1.subs.drop_last() =~= sc.subs.drop_last());
}

/// `frame` is transitive.
proof fn lemma_frame_trans(a: SpecScope, b: SpecScope, c: SpecScope)
    requires
        frame(a, b),
        frame(b, c),
    ensures
        frame(a, c),
{
    if a.subs.len() >= 1 {
        let (la, lb, lc) = (a.subs.last(), b.subs.last(), c.subs.last());
        assert(b.subs.len() >= 1);
        assert(la.vars.submap_of(lb.vars) && la.var_classes.submap_of(lb.var_classes));
        assert(lb.vars.submap_of(lc.vars) && lb.var_classes.submap_of(lc.var_classes));
        assert forall|k: Seq<char>| #[trigger] la.vars.dom().contains(k) implies lc.vars.dom().contains(
            k,
        ) && la.vars[k] == lc.vars[k] by {
            assert(lb.vars.dom().contains(k));
            assert(la.vars[k] == lb.vars[k]);
            assert(lc.vars.dom().contains(k));
            assert(lb.vars[k] == lc.vars[k]);
        }
        assert forall|k: VarId| #[trigger] la.var_classes.dom().contains(k) implies lc.var_classes.dom().contains(
            k,
        ) && la.var_classes[k] == lc.var_classes[k] by {
            assert(lb.var_classes.dom().contains(k));
            assert(la.var_classes[k] == lb.var_classes[k]);
        }
    }
    assert forall|k: Seq<char>| #[trigger] a.classes.contains_key(k) implies c.classes.contains_key(k)
        && c.classes[k] == a.classes[k] by {
        assert(b.classes.contains_key(k));
    }
}

proof fn lemma_stmts_ok_push(ss: Seq<SpecStatement>, depth: nat, s: SpecStatement)
    requires
        stmts_ok(ss, depth),
        nested_ok(s),
        depth > 0 ==> !top_only(s),
        all_scopes_ok(ss),
        scopes_ok(s),
    ensures
        stmts_ok(ss.push(s), depth),
        all_scopes_ok(ss.push(s)),
{
    let next = ss.push(s);
    assert forall|i: int| 0 <= i < next.len() implies scopes_ok(#[trigger] next[i]) by {
        if i < ss.len() {
            assert(next[i] == ss[i]);
        }
    }
    assert forall|i: int| 0 <= i < next.len() implies nested_ok(#[trigger] next[i]) && (depth > 0
        ==> !top_only(next[i])) by {
        if i < ss.len() {
            assert(next[i] == ss[i]);
        }
    }
}

/// The sub-scope of nothing holds nothing.
proof fn lemma_holds_empty()
    ensures
        holds_exactly(SpecSubScope::empty(), Seq::empty()),
        declared_vars(Seq::empty()) == Seq::<VarId>::empty(),
{
    assert(declared_vars(Seq::empty()) =~= Seq::<VarId>::empty());
    assert(Seq::<VarId>::empty().to_set() =~= Set::empty());
    assert(SpecSubScope::empty().vars.values() =~= Set::empty());
    assert(SpecSubScope::empty().var_classes.dom() =~= Set::empty());
}

proof fn lemma_params(t: Seq<SpecToken>, pos: int, sc: SpecScope, acc: Seq<VarId>)
    ensures
        p_params(t, pos, sc, acc) matches Some((args, _, sc2)) ==> frame(sc, sc2) && (holds_exactly(
            sc.subs.last(),
            acc,
        ) ==> holds_exactly(sc2.subs.last(), args)),
    decreases t.len() - pos,
{
    if 0 <= pos < t.len() && t[pos] != SpecToken::NewLine {
        match (ident_at(t, pos), ident_at(t, pos + 1)) {
            (Some(class_name), Some(arg)) => match sc.get_class(class_name) {
                Some(c) => match sc.var_insert(arg, c) {
                    Some((x, sc1)) => {
                        lemma_var_insert_frame(sc, arg, c);
                        if holds_exactly(sc.subs.last(), acc) {
                            lemma_var_insert_holds(sc, arg, c, acc);
                        }
                        lemma_params(t, pos + 2, sc1, acc.push(x));
                        if p_params(t, pos + 2, sc1, acc.push(x)) is Some {
                            lemma_frame_trans(sc, sc1, p_params(t, pos + 2, sc1, acc.push(x)).unwrap().2);
                        }
                    },
                    None => {},
                },
                None => {},
            },
            _ => {},
        }
    }
}

proof fn lemma_statements(t: Seq<SpecToken>, pos: int, depth: nat, sc: SpecScope, acc: Seq<SpecStatement>, pre: Seq<VarId>)
    requires
        stmts_ok(acc, depth),
        all_scopes_ok(acc),
    ensures
        p_statements(t, pos, depth, sc, acc) matches Some((ss, rd, _, sc2)) ==> stmts_ok(ss, depth)
            && frame(sc, sc2) && end_depth_ok(rd, depth) && grows(sc, acc, sc2, ss, pre) && all_scopes_ok(ss),
    decreases t.len() - pos, 3int,
{
    if 0 <= pos < t.len() {
        lemma_step(t, pos, depth, sc, acc, pre);
        match p_step(t, pos, depth, sc, acc) {
            SpecStep::LineEnd(acc2, p, sc2) => if pos <= p <= t.len() {
                lemma_line_end(t, p, depth, sc2, acc2, pre);
                if p_line_end(t, p, depth, sc2, acc2) is Some {
                    lemma_frame_trans(sc, sc2, p_line_end(t, p, depth, sc2, acc2).unwrap().3);
                }
            },
            SpecStep::Continue(acc2, p, sc2) => if pos < p <= t.len() {
                lemma_statements(t, p, depth, sc2, acc2, pre);
                if p_statements(t, p, depth, sc2, acc2) is Some {
                    lemma_frame_trans(sc, sc2, p_statements(t, p, depth, sc2, acc2).unwrap().3);
                }
            },
            _ => {},
        }
    }
}

proof fn lemma_line_end(t: Seq<SpecToken>, p: int, depth: nat, sc: SpecScope, acc: Seq<SpecStatement>, pre: Seq<VarId>)
    requires
        stmts_ok(acc, depth),
        all_scopes_ok(acc),
    ensures
        p_line_end(t, p, depth, sc, acc) matches Some((ss, rd, _, sc2)) ==> stmts_ok(ss, depth)
            && frame(sc, sc2) && end_depth_ok(rd, depth) && grows(sc, acc, sc2, ss, pre) && all_scopes_ok(ss),
    decreases t.len() - p, 2int,
{
    if 0 <= p < t.len() && t[p] == SpecToken::NewLine {
        lemma_indent(t, p + 1, depth, 0, sc, acc, pre);
    }
}

proof fn lemma_indent(
    t: Seq<SpecToken>,
    p: int,
    depth: nat,
    i: nat,
    sc: SpecScope,
    acc: Seq<SpecStatement>,
    pre: Seq<VarId>,
)
    requires
        stmts_ok(acc, depth),
        all_scopes_ok(acc),
    ensures
        p_indent(t, p, depth, i, sc, acc) matches Some((ss, rd, _, sc2)) ==> stmts_ok(ss, depth)
            && frame(sc, sc2) && end_depth_ok(rd, depth) && grows(sc, acc, sc2, ss, pre) && all_scopes_ok(ss),
    decreases t.len() - p, 4int,
{
    if 0 <= p <= t.len() {
        if i >= depth {
            lemma_statements(t, p, depth, sc, acc, pre);
        } else if p < t.len() && t[p] == SpecToken::Tab {
            lemma_indent(t, p + 1, depth, i + 1, sc, acc, pre);
        }
    }
}

proof fn lemma_step(t: Seq<SpecToken>, pos: int, depth: nat, sc: SpecScope, acc: Seq<SpecStatement>, pre: Seq<VarId>)
    requires
        stmts_ok(acc, depth),
        all_scopes_ok(acc),
    ensures
        step_ok(p_step(t, pos, depth, sc, acc), depth, sc, acc, pre),
    decreases t.len() - pos, 2int,
{
    if 0 <= pos < t.len() {
        match t[pos] {
            SpecToken::Use => {
                match p_use_stmt(t, pos, depth, sc, acc) {
                    SpecStep::LineEnd(acc2, _, _) => {
                        lemma_stmts_ok_push(acc, depth, acc2.last());
                        assert(acc2 == acc.push(acc2.last()));
                lemma_declared_push(acc, acc2.last());
                    },
                    _ => {},
                }
            },
            SpecToken::Inherit => {
                match p_inherit_stmt(t, pos, depth, sc, acc) {
                    SpecStep::LineEnd(acc2, _, _) => {
                        lemma_stmts_ok_push(acc, depth, acc2.last());
                        assert(acc2 == acc.push(acc2.last()));
                lemma_declared_push(acc, acc2.last());
                    },
                    _ => {},
                }
            },
            SpecToken::Method => lemma_constructor(t, pos, depth, sc, acc, pre),
            SpecToken::Do => lemma_do(t, pos, depth, sc, acc, pre),
            SpecToken::If => lemma_if(t, pos, depth, sc, acc, pre),
            SpecToken::LParens => {
                match p_call_stmt(t, pos, sc, acc) {
                    SpecStep::LineEnd(acc2, _, _) => {
                        lemma_stmts_ok_push(acc, depth, acc2.last());
                        assert(acc2 == acc.push(acc2.last()));
                lemma_declared_push(acc, acc2.last());
                    },
                    _ => {},
                }
            },
            SpecToken::Void => lemma_void(t, pos, depth, sc, acc, pre),
            SpecToken::Ident(name) => lemma_ident(t, pos, depth, sc, acc, name, pre),
            _ => {},
        }
    }
}

proof fn lemma_method_def(t: Seq<SpecToken>, pos: int, sc: SpecScope)
    ensures
        p_method_def(t, pos, sc) matches Some((args, block, _, sc2)) ==> block_ok(block.statements)
            && frame(sc, sc2) && sc2.subs == sc.subs && holds_exactly(
            block.sub_scope,
            args + declared_vars(block.statements),
        ) && all_scopes_ok(block.statements),
    decreases t.len() - pos, 0int,
{
    if p_method_def(t, pos, sc) is Some {
        let sc0 = sc.push_subscope();
        lemma_params(t, pos + 1, sc0, Seq::empty());
        crate::grammar::lemma_p_params_bounds(t, pos + 1, sc0, Seq::empty());
        let (args, p, sc1) = p_params(t, pos + 1, sc0, Seq::empty()).unwrap();
        lemma_holds_empty();
        assert(args + Seq::<VarId>::empty() =~= args);
        lemma_statements(t, p + 2, 1, sc1, Seq::empty(), args);
        assert(sc0.subs.drop_last() =~= sc.subs);
    }
}

proof fn lemma_constructor(t: Seq<SpecToken>, pos: int, depth: nat, sc: SpecScope, acc: Seq<SpecStatement>, pre: Seq<VarId>)
    requires
        stmts_ok(acc, depth),
        all_scopes_ok(acc),
    ensures
        step_ok(p_constructor_stmt(t, pos, depth, sc, acc), depth, sc, acc, pre),
    decreases t.len() - pos, 1int,
{
    if depth == 0 && 0 <= pos < t.len() {
        lemma_method_def(t, pos + 1, sc);
        match p_constructor_stmt(t, pos, depth, sc, acc) {
            SpecStep::LineEnd(acc2, _, _) => {
                lemma_stmts_ok_push(acc, depth, acc2.last());
                assert(acc2 == acc.push(acc2.last()));
                lemma_declared_push(acc, acc2.last());
            },
            _ => {},
        }
    }
}

proof fn lemma_void(t: Seq<SpecToken>, pos: int, depth: nat, sc: SpecScope, acc: Seq<SpecStatement>, pre: Seq<VarId>)
    requires
        stmts_ok(acc, depth),
        all_scopes_ok(acc),
    ensures
        step_ok(p_void_stmt(t, pos, depth, sc, acc), depth, sc, acc, pre),
    decreases t.len() - pos, 1int,
{
    if depth == 0 && 0 <= pos {
        if pos + 2 < t.len() {
            lemma_method_def(t, pos + 2, sc);
        }
        match p_void_stmt(t, pos, depth, sc, acc) {
            SpecStep::LineEnd(acc2, _, _) => {
                if acc2.len() > acc.len() {
                    lemma_stmts_ok_push(acc, depth, acc2.last());
                    assert(acc2 == acc.push(acc2.last()));
                    lemma_declared_push(acc, acc2.last());
                }
            },
            _ => {},
        }
    }
}

proof fn lemma_ident(
    t: Seq<SpecToken>,
    pos: int,
    depth: nat,
    sc: SpecScope,
    acc: Seq<SpecStatement>,
    name: Seq<char>,
    pre: Seq<VarId>,
)
    requires
        stmts_ok(acc, depth),
        all_scopes_ok(acc),
    ensures
        step_ok(p_ident_stmt(t, pos, depth, sc, acc, name), depth, sc, acc, pre),
    decreases t.len() - pos, 1int,
{
    if 0 <= pos {
        if depth == 0 && pos + 2 < t.len() {
            lemma_method_def(t, pos + 2, sc);
        }
        match tok_at(t, pos + 1) {
            Some(SpecToken::Ident(name2)) => match sc.get_class(name) {
                Some(c) => if sc.var_insert(name2, c) is Some {
                    lemma_var_insert_frame(sc, name2, c);
                    let x = sc.var_insert(name2, c).unwrap().0;
                    assert((pre + declared_vars(acc)).push(x) =~= pre + declared_vars(acc).push(x));
                    if holds_exactly(sc.subs.last(), pre + declared_vars(acc)) {
                        lemma_var_insert_holds(sc, name2, c, pre + declared_vars(acc));
                    }
                },
                None => {},
            },
            _ => {},
        }
        match p_ident_stmt(t, pos, depth, sc, acc, name) {
            SpecStep::LineEnd(acc2, _, _) => {
                lemma_stmts_ok_push(acc, depth, acc2.last());
                assert(acc2 == acc.push(acc2.last()));
                lemma_declared_push(acc, acc2.last());
            },
            _ => {},
        }
    }
}

proof fn lemma_do(t: Seq<SpecToken>, pos: int, depth: nat, sc: SpecScope, acc: Seq<SpecStatement>, pre: Seq<VarId>)
    requires
        stmts_ok(acc, depth),
        all_scopes_ok(acc),
    ensures
        step_ok(p_do_stmt(t, pos, depth, sc, acc), depth, sc, acc, pre),
    decreases t.len() - pos, 1int,
{
    if p_do_stmt(t, pos, depth, sc, acc) !is Fail {
        lemma_holds_empty();
        lemma_statements(t, pos + 3 + depth, depth + 1, sc.push_subscope(), Seq::empty(), Seq::empty());
        let (body, _, _, _) = p_statements(
            t,
            pos + 3 + depth,
            depth + 1,
            sc.push_subscope(),
            Seq::empty(),
        ).unwrap();
        assert(Seq::<VarId>::empty() + Seq::<VarId>::empty() =~= Seq::<VarId>::empty());
        assert(Seq::<VarId>::empty() + declared_vars(body) =~= declared_vars(body));
        let acc2 = p_do_stmt(t, pos, depth, sc, acc)->LineEnd_0;
        lemma_stmts_ok_push(acc, depth, acc2.last());
        assert(acc2 == acc.push(acc2.last()));
        lemma_declared_push(acc, acc2.last());
        assert(sc.push_subscope().subs.drop_last() =~= sc.subs);
    }
}

proof fn lemma_if(t: Seq<SpecToken>, pos: int, depth: nat, sc: SpecScope, acc: Seq<SpecStatement>, pre: Seq<VarId>)
    requires
        stmts_ok(acc, depth),
        all_scopes_ok(acc),
    ensures
        step_ok(p_if_stmt(t, pos, depth, sc, acc), depth, sc, acc, pre),
    decreases t.len() - pos, 1int,
{
    if p_if_stmt(t, pos, depth, sc, acc) !is Fail {
        let (v, p) = crate::grammar::p_value(t, pos + 1, sc).unwrap();
        lemma_holds_empty();
        lemma_statements(t, p + 2 + depth, depth + 1, sc.push_subscope(), Seq::empty(), Seq::empty());
        let (body, rd, q, sc1) = p_statements(
            t,
            p + 2 + depth,
            depth + 1,
            sc.push_subscope(),
            Seq::empty(),
        ).unwrap();
        assert(Seq::<VarId>::empty() + Seq::<VarId>::empty() =~= Seq::<VarId>::empty());
        assert(Seq::<VarId>::empty() + declared_vars(body) =~= declared_vars(body));
        let (sub, sc2) = sc1.pop_subscope().unwrap();
        let acc2 = acc.push(
            SpecStatement::If(crate::ast::SpecBlock { sub_scope: sub, statements: body }, v),
        );
        lemma_stmts_ok_push(acc, depth, acc2.last());
        lemma_declared_push(acc, acc2.last());
        assert(sc.push_subscope().subs.drop_last() =~= sc.subs);
    }
}

} // verus!

verus! {

/// A block read at indentation `depth` ends at depth 0 at the top level and
/// at a shallower depth below it (so a method body, read at depth 1, always
/// ends at depth 0); it leaves as many sub-scopes open as it found and
/// forgets no class; and below the top level it holds no `Method`,
/// `Inherit` or `Use` statement.
pub proof fn law_block_end(t: Seq<SpecToken>, pos: int, depth: nat, sc: SpecScope)
    ensures
        p_statements(t, pos, depth, sc, Seq::empty()) matches Some((ss, rd, _, sc2)) ==> {
            &&& end_depth_ok(rd, depth)
            &&& frame(sc, sc2)
            &&& stmts_ok(ss, depth)
        },
{
    lemma_statements(t, pos, depth, sc, Seq::empty(), Seq::empty());
}

/// What the parser promises of a program it accepts:
/// - no block nested in it holds a `Method`, `Inherit` or `Use` statement;
/// - the reserved classes `This`, `NumberLiteral` and `StringLiteral` keep
///   their numbers 0, 1 and 2;
/// and it rejects no program for its final checks: it accepts exactly the
/// tokens whose statements can be read from the start at depth 0 (the block
/// then ends at depth 0 and leaves one sub-scope open).
pub proof fn law_parse_result(t: Seq<SpecToken>)
    ensures
        spec_parse(t) is Some <==> p_statements(t, 0, 0, SpecScope::initial(), Seq::empty()) is Some,
        spec_parse(t) matches Some(b) ==> {
            &&& forall|i: int| 0 <= i < b.statements.len() ==> nested_ok(#[trigger] b.statements[i])
            &&& b.classes.contains_key("This"@) && b.classes["This"@] == ClassId::at(0)
            &&& b.classes.contains_key("NumberLiteral"@) && b.classes["NumberLiteral"@] == ClassId::at(1)
            &&& b.classes.contains_key("StringLiteral"@) && b.classes["StringLiteral"@] == ClassId::at(2)
        },
{
    let sc0 = SpecScope::initial();
    lemma_statements(t, 0, 0, sc0, Seq::empty(), Seq::empty());
    assert(sc0.classes.contains_key("This"@));
    assert(sc0.classes.contains_key("NumberLiteral"@));
    assert(sc0.classes.contains_key("StringLiteral"@));
    reveal_strlit("This");
    reveal_strlit("StringLiteral");
    reveal_strlit("NumberLiteral");
    assert("StringLiteral"@.len() != "This"@.len());
    assert("NumberLiteral"@.len() != "This"@.len());
    assert("NumberLiteral"@[0] != "StringLiteral"@[0]);
}

/// The sub-scope of a program that the parser accepts holds exactly the
/// variables that its top-level statements declare: each of them once, with a
/// class and under a name of its own, and no other (the parameters of its
/// methods and the variables of its nested blocks are not in it). Likewise
/// the sub-scope of each nested block holds exactly what that block
/// declares: for a method, its parameters, then the variables its statements
/// declare.
pub proof fn law_parse_top_scope(t: Seq<SpecToken>)
    ensures
        spec_parse(t) matches Some(b) ==> {
            &&& holds_exactly(b.subscope, declared_vars(b.statements))
            &&& all_scopes_ok(b.statements)
        },
{
    let sc0 = SpecScope::initial();
    let none = Seq::<SpecStatement>::empty();
    let empty = Seq::<VarId>::empty();
    lemma_holds_empty();
    assert(empty + empty =~= empty);
    lemma_statements(t, 0, 0, sc0, none, empty);
    match p_statements(t, 0, 0, sc0, none) {
        Some((ss, _, _, _)) => {
            assert(empty + declared_vars(ss) =~= declared_vars(ss));
        },
        None => {},
    }
}


/// The names carried by the tokens from position `pos` up to `q` (not
/// included), all of them names.
pub open spec fn names_between(t: Seq<SpecToken>, pos: int, q: int) -> Seq<Seq<char>> {
    Seq::new((q - pos) as nat, |k: int| t[pos + k]->Ident_0)
}

proof fn lemma_use_path(t: Seq<SpecToken>, pos: int, acc: Seq<Seq<char>>)
    ensures
        p_use_path(t, pos, acc) matches Some((path, p)) ==> {
            &&& 0 <= pos < p <= t.len()
            &&& t[p - 1] == SpecToken::As
            &&& forall|k: int| pos <= k < p - 1 ==> #[trigger] t[k] is Ident
            &&& path == acc + names_between(t, pos, p - 1)
        },
    decreases t.len() - pos,
{
    if 0 <= pos < t.len() {
        match t[pos] {
            SpecToken::Ident(x) => {
                lemma_use_path(t, pos + 1, acc.push(x));
                match p_use_path(t, pos + 1, acc.push(x)) {
                    Some((path, p)) => {
                        assert(acc.push(x) + names_between(t, pos + 1, p - 1) =~= acc
                            + names_between(t, pos, p - 1));
                    },
                    None => {},
                }
            },
            SpecToken::As => {
                assert(acc + names_between(t, pos, pos) =~= acc);
            },
            _ => {},
        }
    }
}

/// The path of a `Use` is exactly the names between `Use` and `As`, in order:
/// whatever `p_use_path` accepts is a run of names closed by `As`, and it
/// returns those names; and every run of names closed by `As` is accepted.
pub proof fn law_use_path(t: Seq<SpecToken>, pos: int, q: int)
    ensures
        p_use_path(t, pos, Seq::empty()) matches Some((path, p)) ==> {
            &&& 0 <= pos < p <= t.len()
            &&& t[p - 1] == SpecToken::As
            &&& forall|k: int| pos <= k < p - 1 ==> #[trigger] t[k] is Ident
            &&& path == names_between(t, pos, p - 1)
        },
        0 <= pos <= q < t.len() && t[q] == SpecToken::As && (forall|k: int|
            pos <= k < q ==> #[trigger] t[k] is Ident) ==> p_use_path(t, pos, Seq::empty()) == Some(
            (names_between(t, pos, q), q + 1),
        ),
{
    lemma_use_path(t, pos, Seq::empty());
    assert(Seq::<Seq<char>>::empty() + names_between(t, pos, q) =~= names_between(t, pos, q));
    if 0 <= pos <= q < t.len() && t[q] == SpecToken::As && (forall|k: int|
        pos <= k < q ==> #[trigger] t[k] is Ident) {
        lemma_use_path_run(t, pos, q, Seq::empty());
    }
    match p_use_path(t, pos, Seq::empty()) {
        Some((path, p)) => {
            assert(Seq::<Seq<char>>::empty() + names_between(t, pos, p - 1) =~= names_between(
                t,
                pos,
                p - 1,
            ));
        },
        None => {},
    }
}

proof fn lemma_use_path_run(t: Seq<SpecToken>, pos: int, q: int, acc: Seq<Seq<char>>)
    requires
        0 <= pos <= q < t.len(),
        t[q] == SpecToken::As,
        forall|k: int| pos <= k < q ==> #[trigger] t[k] is Ident,
    ensures
        p_use_path(t, pos, acc) == Some((acc + names_between(t, pos, q), q + 1)),
    decreases q - pos,
{
    if pos == q {
        assert(acc + names_between(t, pos, q) =~= acc);
    } else {
        assert(t[pos] is Ident);
        let x = t[pos]->Ident_0;
        lemma_use_path_run(t, pos + 1, q, acc.push(x));
        assert(acc.push(x) + names_between(t, pos + 1, q) =~= acc + names_between(t, pos, q));
    }
}

/// An argument list read value by value: the `i`-th value `vs[i]` is read at
/// position `ps[i]` and ends at `ps[i + 1]`, none of these positions holds a
/// `)`, and the last position holds the `)` that closes the list.
pub open spec fn arg_chain(t: Seq<SpecToken>, sc: SpecScope, ps: Seq<int>, vs: Seq<SpecValue>) -> bool {
    &&& ps.len() == vs.len() + 1
    &&& forall|i: int| 0 <= i < ps.len() ==> 0 <= #[trigger] ps[i] < t.len()
    &&& forall|i: int|
        0 <= i < vs.len() ==> ps[i] < ps[i + 1] && t[ps[i]] != SpecToken::RParens && p_value(
            t,
            #[trigger] ps[i],
            sc,
        ) == Some((vs[i], ps[i + 1]))
    &&& t[ps.last()] == SpecToken::RParens
}

proof fn lemma_args_rest_chain(
    t: Seq<SpecToken>,
    sc: SpecScope,
    ps: Seq<int>,
    vs: Seq<SpecValue>,
    k: int,
)
    requires
        arg_chain(t, sc, ps, vs),
        0 <= k <= vs.len(),
    ensures
        p_args_rest(t, ps[k], sc, vs.take(k)) == Some((vs, ps.last() + 1)),
    decreases vs.len() - k,
{
    assert(0 <= ps[k] < t.len());
    if k == vs.len() {
        assert(vs.take(k) =~= vs);
    } else {
        assert(ps[k] < ps[k + 1]);
        assert(0 <= ps[k + 1] < t.len());
        lemma_args_rest_chain(t, sc, ps, vs, k + 1);
        assert(vs.take(k).push(vs[k]) =~= vs.take(k + 1));
    }
}

#[verifier::rlimit(40)]
proof fn lemma_args_rest_found(t: Seq<SpecToken>, pos: int, sc: SpecScope, acc: Seq<SpecValue>) -> (ps:
    Seq<int>)
    requires
        p_args_rest(t, pos, sc, acc) is Some,
    ensures
        ({
            let (vs, p) = p_args_rest(t, pos, sc, acc).unwrap();
            &&& acc.len() <= vs.len()
            &&& vs.take(acc.len() as int) == acc
            &&& arg_chain(t, sc, ps, vs.skip(acc.len() as int))
            &&& ps[0] == pos
            &&& p == ps.last() + 1
        }),
    decreases t.len() - pos,
{
    let (vs, p) = p_args_rest(t, pos, sc, acc).unwrap();
    if t[pos] == SpecToken::RParens {
        let ps = seq![pos];
        assert(vs.take(acc.len() as int) =~= acc);
        assert(vs.skip(acc.len() as int) =~= Seq::<SpecValue>::empty());
        ps
    } else {
        let (v, p1) = p_value(t, pos, sc).unwrap();
        let ps1 = lemma_args_rest_found(t, p1, sc, acc.push(v));
        let ps = seq![pos] + ps1;
        let ws = vs.skip(acc.len() as int);
        let ws1 = vs.skip(acc.len() as int + 1);
        assert(vs.take(acc.len() as int) =~= vs.take(acc.len() as int + 1).take(acc.len() as int));
        assert(vs.take(acc.len() as int) =~= acc);
        assert(ws =~= seq![v] + ws1) by {
            assert(vs[acc.len() as int] == acc.push(v)[acc.len() as int]);
        }
        assert forall|i: int| 0 <= i < ps.len() implies 0 <= #[trigger] ps[i] < t.len() by {
            if i > 0 {
                assert(ps[i] == ps1[i - 1]);
            }
        }
        assert forall|i: int| 0 <= i < ws.len() implies ps[i] < ps[i + 1] && t[ps[i]]
            != SpecToken::RParens && p_value(t, #[trigger] ps[i], sc) == Some((ws[i], ps[i + 1])) by {
            if i > 0 {
                assert(ps[i] == ps1[i - 1]);
                assert(ps[i + 1] == ps1[i]);
                assert(ws[i] == ws1[i - 1]);
            }
        }
        assert(ps.last() == ps1.last());
        ps
    }
}

/// An argument list `( v1 .. vn )` gives exactly its `n` values, in order:
/// whatever `p_args` returns was read value by value between the parentheses,
/// one value per position of a chain (so a value is neither dropped nor
/// repeated); and every such chain after a `(` is read to those values.
pub proof fn law_args(t: Seq<SpecToken>, pos: int, sc: SpecScope, ps: Seq<int>, vs: Seq<SpecValue>)
    ensures
        p_args(t, pos, sc) matches Some((ws, p)) ==> exists|qs: Seq<int>|
            #![trigger arg_chain(t, sc, qs, ws)]
            arg_chain(t, sc, qs, ws) && qs[0] == pos + 1 && p == qs.last() + 1,
        tok_at(t, pos) == Some(SpecToken::LParens) && arg_chain(t, sc, ps, vs) && ps[0] == pos + 1
            ==> p_args(t, pos, sc) == Some((vs, ps.last() + 1)),
{
    if tok_at(t, pos) == Some(SpecToken::LParens) && arg_chain(t, sc, ps, vs) && ps[0] == pos + 1 {
        lemma_args_rest_chain(t, sc, ps, vs, 0);
        assert(vs.take(0) =~= Seq::<SpecValue>::empty());
    }
    if p_args(t, pos, sc) is Some {
        let qs = lemma_args_rest_found(t, pos + 1, sc, Seq::empty());
        let (ws, p) = p_args(t, pos, sc).unwrap();
        assert(ws.skip(0) =~= ws);
        assert(arg_chain(t, sc, qs, ws));
    }
}

/// The parameter `x` read at position `p`: the token there names a class `C`
/// known to `sc`, the next one names the parameter, and the sub-scope `sub`
/// maps that name to `x` and records `x` with class `C`.
pub open spec fn param_ok(t: Seq<SpecToken>, p: int, sc: SpecScope, sub: SpecSubScope, x: VarId) -> bool {
    &&& ident_at(t, p) is Some
    &&& ident_at(t, p + 1) is Some
    &&& sc.get_class(ident_at(t, p).unwrap()) is Some
    &&& sub.vars.contains_key(ident_at(t, p + 1).unwrap())
    &&& sub.vars[ident_at(t, p + 1).unwrap()] == x
    &&& sub.var_classes.contains_key(x)
    &&& sub.var_classes[x] == sc.get_class(ident_at(t, p).unwrap()).unwrap()
}

proof fn lemma_params_classes(t: Seq<SpecToken>, pos: int, sc: SpecScope, acc: Seq<VarId>)
    ensures
        p_params(t, pos, sc, acc) matches Some((args, p, sc2)) ==> {
            &&& acc.len() <= args.len()
            &&& args.take(acc.len() as int) == acc
            &&& p == pos + 2 * (args.len() - acc.len())
            &&& tok_at(t, p) == Some(SpecToken::NewLine)
            &&& sc2.classes == sc.classes
            &&& forall|i: int|
                acc.len() <= i < args.len() ==> param_ok(
                    t,
                    pos + 2 * (i - acc.len()),
                    sc,
                    sc2.subs.last(),
                    #[trigger] args[i],
                )
        },
    decreases t.len() - pos,
{
    if 0 <= pos < t.len() && t[pos] != SpecToken::NewLine {
        match (ident_at(t, pos), ident_at(t, pos + 1)) {
            (Some(class_name), Some(arg)) => match sc.get_class(class_name) {
                Some(c) => match sc.var_insert(arg, c) {
                    Some((x, sc1)) => {
                        lemma_params_classes(t, pos + 2, sc1, acc.push(x));
                        lemma_params(t, pos + 2, sc1, acc.push(x));
                        match p_params(t, pos + 2, sc1, acc.push(x)) {
                            Some((args, p, sc2)) => {
                                let k = acc.len() as int;
                                assert(args.take(k) =~= args.take(k + 1).take(k));
                                assert(args[k] == acc.push(x)[k]);
                                assert(sc1.subs.len() >= 1);
                                assert(sc1.subs.last().vars.contains_key(arg));
                                assert(sc1.subs.last().var_classes.contains_key(x));
                                assert forall|i: int| k <= i < args.len() implies param_ok(
                                    t,
                                    pos + 2 * (i - k),
                                    sc,
                                    sc2.subs.last(),
                                    #[trigger] args[i],
                                ) by {
                                    if i > k {
                                        assert(param_ok(t, pos + 2 + 2 * (i - (k + 1)), sc1, sc2.subs.last(), args[i]));
                                        assert(pos + 2 + 2 * (i - (k + 1)) == pos + 2 * (i - k));
                                    } else {
                                        assert(sc1.subs.last().vars.submap_of(sc2.subs.last().vars));
                                        assert(sc1.subs.last().var_classes.submap_of(sc2.subs.last().var_classes));
                                        assert(sc2.subs.last().vars.contains_key(arg));
                                        assert(sc2.subs.last().var_classes.contains_key(x));
                                    }
                                }
                            },
                            None => {},
                        }
                    },
                    None => {},
                },
                None => {},
            },
            _ => {},
        }
    } else if 0 <= pos < t.len() {
        assert(acc.take(acc.len() as int) =~= acc);
    }
}

/// Each parameter of a method has the class named just before it: for a
/// definition `Method C1 x1 .. Cn xn` the `i`-th parameter is the variable
/// that the method's sub-scope maps `xi` to, recorded there with the class
/// that `Ci` names; the parameters run up to the newline that ends them.
pub proof fn law_method_params(t: Seq<SpecToken>, pos: int, sc: SpecScope)
    ensures
        p_method_def(t, pos, sc) matches Some((args, block, _, _)) ==> {
            &&& tok_at(t, pos + 1 + 2 * args.len()) == Some(SpecToken::NewLine)
            &&& forall|i: int|
                0 <= i < args.len() ==> param_ok(t, pos + 1 + 2 * i, sc, block.sub_scope, #[trigger] args[i])
        },
{
    if p_method_def(t, pos, sc) is Some {
        let sc0 = sc.push_subscope();
        lemma_params_classes(t, pos + 1, sc0, Seq::empty());
        lemma_params(t, pos + 1, sc0, Seq::empty());
        crate::grammar::lemma_p_params_bounds(t, pos + 1, sc0, Seq::empty());
        let (args, p, sc1) = p_params(t, pos + 1, sc0, Seq::empty()).unwrap();
        lemma_holds_empty();
        lemma_statements(t, p + 2, 1, sc1, Seq::empty(), args);
        let (body, rd, q, sc2) = p_statements(t, p + 2, 1, sc1, Seq::empty()).unwrap();
        let (args2, block, _, _) = p_method_def(t, pos, sc).unwrap();
        assert(args2 == args);
        assert(block.sub_scope == sc2.subs.last());
        assert(sc1.subs.len() >= 1);
        assert forall|i: int| 0 <= i < args.len() implies param_ok(
            t,
            pos + 1 + 2 * i,
            sc,
            block.sub_scope,
            #[trigger] args[i],
        ) by {
            assert(param_ok(t, pos + 1 + 2 * (i - 0), sc0, sc1.subs.last(), args[i]));
            assert(sc1.subs.last().vars.submap_of(sc2.subs.last().vars));
            assert(sc1.subs.last().var_classes.submap_of(sc2.subs.last().var_classes));
            let an = ident_at(t, pos + 2 + 2 * i).unwrap();
            assert(sc2.subs.last().vars.contains_key(an));
            assert(sc2.subs.last().var_classes.contains_key(args[i]));
        }
    }
}

/// The condition of a `Do .. Until` loop is read with the loop's own
/// sub-scope still open: when the body (read one level deeper, in a new
/// sub-scope) ends at the loop's depth on `Until name`, and the body declared
/// `name` at its top, the loop is accepted and its condition is that very
/// variable of the body.
pub proof fn law_do_condition_sees_body(
    t: Seq<SpecToken>,
    pos: int,
    depth: nat,
    sc: SpecScope,
    acc: Seq<SpecStatement>,
    body: Seq<SpecStatement>,
    p: int,
    sc1: SpecScope,
    name: Seq<char>,
)
    requires
        0 <= pos,
        sc.subs.len() >= 1,
        tok_at(t, pos + 1) == Some(SpecToken::NewLine),
        tabs_at(t, pos + 2, depth + 1),
        p_statements(t, pos + 3 + depth, depth + 1, sc.push_subscope(), Seq::empty()) == Some(
            (body, depth, p, sc1),
        ),
        tok_at(t, p) == Some(SpecToken::Until),
        tok_at(t, p + 1) == Some(SpecToken::Ident(name)),
        sc1.subs.last().vars.contains_key(name),
        tok_at(t, p + 2) is Some,
        tok_at(t, p + 2) != Some(SpecToken::Dot),
    ensures
        p_do_stmt(t, pos, depth, sc, acc) == SpecStep::LineEnd(
            acc.push(
                SpecStatement::Loop(
                    SpecBlock { sub_scope: sc1.subs.last(), statements: body },
                    SpecValue::Variable(sc1.subs.last().vars[name]),
                ),
            ),
            p + 2,
            SpecScope { subs: sc1.subs.drop_last(), ..sc1 },
        ),
{
    lemma_statements(t, pos + 3 + depth, depth + 1, sc.push_subscope(), Seq::empty(), Seq::empty());
    assert(sc1.subs.len() > 1);
    assert(sc1.get_var(name) == Some(sc1.subs.last().vars[name]));
    assert(p_value(t, p + 1, sc1) == Some((SpecValue::Variable(sc1.subs.last().vars[name]), p + 2)));
}

} // verus!

use vstd::prelude::*;

use crate::ast::{
    block_wf, statement_wf, statements_wf, view_statements, view_values, Block, Method, MethodCall, SpecStatement, SpecValue, Statement,
    TopLevelBlock, Use, Value, ValueType,
};
use crate::grammar::{
    ident_at, p_args, p_args_rest, p_operand, p_call_stmt, p_constructor_stmt, p_do_stmt, p_ident_stmt,
    p_if_stmt, p_indent, p_inherit_stmt, p_line_end, p_method_def, p_params, p_statements, p_step,
    p_use_path, p_use_stmt, p_value, p_void_stmt, spec_parse, tabs_at, tok_at, SpecStep,
};
use crate::ids::{group_ids, ClassId, VarId};
use crate::text::copy_path;
use crate::scope::{Scope, SpecScope, SubScope};
use crate::token::{view_tokens, SpecToken, Token};

verus! {

broadcast use vstd::string::group_string_axioms, group_ids;

/// A token without text.
spec fn is_plain(t: SpecToken) -> bool {
    !(t is String || t is Number || t is Ident)
}

/// Whether the token at `p` is the plain token `want`.
fn is_at(toks: &[Token], p: usize, want: &Token) -> (b: bool)
    requires
        is_plain(want@),
    ensures
        b == (tok_at(view_tokens(toks@), p as int) == Some(want@)),
{
    if p >= toks.len() {
        return false;
    }
    match (&toks[p], want) {
        (Token::LParens, Token::LParens) => true,
        (Token::RParens, Token::RParens) => true,
        (Token::Dot, Token::Dot) => true,
        (Token::Method, Token::Method) => true,
        (Token::Return, Token::Return) => true,
        (Token::Move, Token::Move) => true,
        (Token::Void, Token::Void) => true,
        (Token::Inherit, Token::Inherit) => true,
        (Token::Use, Token::Use) => true,
        (Token::As, Token::As) => true,
        (Token::Do, Token::Do) => true,
        (Token::Until, Token::Until) => true,
        (Token::If, Token::If) => true,
        (Token::Tab, Token::Tab) => true,
        (Token::NewLine, Token::NewLine) => true,
        _ => false,
    }
}

/// The name carried by the token at `p`, if it is a name.
fn ident_at_exec(toks: &[Token], p: usize) -> (r: Option<&String>)
    ensures
        match ident_at(view_tokens(toks@), p as int) {
            Some(s) => r matches Some(x) && x@ == s,
            None => r is None,
        },
{
    if p >= toks.len() {
        return None;
    }
    match &toks[p] {
        Token::Ident(s) => Some(s),
        _ => None,
    }
}

/// Whether the `depth + 1` tokens from `p` are all tabs.
fn tabs_at_exec(toks: &[Token], p: usize, depth: usize) -> (b: bool)
    ensures
        b == tabs_at(view_tokens(toks@), p as int, (depth + 1) as nat),
{
    let ghost t = view_tokens(toks@);
    assert(t.len() == toks@.len());
    let mut k: usize = 0;
    while k <= depth
        invariant
            t == view_tokens(toks@),
            t.len() == toks@.len(),
            k <= depth + 1,
            forall|j: int| 0 <= j < k ==> p + j < t.len() && #[trigger] t[p + j] == SpecToken::Tab,
        decreases depth + 1 - k,
    {
        if p >= toks.len() || k >= toks.len() - p {
            return false;
        }
        if !is_at(toks, p + k, &Token::Tab) {
            assert(t[p + k] != SpecToken::Tab);
            return false;
        }
        k = k + 1;
    }
    assert(t[p + depth] == SpecToken::Tab);
    true
}

proof fn lemma_view_values_push(vs: Seq<Value>, v: Value)
    ensures
        view_values(vs.push(v)) == view_values(vs).push(v@),
{
    assert(vs.push(v).drop_last() =~= vs);
}

proof fn lemma_view_statements_push(ss: Seq<Statement>, s: Statement)
    ensures
        view_statements(ss.push(s)) == view_statements(ss).push(s@),
        statements_wf(ss) && statement_wf(s) ==> statements_wf(ss.push(s)),
{
    assert(ss.push(s).drop_last() =~= ss);
    if statements_wf(ss) && statement_wf(s) {
        assert forall|i: int| 0 <= i < ss.push(s).len() implies statement_wf(#[trigger] ss.push(s)[i]) by {
            if i < ss.len() {
                assert(ss.push(s)[i] == ss[i]);
            }
        }
    }
}

/// Reads the operand of a value at `pos`.
fn parse_operand(toks: &[Token], pos: usize, scope: &Scope) -> (r: Option<(Value, usize)>)
    requires
        scope.wf(),
        pos <= toks@.len(),
    ensures
        match p_operand(view_tokens(toks@), pos as int, scope.view()) {
            Some((v, p)) => r matches Some((x, q)) && x@ == v && q == p,
            None => r is None,
        },
        r matches Some((_, q)) ==> pos < q <= toks@.len(),
    decreases toks@.len() - pos, 0nat,
{
    let ghost t = view_tokens(toks@);
    assert(t.len() == toks@.len());
    if pos >= toks.len() {
        return None;
    }
    assert(t[pos as int] == toks@[pos as int]@);
    match &toks[pos] {
        Token::Ident(name) => match scope.get_var(name.as_str()) {
            Some(x) => Some((Value(ValueType::Variable(x)), pos + 1)),
            None => match scope.get_class(name.as_str()) {
                Some(c) => match parse_args(toks, pos + 1, scope) {
                    Some((args, p)) => Some((Value(ValueType::Constructor(c, args)), p)),
                    None => None,
                },
                None => None,
            },
        },
        Token::LParens => match parse_value(toks, pos + 1, scope) {
            Some((v, p)) => if is_at(toks, p, &Token::RParens) {
                Some((v, p + 1))
            } else {
                None
            },
            None => None,
        },
        Token::String(s) => Some((Value(ValueType::StringLiteral(s.clone())), pos + 1)),
        Token::Number(s) => Some((Value(ValueType::NumberLiteral(s.clone())), pos + 1)),
        _ => None,
    }
}

/// Reads a value that starts at `pos`.
fn parse_value(toks: &[Token], pos: usize, scope: &Scope) -> (r: Option<(Value, usize)>)
    requires
        scope.wf(),
        pos <= toks@.len(),
    ensures
        match p_value(view_tokens(toks@), pos as int, scope.view()) {
            Some((v, p)) => r matches Some((x, q)) && x@ == v && q == p,
            None => r is None,
        },
        r matches Some((_, q)) ==> pos < q <= toks@.len(),
    decreases toks@.len() - pos, 1nat,
{
    let ghost t = view_tokens(toks@);
    assert(t.len() == toks@.len());
    match parse_operand(toks, pos, scope) {
        Some((v, p)) => {
            if p >= toks.len() {
                return None;
            }
            if is_at(toks, p, &Token::Dot) {
                match ident_at_exec(toks, p + 1) {
                    Some(method_name) => match parse_args(toks, p + 2, scope) {
                        Some((args, q)) => {
                            let call = MethodCall {
                                args,
                                method_name: method_name.clone(),
                                target: Box::new(v),
                            };
                            assert(call@.target == Box::new(v@));
                            Some((Value(ValueType::Method(call)), q))
                        },
                        None => None,
                    },
                    None => None,
                }
            } else {
                Some((v, p))
            }
        },
        None => None,
    }
}

/// Reads the arguments `(..)` that start at `pos`.
fn parse_args(toks: &[Token], pos: usize, scope: &Scope) -> (r: Option<(Vec<Value>, usize)>)
    requires
        scope.wf(),
        pos <= toks@.len(),
    ensures
        match p_args(view_tokens(toks@), pos as int, scope.view()) {
            Some((vs, p)) => r matches Some((xs, q)) && view_values(xs@) == vs && q == p,
            None => r is None,
        },
        r matches Some((_, q)) ==> pos < q <= toks@.len(),
    decreases toks@.len() - pos, 2nat,
{
    let ghost t = view_tokens(toks@);
    assert(t.len() == toks@.len());
    let n = toks.len();
    if !is_at(toks, pos, &Token::LParens) {
        return None;
    }
    assert(tok_at(t, pos as int) == Some(SpecToken::LParens));
    assert(pos < t.len());
    let mut values: Vec<Value> = Vec::new();
    let mut p = pos + 1;
    assert(view_values(values@) =~= Seq::<SpecValue>::empty());
    loop
        invariant
            scope.wf(),
            t == view_tokens(toks@),
            pos < p <= toks@.len(),
            p_args(t, pos as int, scope.view()) == p_args_rest(
                t,
                p as int,
                scope.view(),
                view_values(values@),
            ),
        decreases toks@.len() - p,
    {
        if p >= toks.len() {
            return None;
        }
        if is_at(toks, p, &Token::RParens) {
            return Some((values, p + 1));
        }
        match parse_value(toks, p, scope) {
            Some((v, q)) => {
                proof {
                    lemma_view_values_push(values@, v);
                }
                values.push(v);
                p = q;
            },
            None => {
                return None;
            },
        }
    }
}

/// What reading one statement leaves to do (see `SpecStep`).
enum Step {
    Fail,
    Return(Vec<Statement>, usize, usize),
    LineEnd(Vec<Statement>, usize),
    Continue(Vec<Statement>, usize),
}

/// An exec step stands for a spec step, with the scope it leaves.
spec fn step_agrees(st: Step, sp: SpecStep, sc: SpecScope) -> bool {
    match sp {
        SpecStep::Fail => st is Fail,
        SpecStep::Return(ss, rd, p, sc2) => st matches Step::Return(v, d, q) && view_statements(v@)
            == ss && d == rd && q == p && sc == sc2,
        SpecStep::LineEnd(ss, p, sc2) => st matches Step::LineEnd(v, q) && view_statements(v@) == ss
            && q == p && sc == sc2,
        SpecStep::Continue(ss, p, sc2) => st matches Step::Continue(v, q) && view_statements(v@) == ss
            && q == p && sc == sc2,
    }
}

/// The statements a step returns keep their tables' invariants.
spec fn step_wf(st: Step) -> bool {
    match st {
        Step::Fail => true,
        Step::Return(v, _, _) => statements_wf(v@),
        Step::LineEnd(v, _) => statements_wf(v@),
        Step::Continue(v, _) => statements_wf(v@),
    }
}

/// Where a step leaves the reading position, relative to where it started.
spec fn step_bounds(st: Step, pos: int, len: int) -> bool {
    match st {
        Step::Fail => true,
        Step::Return(_, _, q) => pos < q <= len,
        Step::LineEnd(_, q) => pos <= q <= len,
        Step::Continue(_, q) => pos < q <= len,
    }
}

/// Reads the path of a `Use`, from `pos` up to and including its `As`.
fn parse_use_path(toks: &[Token], pos: usize) -> (r: Option<(Vec<String>, usize)>)
    requires
        pos <= toks@.len(),
    ensures
        match p_use_path(view_tokens(toks@), pos as int, Seq::empty()) {
            Some((path, p)) => r matches Some((x, q)) && x.deep_view() == path && q == p,
            None => r is None,
        },
        r matches Some((_, q)) ==> pos < q <= toks@.len(),
{
    let ghost t = view_tokens(toks@);
    assert(t.len() == toks@.len());
    let mut path: Vec<String> = Vec::new();
    let mut p = pos;
    assert(path.deep_view() =~= Seq::<Seq<char>>::empty());
    loop
        invariant
            t == view_tokens(toks@),
            t.len() == toks@.len(),
            pos <= p <= toks@.len(),
            p_use_path(t, pos as int, Seq::empty()) == p_use_path(t, p as int, path.deep_view()),
        decreases toks@.len() - p,
    {
        if p >= toks.len() {
            return None;
        }
        assert(t[p as int] == toks@[p as int]@);
        match &toks[p] {
            Token::Ident(x) => {
                let ghost before = path.deep_view();
                path.push(x.clone());
                assert(path.deep_view() =~= before.push(x@));
                p = p + 1;
            },
            Token::As => {
                return Some((path, p + 1));
            },
            _ => {
                return None;
            },
        }
    }
}

/// Reads a `Use` statement at `pos`.
fn parse_use_stmt(
    toks: &[Token],
    pos: usize,
    depth: usize,
    scope: &mut Scope,
    acc: Vec<Statement>,
) -> (st: Step)
    requires
        old(scope).wf(),
        statements_wf(acc@),
        pos < toks@.len(),
    ensures
        final(scope).wf(),
        step_agrees(
            st,
            p_use_stmt(
                view_tokens(toks@),
                pos as int,
                depth as nat,
                old(scope).view(),
                view_statements(acc@),
            ),
            final(scope).view(),
        ),
        step_bounds(st, pos as int, toks@.len() as int),
        step_wf(st),
{
    let ghost t = view_tokens(toks@);
    let n = toks.len();
    assert(t.len() == n);
    if depth != 0 {
        return Step::Fail;
    }
    match parse_use_path(toks, pos + 1) {
        Some((path, p)) => match ident_at_exec(toks, p) {
            Some(name) => match scope.try_class_insert(name.clone(), copy_path(&path)) {
                Some(c) => {
                    let stmt = Statement::Use(Use { path, name: c });
                    let mut acc = acc;
                    proof {
                        lemma_view_statements_push(acc@, stmt);
                    }
                    acc.push(stmt);
                    Step::LineEnd(acc, p + 1)
                },
                None => Step::Fail,
            },
            None => Step::Fail,
        },
        None => Step::Fail,
    }
}

/// Reads an `Inherit` statement at `pos`.
fn parse_inherit_stmt(
    toks: &[Token],
    pos: usize,
    depth: usize,
    scope: &mut Scope,
    acc: Vec<Statement>,
) -> (st: Step)
    requires
        old(scope).wf(),
        statements_wf(acc@),
        pos < toks@.len(),
    ensures
        final(scope).wf(),
        step_agrees(
            st,
            p_inherit_stmt(
                view_tokens(toks@),
                pos as int,
                depth as nat,
                old(scope).view(),
                view_statements(acc@),
            ),
            final(scope).view(),
        ),
        step_bounds(st, pos as int, toks@.len() as int),
        step_wf(st),
{
    let ghost t = view_tokens(toks@);
    let n = toks.len();
    assert(t.len() == n);
    if depth != 0 {
        return Step::Fail;
    }
    match ident_at_exec(toks, pos + 1) {
        Some(name) => match scope.get_class(name.as_str()) {
            Some(c) => {
                let stmt = Statement::Inherit(c);
                let mut acc = acc;
                proof {
                    lemma_view_statements_push(acc@, stmt);
                }
                acc.push(stmt);
                Step::LineEnd(acc, pos + 2)
            },
            None => Step::Fail,
        },
        None => Step::Fail,
    }
}

/// Reads a line that starts with `(`: a method call.
fn parse_call_stmt(toks: &[Token], pos: usize, scope: &mut Scope, acc: Vec<Statement>) -> (st: Step)
    requires
        old(scope).wf(),
        statements_wf(acc@),
        pos < toks@.len(),
    ensures
        final(scope).wf(),
        final(scope).view() == old(scope).view(),
        step_agrees(
            st,
            p_call_stmt(view_tokens(toks@), pos as int, old(scope).view(), view_statements(acc@)),
            final(scope).view(),
        ),
        step_bounds(st, pos as int, toks@.len() as int),
        step_wf(st),
{
    match parse_value(toks, pos, scope) {
        Some((v, p)) => match v.0 {
            ValueType::Method(call) => {
                let stmt = Statement::MethodCall(call);
                let mut acc = acc;
                proof {
                    lemma_view_statements_push(acc@, stmt);
                }
                acc.push(stmt);
                Step::LineEnd(acc, p)
            },
            _ => Step::Fail,
        },
        None => Step::Fail,
    }
}

/// Reads a method definition at its `Method` token, at `pos`: parameters,
/// then a newline, a tab, and the body at depth 1 in a sub-scope of its own.
fn parse_method_definition(toks: &[Token], pos: usize, scope: &mut Scope) -> (r: Option<
    (Vec<VarId>, Block, usize),
>)
    requires
        old(scope).wf(),
        pos <= toks@.len(),
    ensures
        final(scope).wf(),
        match p_method_def(view_tokens(toks@), pos as int, old(scope).view()) {
            Some((args, b, p, sc)) => r matches Some((xs, blk, q)) && xs@ == args && blk@ == b && q
                == p && final(scope).view() == sc,
            None => r is None,
        },
        r matches Some((_, _, q)) ==> pos < q <= toks@.len(),
        r matches Some((_, blk, _)) ==> block_wf(blk),
    decreases toks@.len() - pos, 3nat,
{
    let ghost t = view_tokens(toks@);
    let n = toks.len();
    assert(t.len() == n);
    if !is_at(toks, pos, &Token::Method) {
        return None;
    }
    scope.push_subscope();
    let ghost sc1 = scope.view();
    let mut args: Vec<VarId> = Vec::new();
    let mut p = pos + 1;
    loop
        invariant
            scope.wf(),
            sc1 == old(scope).view().push_subscope(),
            tok_at(t, pos as int) == Some(SpecToken::Method),
            t == view_tokens(toks@),
            t.len() == n,
            pos < p <= n,
            p_params(t, pos + 1, sc1, Seq::empty()) == p_params(t, p as int, scope.view(), args@),
        ensures
            scope.wf(),
            pos < p < n,
            p_params(t, pos + 1, sc1, Seq::empty()) == Some((args@, p as int, scope.view())),
        decreases n - p,
    {
        if p >= n {
            return None;
        }
        if is_at(toks, p, &Token::NewLine) {
            break;
        }
        match (ident_at_exec(toks, p), ident_at_exec(toks, p + 1)) {
            (Some(class_name), Some(arg)) => match scope.get_class(class_name.as_str()) {
                Some(c) => match scope.try_var_insert(arg.clone(), c) {
                    Some(x) => {
                        args.push(x);
                        p = p + 2;
                    },
                    None => {
                        return None;
                    },
                },
                None => {
                    return None;
                },
            },
            _ => {
                return None;
            },
        }
    }
    if !is_at(toks, p + 1, &Token::Tab) {
        return None;
    }
    match parse_statements(toks, p + 2, 1, scope) {
        Some((body, rd, q)) => {
            if rd != 0 || scope.num_subscopes() <= 1 {
                return None;
            }
            let sub = scope.pop_subscope();
            Some((args, Block { sub_scope: sub, statements: body }, q))
        },
        None => None,
    }
}

/// Reads a constructor, `Method Method ..`, at `pos`.
fn parse_constructor_stmt(
    toks: &[Token],
    pos: usize,
    depth: usize,
    scope: &mut Scope,
    acc: Vec<Statement>,
) -> (st: Step)
    requires
        old(scope).wf(),
        statements_wf(acc@),
        pos < toks@.len(),
    ensures
        final(scope).wf(),
        step_agrees(
            st,
            p_constructor_stmt(
                view_tokens(toks@),
                pos as int,
                depth as nat,
                old(scope).view(),
                view_statements(acc@),
            ),
            final(scope).view(),
        ),
        step_bounds(st, pos as int, toks@.len() as int),
        step_wf(st),
    decreases toks@.len() - pos, 0nat,
{
    let ghost t = view_tokens(toks@);
    let n = toks.len();
    assert(t.len() == n);
    if depth != 0 {
        return Step::Fail;
    }
    match parse_method_definition(toks, pos + 1, scope) {
        Some((args, block, p)) => {
            proof {
                reveal_strlit("Constructor");
            }
            let stmt = Statement::Method(
                Method { args, ret: Some(ClassId::this()), block, name: String::from_str("Constructor") },
            );
            let mut acc = acc;
            proof {
                lemma_view_statements_push(acc@, stmt);
            }
            acc.push(stmt);
            Step::LineEnd(acc, p)
        },
        None => Step::Fail,
    }
}

/// Reads a `Do .. Until value` loop at `pos`.
fn parse_do_stmt(
    toks: &[Token],
    pos: usize,
    depth: usize,
    scope: &mut Scope,
    acc: Vec<Statement>,
) -> (st: Step)
    requires
        old(scope).wf(),
        statements_wf(acc@),
        pos < toks@.len(),
    ensures
        final(scope).wf(),
        step_agrees(
            st,
            p_do_stmt(
                view_tokens(toks@),
                pos as int,
                depth as nat,
                old(scope).view(),
                view_statements(acc@),
            ),
            final(scope).view(),
        ),
        step_bounds(st, pos as int, toks@.len() as int),
        step_wf(st),
    decreases toks@.len() - pos, 0nat,
{
    let ghost t = view_tokens(toks@);
    let n = toks.len();
    assert(t.len() == n);
    if !is_at(toks, pos + 1, &Token::NewLine) {
        return Step::Fail;
    }
    if !tabs_at_exec(toks, pos + 2, depth) {
        return Step::Fail;
    }
    scope.push_subscope();
    match parse_statements(toks, pos + 3 + depth, depth + 1, scope) {
        Some((body, rd, p)) => {
            if rd != depth || !is_at(toks, p, &Token::Until) {
                return Step::Fail;
            }
            match parse_value(toks, p + 1, scope) {
                Some((v, q)) => {
                    if scope.num_subscopes() <= 1 {
                        return Step::Fail;
                    }
                    let sub = scope.pop_subscope();
                    let stmt = Statement::Loop(Block { sub_scope: sub, statements: body }, v);
                    let mut acc = acc;
                    proof {
                        lemma_view_statements_push(acc@, stmt);
                    }
                    acc.push(stmt);
                    Step::LineEnd(acc, q)
                },
                None => Step::Fail,
            }
        },
        None => Step::Fail,
    }
}

/// Reads an `If value` block at `pos`.
fn parse_if_stmt(
    toks: &[Token],
    pos: usize,
    depth: usize,
    scope: &mut Scope,
    acc: Vec<Statement>,
) -> (st: Step)
    requires
        old(scope).wf(),
        statements_wf(acc@),
        pos < toks@.len(),
    ensures
        final(scope).wf(),
        step_agrees(
            st,
            p_if_stmt(
                view_tokens(toks@),
                pos as int,
                depth as nat,
                old(scope).view(),
                view_statements(acc@),
            ),
            final(scope).view(),
        ),
        step_bounds(st, pos as int, toks@.len() as int),
        step_wf(st),
    decreases toks@.len() - pos, 0nat,
{
    let ghost t = view_tokens(toks@);
    let n = toks.len();
    assert(t.len() == n);
    match parse_value(toks, pos + 1, scope) {
        Some((v, p)) => {
            if !is_at(toks, p, &Token::NewLine) || !tabs_at_exec(toks, p + 1, depth) {
                return Step::Fail;
            }
            scope.push_subscope();
            match parse_statements(toks, p + 2 + depth, depth + 1, scope) {
                Some((body, rd, q)) => {
                    if scope.num_subscopes() <= 1 {
                        return Step::Fail;
                    }
                    let sub = scope.pop_subscope();
                    let stmt = Statement::If(Block { sub_scope: sub, statements: body }, v);
                    let mut acc = acc;
                    proof {
                        lemma_view_statements_push(acc@, stmt);
                    }
                    acc.push(stmt);
                    if rd != depth {
                        Step::Return(acc, rd, q)
                    } else {
                        Step::Continue(acc, q)
                    }
                },
                None => Step::Fail,
            }
        },
        None => Step::Fail,
    }
}

/// Reads a `Void name ..` line at `pos`.
fn parse_void_stmt(
    toks: &[Token],
    pos: usize,
    depth: usize,
    scope: &mut Scope,
    acc: Vec<Statement>,
) -> (st: Step)
    requires
        old(scope).wf(),
        statements_wf(acc@),
        pos < toks@.len(),
    ensures
        final(scope).wf(),
        step_agrees(
            st,
            p_void_stmt(
                view_tokens(toks@),
                pos as int,
                depth as nat,
                old(scope).view(),
                view_statements(acc@),
            ),
            final(scope).view(),
        ),
        step_bounds(st, pos as int, toks@.len() as int),
        step_wf(st),
    decreases toks@.len() - pos, 0nat,
{
    let ghost t = view_tokens(toks@);
    let n = toks.len();
    assert(t.len() == n);
    if depth != 0 {
        return Step::Fail;
    }
    match ident_at_exec(toks, pos + 1) {
        Some(name) => {
            if pos + 2 >= n {
                return Step::Fail;
            }
            if is_at(toks, pos + 2, &Token::Method) {
                match parse_method_definition(toks, pos + 2, scope) {
                    Some((args, block, p)) => {
                        let stmt = Statement::Method(
                            Method { args, ret: None, block, name: name.clone() },
                        );
                        let mut acc = acc;
                        proof {
                            lemma_view_statements_push(acc@, stmt);
                        }
                        acc.push(stmt);
                        Step::LineEnd(acc, p)
                    },
                    None => Step::Fail,
                }
            } else {
                Step::LineEnd(acc, pos + 2)
            }
        },
        None => Step::Fail,
    }
}

/// Reads a line that starts with a name, at `pos`.
fn parse_ident_stmt(
    toks: &[Token],
    pos: usize,
    depth: usize,
    scope: &mut Scope,
    acc: Vec<Statement>,
    name: &String,
) -> (st: Step)
    requires
        old(scope).wf(),
        statements_wf(acc@),
        pos < toks@.len(),
    ensures
        final(scope).wf(),
        step_agrees(
            st,
            p_ident_stmt(
                view_tokens(toks@),
                pos as int,
                depth as nat,
                old(scope).view(),
                view_statements(acc@),
                name@,
            ),
            final(scope).view(),
        ),
        step_bounds(st, pos as int, toks@.len() as int),
        step_wf(st),
    decreases toks@.len() - pos, 0nat,
{
    let ghost t = view_tokens(toks@);
    let n = toks.len();
    assert(t.len() == n);
    if pos + 1 >= n {
        return Step::Fail;
    }
    assert(t[pos + 1] == toks@[pos + 1]@);
    match &toks[pos + 1] {
        Token::Dot => match ident_at_exec(toks, pos + 2) {
            Some(method_name) => match parse_args(toks, pos + 3, scope) {
                Some((args, p)) => match scope.get_var(name.as_str()) {
                    Some(x) => {
                        let call = MethodCall {
                            args,
                            method_name: method_name.clone(),
                            target: Box::new(Value(ValueType::Variable(x))),
                        };
                        assert(call@.target == Box::new(SpecValue::Variable(x)));
                        let stmt = Statement::MethodCall(call);
                        let mut acc = acc;
                        proof {
                            lemma_view_statements_push(acc@, stmt);
                        }
                        acc.push(stmt);
                        Step::LineEnd(acc, p)
                    },
                    None => Step::Fail,
                },
                None => Step::Fail,
            },
            None => Step::Fail,
        },
        Token::Ident(name2) => {
            if pos + 2 >= n {
                return Step::Fail;
            }
            if is_at(toks, pos + 2, &Token::Method) {
                if depth != 0 {
                    return Step::Fail;
                }
                match parse_method_definition(toks, pos + 2, scope) {
                    Some((args, block, p)) => match scope.get_class(name.as_str()) {
                        Some(c) => {
                            let stmt = Statement::Method(
                                Method { args, ret: Some(c), block, name: name2.clone() },
                            );
                            let mut acc = acc;
                            proof {
                                lemma_view_statements_push(acc@, stmt);
                            }
                            acc.push(stmt);
                            Step::LineEnd(acc, p)
                        },
                        None => Step::Fail,
                    },
                    None => Step::Fail,
                }
            } else {
                match scope.get_class(name.as_str()) {
                    Some(c) => match scope.try_var_insert(name2.clone(), c) {
                        Some(x) => match parse_value(toks, pos + 2, scope) {
                            Some((v, p)) => {
                                let stmt = Statement::VariableDeclaration(x, v);
                                let mut acc = acc;
                                proof {
                                    lemma_view_statements_push(acc@, stmt);
                                }
                                acc.push(stmt);
                                Step::LineEnd(acc, p)
                            },
                            None => Step::Fail,
                        },
                        None => Step::Fail,
                    },
                    None => Step::Fail,
                }
            }
        },
        _ => Step::Fail,
    }
}

/// Reads one statement at `pos`, chosen by its first token.
fn parse_step(
    toks: &[Token],
    pos: usize,
    depth: usize,
    scope: &mut Scope,
    acc: Vec<Statement>,
) -> (st: Step)
    requires
        old(scope).wf(),
        statements_wf(acc@),
        pos < toks@.len(),
    ensures
        final(scope).wf(),
        step_agrees(
            st,
            p_step(
                view_tokens(toks@),
                pos as int,
                depth as nat,
                old(scope).view(),
                view_statements(acc@),
            ),
            final(scope).view(),
        ),
        step_bounds(st, pos as int, toks@.len() as int),
        step_wf(st),
    decreases toks@.len() - pos, 1nat,
{
    let ghost t = view_tokens(toks@);
    let n = toks.len();
    assert(t.len() == n);
    assert(t[pos as int] == toks@[pos as int]@);
    match &toks[pos] {
        Token::String(_) => Step::LineEnd(acc, pos + 1),
        Token::Use => parse_use_stmt(toks, pos, depth, scope, acc),
        Token::Inherit => parse_inherit_stmt(toks, pos, depth, scope, acc),
        Token::Method => parse_constructor_stmt(toks, pos, depth, scope, acc),
        Token::Do => parse_do_stmt(toks, pos, depth, scope, acc),
        Token::If => parse_if_stmt(toks, pos, depth, scope, acc),
        Token::LParens => parse_call_stmt(toks, pos, scope, acc),
        Token::Void => parse_void_stmt(toks, pos, depth, scope, acc),
        Token::Ident(name) => parse_ident_stmt(toks, pos, depth, scope, acc, name),
        Token::NewLine => Step::LineEnd(acc, pos),
        _ => Step::Fail,
    }
}

/// Reads the statements of a block at indentation `depth`, from `pos`, up to
/// the end of the tokens or a line indented less than `depth`. Returns the
/// statements, that line's indentation (0 at the end of the tokens), and the
/// position reached.
fn parse_statements(toks: &[Token], pos: usize, depth: usize, scope: &mut Scope) -> (r: Option<
    (Vec<Statement>, usize, usize),
>)
    requires
        old(scope).wf(),
        pos <= toks@.len(),
    ensures
        final(scope).wf(),
        match p_statements(
            view_tokens(toks@),
            pos as int,
            depth as nat,
            old(scope).view(),
            Seq::empty(),
        ) {
            Some((ss, rd, p, sc)) => r matches Some((v, d, q)) && view_statements(v@) == ss && d
                == rd && q == p && final(scope).view() == sc,
            None => r is None,
        },
        r matches Some((_, _, q)) ==> pos <= q <= toks@.len(),
        r matches Some((v, _, _)) ==> statements_wf(v@),
    decreases toks@.len() - pos, 2nat,
{
    let ghost t = view_tokens(toks@);
    let n = toks.len();
    assert(t.len() == n);
    let ghost goal = p_statements(t, pos as int, depth as nat, scope.view(), Seq::empty());
    let mut stmts: Vec<Statement> = Vec::new();
    let mut p = pos;
    assert(view_statements(stmts@) =~= Seq::<SpecStatement>::empty());
    assert(statements_wf(stmts@));
    loop
        invariant
            scope.wf(),
            goal == p_statements(view_tokens(toks@), pos as int, depth as nat, old(scope).view(), Seq::empty()),
            t == view_tokens(toks@),
            t.len() == n,
            pos <= p <= n,
            statements_wf(stmts@),
            goal == p_statements(t, p as int, depth as nat, scope.view(), view_statements(stmts@)),
        decreases n - p,
    {
        if p == n {
            return Some((stmts, 0, p));
        }
        match parse_step(toks, p, depth, scope, stmts) {
            Step::Fail => {
                return None;
            },
            Step::Return(s, rd, q) => {
                return Some((s, rd, q));
            },
            Step::Continue(s, q) => {
                stmts = s;
                p = q;
            },
            Step::LineEnd(s, q) => {
                stmts = s;
                if q == n {
                    return Some((stmts, 0, q));
                }
                if !is_at(toks, q, &Token::NewLine) {
                    return None;
                }
                let ghost line = p_line_end(t, q as int, depth as nat, scope.view(), view_statements(stmts@));
                assert(goal == line);
                let mut r = q + 1;
                let mut i: usize = 0;
                while i < depth
                    invariant
                        scope.wf(),
                        statements_wf(stmts@),
                        goal == p_statements(view_tokens(toks@), pos as int, depth as nat, old(scope).view(), Seq::empty()),
                        goal == line,
                        pos <= q,
                        t == view_tokens(toks@),
                        t.len() == n,
                        q < r <= n,
                        i <= depth,
                        line == p_indent(t, r as int, depth as nat, i as nat, scope.view(), view_statements(stmts@)),
                    decreases depth - i,
                {
                    if r == n {
                        return Some((stmts, 0, r));
                    }
                    if is_at(toks, r, &Token::Tab) {
                        r = r + 1;
                        i = i + 1;
                    } else {
                        return Some((stmts, i, r));
                    }
                }
                p = r;
            },
        }
    }
}

/// Reads a whole program, or returns `None` exactly where `parse` would not
/// accept the tokens.
pub fn try_parse(tokens: &[Token]) -> (r: Option<TopLevelBlock>)
    ensures
        match spec_parse(view_tokens(tokens@)) {
            Some(b) => r matches Some(x) && x@ == b,
            None => r is None,
        },
        r matches Some(x) ==> x.wf(),
{
    let mut scope = Scope::new();
    match parse_statements(tokens, 0, 0, &mut scope) {
        Some((statements, rd, _)) => {
            if rd != 0 {
                return None;
            }
            let (mut subs, str_to_class, path_to_class) = scope.into_parts();
            if subs.len() != 1 {
                return None;
            }
            let subscope = subs.pop().unwrap();
            Some(TopLevelBlock { statements, str_to_class, path_to_class, subscope })
        },
        None => None,
    }
}

/// Reads a whole program from its tokens: its statements, the classes that
/// it names, and the variables of its outermost block.
pub fn parse(tokens: &[Token]) -> (b: TopLevelBlock)
    requires
        spec_parse(view_tokens(tokens@)) is Some,
    ensures
        b@ == spec_parse(view_tokens(tokens@)).unwrap(),
        b.wf(),
{
    match try_parse(tokens) {
        Some(b) => b,
        None => {
            let scope = Scope::new();
            let (_, str_to_class, path_to_class) = scope.into_parts();
            let subscope = SubScope::empty();
            TopLevelBlock { statements: Vec::new(), str_to_class, path_to_class, subscope }
        },
    }
}

} // verus!

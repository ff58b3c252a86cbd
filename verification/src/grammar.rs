use vstd::prelude::*;

use crate::ast::{
    SpecBlock, SpecMethod, SpecMethodCall, SpecStatement, SpecTopLevelBlock, SpecUse, SpecValue,
};
use crate::ids::{group_ids, ClassId, VarId};
use crate::scope::SpecScope;
use crate::token::SpecToken;

verus! {

broadcast use vstd::string::group_string_axioms, group_ids;

/// The token at position `p`, if there is one.
pub open spec fn tok_at(t: Seq<SpecToken>, p: int) -> Option<SpecToken> {
    if 0 <= p < t.len() {
        Some(t[p])
    } else {
        None
    }
}

/// The name carried by the token at position `p`, if it is a name.
pub open spec fn ident_at(t: Seq<SpecToken>, p: int) -> Option<Seq<char>> {
    match tok_at(t, p) {
        Some(SpecToken::Ident(s)) => Some(s),
        _ => None,
    }
}

/// The `n` tokens from position `p` are all tabs.
pub open spec fn tabs_at(t: Seq<SpecToken>, p: int, n: nat) -> bool {
    &&& 0 <= p
    &&& p + n <= t.len()
    &&& forall|k: int| 0 <= k < n ==> #[trigger] t[p + k] == SpecToken::Tab
}

/// The parameters of a method definition, from position `pos` up to the
/// newline that ends them: pairs of a class name and a variable name, each
/// declared in the innermost sub-scope. Returns the variables, the position of
/// the newline, and the scope after the declarations.
pub open spec fn p_params(t: Seq<SpecToken>, pos: int, sc: SpecScope, acc: Seq<VarId>) -> Option<
    (Seq<VarId>, int, SpecScope),
>
    decreases t.len() - pos,
{
    if pos < 0 || pos >= t.len() {
        None
    } else if t[pos] == SpecToken::NewLine {
        Some((acc, pos, sc))
    } else {
        match (ident_at(t, pos), ident_at(t, pos + 1)) {
            (Some(class_name), Some(arg)) => match sc.get_class(class_name) {
                Some(c) => match sc.var_insert(arg, c) {
                    Some((x, sc1)) => p_params(t, pos + 2, sc1, acc.push(x)),
                    None => None,
                },
                None => None,
            },
            _ => None,
        }
    }
}

/// Reading parameters stops on a token at or after where it started.
pub proof fn lemma_p_params_bounds(t: Seq<SpecToken>, pos: int, sc: SpecScope, acc: Seq<VarId>)
    ensures
        p_params(t, pos, sc, acc) matches Some((_, p, _)) ==> pos <= p < t.len(),
    decreases t.len() - pos,
{
    if 0 <= pos < t.len() && t[pos] != SpecToken::NewLine {
        match (ident_at(t, pos), ident_at(t, pos + 1)) {
            (Some(class_name), Some(arg)) => match sc.get_class(class_name) {
                Some(c) => match sc.var_insert(arg, c) {
                    Some((x, sc1)) => lemma_p_params_bounds(t, pos + 2, sc1, acc.push(x)),
                    None => {},
                },
                None => {},
            },
            _ => {},
        }
    }
}

/// The path of a `Use`, from position `pos` up to and including the `As`
/// that ends it. Returns the path and the position after the `As`.
pub open spec fn p_use_path(t: Seq<SpecToken>, pos: int, acc: Seq<Seq<char>>) -> Option<
    (Seq<Seq<char>>, int),
>
    decreases t.len() - pos,
{
    if pos < 0 || pos >= t.len() {
        None
    } else {
        match t[pos] {
            SpecToken::Ident(x) => p_use_path(t, pos + 1, acc.push(x)),
            SpecToken::As => Some((acc, pos + 1)),
            _ => None,
        }
    }
}

/// The operand of a value, at position `pos`: a variable, a constructor call
/// `Class(..)`, a parenthesized value, or a literal. Returns it and the
/// position after it. `None` when the tokens do not form one, or when a name
/// is neither a variable nor a class.
pub open spec fn p_operand(t: Seq<SpecToken>, pos: int, sc: SpecScope) -> Option<(SpecValue, int)>
    decreases t.len() - pos, 0int,
{
    if pos < 0 || pos >= t.len() {
        None
    } else {
        match t[pos] {
            SpecToken::Ident(name) => match sc.get_var(name) {
                Some(x) => Some((SpecValue::Variable(x), pos + 1)),
                None => match sc.get_class(name) {
                    Some(c) => match p_args(t, pos + 1, sc) {
                        Some((args, p)) => Some((SpecValue::Constructor(c, args), p)),
                        None => None,
                    },
                    None => None,
                },
            },
            SpecToken::LParens => match p_value(t, pos + 1, sc) {
                Some((v, p)) => if tok_at(t, p) == Some(SpecToken::RParens) {
                    Some((v, p + 1))
                } else {
                    None
                },
                None => None,
            },
            SpecToken::String(s) => Some((SpecValue::StringLiteral(s), pos + 1)),
            SpecToken::Number(s) => Some((SpecValue::NumberLiteral(s), pos + 1)),
            _ => None,
        }
    }
}

/// A value that starts at position `pos`: an operand, possibly followed by
/// one method call `.name(..)`. Returns the value and the position after it.
/// `None` when there is no operand there, or when the operand ends the tokens.
pub open spec fn p_value(t: Seq<SpecToken>, pos: int, sc: SpecScope) -> Option<(SpecValue, int)>
    decreases t.len() - pos, 1int,
{
    match p_operand(t, pos, sc) {
        Some((v, p)) => if p <= pos || p >= t.len() {
            None
        } else if t[p] == SpecToken::Dot {
            match ident_at(t, p + 1) {
                Some(method_name) => match p_args(t, p + 2, sc) {
                    Some((args, q)) => Some(
                        (SpecValue::Method(SpecMethodCall { args, method_name, target: Box::new(v) }), q),
                    ),
                    None => None,
                },
                None => None,
            }
        } else {
            Some((v, p))
        },
        None => None,
    }
}

/// The arguments `(..)` that start at position `pos`: values up to the
/// closing parenthesis. Returns them and the position after the `)`.
pub open spec fn p_args(t: Seq<SpecToken>, pos: int, sc: SpecScope) -> Option<(Seq<SpecValue>, int)>
    decreases t.len() - pos, 0int,
{
    if tok_at(t, pos) == Some(SpecToken::LParens) {
        p_args_rest(t, pos + 1, sc, Seq::empty())
    } else {
        None
    }
}

/// The rest of an argument list, after the values `acc` already read.
pub open spec fn p_args_rest(t: Seq<SpecToken>, pos: int, sc: SpecScope, acc: Seq<SpecValue>) -> Option<
    (Seq<SpecValue>, int),
>
    decreases t.len() - pos, 2int,
{
    if pos < 0 || pos >= t.len() {
        None
    } else if t[pos] == SpecToken::RParens {
        Some((acc, pos + 1))
    } else {
        match p_value(t, pos, sc) {
            Some((v, p)) => if pos < p <= t.len() {
                p_args_rest(t, p, sc, acc.push(v))
            } else {
                None
            },
            None => None,
        }
    }
}

/// What the statements parser returns: the statements, the depth that the
/// next line is indented to (0 at the end of the tokens), the position
/// reached, and the scope.
pub type StmtsResult = Option<(Seq<SpecStatement>, nat, int, SpecScope)>;

/// What one statement leaves to do: fail; end the block with a result; go on
/// to the end of the line at a position; or go straight on with the next
/// statement at a position (after a nested block that ended at this block's
/// depth).
pub enum SpecStep {
    Fail,
    Return(Seq<SpecStatement>, nat, int, SpecScope),
    LineEnd(Seq<SpecStatement>, int, SpecScope),
    Continue(Seq<SpecStatement>, int, SpecScope),
}

/// Statements at indentation `depth`, from position `pos`, after the
/// statements `acc` already read in this block. The block ends at the end of
/// the tokens, or at a line indented less than `depth`; the result then
/// holds that line's indentation.
pub open spec fn p_statements(
    t: Seq<SpecToken>,
    pos: int,
    depth: nat,
    sc: SpecScope,
    acc: Seq<SpecStatement>,
) -> StmtsResult
    decreases t.len() - pos, 3int,
{
    if pos < 0 || pos > t.len() {
        None
    } else if pos == t.len() {
        Some((acc, 0, pos, sc))
    } else {
        match p_step(t, pos, depth, sc, acc) {
            SpecStep::Fail => None,
            SpecStep::Return(acc2, rd, p, sc2) => Some((acc2, rd, p, sc2)),
            SpecStep::LineEnd(acc2, p, sc2) => if pos <= p <= t.len() {
                p_line_end(t, p, depth, sc2, acc2)
            } else {
                None
            },
            SpecStep::Continue(acc2, p, sc2) => if pos < p <= t.len() {
                p_statements(t, p, depth, sc2, acc2)
            } else {
                None
            },
        }
    }
}

/// One statement, at position `pos`, chosen by its first token.
pub open spec fn p_step(
    t: Seq<SpecToken>,
    pos: int,
    depth: nat,
    sc: SpecScope,
    acc: Seq<SpecStatement>,
) -> SpecStep
    decreases t.len() - pos, 2int,
{
    if pos < 0 || pos >= t.len() {
        SpecStep::Fail
    } else {
        match t[pos] {
            // a string on its own is skipped
            SpecToken::String(_) => SpecStep::LineEnd(acc, pos + 1, sc),
            SpecToken::Use => p_use_stmt(t, pos, depth, sc, acc),
            SpecToken::Inherit => p_inherit_stmt(t, pos, depth, sc, acc),
            SpecToken::Method => p_constructor_stmt(t, pos, depth, sc, acc),
            SpecToken::Do => p_do_stmt(t, pos, depth, sc, acc),
            SpecToken::If => p_if_stmt(t, pos, depth, sc, acc),
            SpecToken::LParens => p_call_stmt(t, pos, sc, acc),
            SpecToken::Void => p_void_stmt(t, pos, depth, sc, acc),
            SpecToken::Ident(name) => p_ident_stmt(t, pos, depth, sc, acc, name),
            // an empty line
            SpecToken::NewLine => SpecStep::LineEnd(acc, pos, sc),
            _ => SpecStep::Fail,
        }
    }
}

/// `Use a b .. As Name`: declares the class `Name` under the path `a b ..`.
/// Only at depth 0.
pub open spec fn p_use_stmt(
    t: Seq<SpecToken>,
    pos: int,
    depth: nat,
    sc: SpecScope,
    acc: Seq<SpecStatement>,
) -> SpecStep {
    if depth != 0 {
        SpecStep::Fail
    } else {
        match p_use_path(t, pos + 1, Seq::empty()) {
            Some((path, p)) => match ident_at(t, p) {
                Some(name) => match sc.class_insert(name, path) {
                    Some((c, sc1)) => SpecStep::LineEnd(
                        acc.push(SpecStatement::Use(SpecUse { path, name: c })),
                        p + 1,
                        sc1,
                    ),
                    None => SpecStep::Fail,
                },
                None => SpecStep::Fail,
            },
            None => SpecStep::Fail,
        }
    }
}

/// `Inherit Name`: the class `Name` must be known. Only at depth 0.
pub open spec fn p_inherit_stmt(
    t: Seq<SpecToken>,
    pos: int,
    depth: nat,
    sc: SpecScope,
    acc: Seq<SpecStatement>,
) -> SpecStep {
    if depth != 0 {
        SpecStep::Fail
    } else {
        match ident_at(t, pos + 1) {
            Some(name) => match sc.get_class(name) {
                Some(c) => SpecStep::LineEnd(acc.push(SpecStatement::Inherit(c)), pos + 2, sc),
                None => SpecStep::Fail,
            },
            None => SpecStep::Fail,
        }
    }
}

/// `Method Method ..`: a constructor, returning `This`. Only at depth 0.
pub open spec fn p_constructor_stmt(
    t: Seq<SpecToken>,
    pos: int,
    depth: nat,
    sc: SpecScope,
    acc: Seq<SpecStatement>,
) -> SpecStep
    decreases t.len() - pos, 1int,
{
    if depth != 0 || pos < 0 || pos >= t.len() {
        SpecStep::Fail
    } else {
        match p_method_def(t, pos + 1, sc) {
            Some((args, block, p, sc1)) => SpecStep::LineEnd(
                acc.push(
                    SpecStatement::Method(
                        SpecMethod { args, ret: Some(ClassId::at(0)), block, name: "Constructor"@ },
                    ),
                ),
                p,
                sc1,
            ),
            None => SpecStep::Fail,
        }
    }
}

/// `Do`, a newline, an indented block one level deeper, then `Until value`.
pub open spec fn p_do_stmt(
    t: Seq<SpecToken>,
    pos: int,
    depth: nat,
    sc: SpecScope,
    acc: Seq<SpecStatement>,
) -> SpecStep
    decreases t.len() - pos, 1int,
{
    if pos < 0 || !(tok_at(t, pos + 1) == Some(SpecToken::NewLine) && tabs_at(t, pos + 2, depth + 1)) {
        SpecStep::Fail
    } else {
        match p_statements(t, pos + 3 + depth, depth + 1, sc.push_subscope(), Seq::empty()) {
            Some((body, rd, p, sc1)) => if rd == depth && tok_at(t, p) == Some(SpecToken::Until) {
                match p_value(t, p + 1, sc1) {
                    Some((v, q)) => match sc1.pop_subscope() {
                        Some((sub, sc2)) => SpecStep::LineEnd(
                            acc.push(
                                SpecStatement::Loop(SpecBlock { sub_scope: sub, statements: body }, v),
                            ),
                            q,
                            sc2,
                        ),
                        None => SpecStep::Fail,
                    },
                    None => SpecStep::Fail,
                }
            } else {
                SpecStep::Fail
            },
            None => SpecStep::Fail,
        }
    }
}

/// `If value`, a newline, and an indented block one level deeper. When the
/// block ends on a line indented less than this block, this block ends too.
pub open spec fn p_if_stmt(
    t: Seq<SpecToken>,
    pos: int,
    depth: nat,
    sc: SpecScope,
    acc: Seq<SpecStatement>,
) -> SpecStep
    decreases t.len() - pos, 1int,
{
    if pos < 0 || pos >= t.len() {
        SpecStep::Fail
    } else {
        match p_value(t, pos + 1, sc) {
            Some((v, p)) => if pos < p && tok_at(t, p) == Some(SpecToken::NewLine) && tabs_at(
                t,
                p + 1,
                depth + 1,
            ) {
                match p_statements(t, p + 2 + depth, depth + 1, sc.push_subscope(), Seq::empty()) {
                    Some((body, rd, q, sc1)) => match sc1.pop_subscope() {
                        Some((sub, sc2)) => {
                            let acc2 = acc.push(
                                SpecStatement::If(SpecBlock { sub_scope: sub, statements: body }, v),
                            );
                            if rd != depth {
                                SpecStep::Return(acc2, rd, q, sc2)
                            } else {
                                SpecStep::Continue(acc2, q, sc2)
                            }
                        },
                        None => SpecStep::Fail,
                    },
                    None => SpecStep::Fail,
                }
            } else {
                SpecStep::Fail
            },
            None => SpecStep::Fail,
        }
    }
}

/// A line that starts with `(`: a value that must be a method call.
pub open spec fn p_call_stmt(t: Seq<SpecToken>, pos: int, sc: SpecScope, acc: Seq<SpecStatement>) -> SpecStep {
    match p_value(t, pos, sc) {
        Some((SpecValue::Method(call), p)) => SpecStep::LineEnd(
            acc.push(SpecStatement::MethodCall(call)),
            p,
            sc,
        ),
        _ => SpecStep::Fail,
    }
}

/// `Void name Method ..`: a method that returns nothing. Only at depth 0.
/// When `name` is not followed by `Method`, the line holds no statement.
pub open spec fn p_void_stmt(
    t: Seq<SpecToken>,
    pos: int,
    depth: nat,
    sc: SpecScope,
    acc: Seq<SpecStatement>,
) -> SpecStep
    decreases t.len() - pos, 1int,
{
    if depth != 0 || pos < 0 {
        SpecStep::Fail
    } else {
        match ident_at(t, pos + 1) {
            Some(name) => match tok_at(t, pos + 2) {
                Some(SpecToken::Method) => match p_method_def(t, pos + 2, sc) {
                    Some((args, block, p, sc1)) => SpecStep::LineEnd(
                        acc.push(SpecStatement::Method(SpecMethod { args, ret: None, block, name })),
                        p,
                        sc1,
                    ),
                    None => SpecStep::Fail,
                },
                Some(_) => SpecStep::LineEnd(acc, pos + 2, sc),
                None => SpecStep::Fail,
            },
            None => SpecStep::Fail,
        }
    }
}

/// A line that starts with a name `a`:
/// - `a.m(..)`: a call of method `m` on the variable `a`;
/// - `A m Method ..`: a method `m` that returns class `A` (only at depth 0);
/// - `A x value`: the declaration of a variable `x` of class `A`, declared
///   before its value is read.
pub open spec fn p_ident_stmt(
    t: Seq<SpecToken>,
    pos: int,
    depth: nat,
    sc: SpecScope,
    acc: Seq<SpecStatement>,
    name: Seq<char>,
) -> SpecStep
    decreases t.len() - pos, 1int,
{
    if pos < 0 {
        SpecStep::Fail
    } else {
        match tok_at(t, pos + 1) {
            Some(SpecToken::Dot) => match ident_at(t, pos + 2) {
                Some(method_name) => match p_args(t, pos + 3, sc) {
                    Some((args, p)) => match sc.get_var(name) {
                        Some(x) => SpecStep::LineEnd(
                            acc.push(
                                SpecStatement::MethodCall(
                                    SpecMethodCall {
                                        args,
                                        method_name,
                                        target: Box::new(SpecValue::Variable(x)),
                                    },
                                ),
                            ),
                            p,
                            sc,
                        ),
                        None => SpecStep::Fail,
                    },
                    None => SpecStep::Fail,
                },
                None => SpecStep::Fail,
            },
            Some(SpecToken::Ident(name2)) => match tok_at(t, pos + 2) {
                Some(SpecToken::Method) => if depth != 0 {
                    SpecStep::Fail
                } else {
                    match p_method_def(t, pos + 2, sc) {
                        Some((args, block, p, sc1)) => match sc1.get_class(name) {
                            Some(c) => SpecStep::LineEnd(
                                acc.push(
                                    SpecStatement::Method(
                                        SpecMethod { args, ret: Some(c), block, name: name2 },
                                    ),
                                ),
                                p,
                                sc1,
                            ),
                            None => SpecStep::Fail,
                        },
                        None => SpecStep::Fail,
                    }
                },
                Some(_) => match sc.get_class(name) {
                    Some(c) => match sc.var_insert(name2, c) {
                        Some((x, sc1)) => match p_value(t, pos + 2, sc1) {
                            Some((v, p)) => SpecStep::LineEnd(
                                acc.push(SpecStatement::VariableDeclaration(x, v)),
                                p,
                                sc1,
                            ),
                            None => SpecStep::Fail,
                        },
                        None => SpecStep::Fail,
                    },
                    None => SpecStep::Fail,
                },
                None => SpecStep::Fail,
            },
            _ => SpecStep::Fail,
        }
    }
}

/// The end of a statement at position `p`: the end of the tokens, or a
/// newline followed by the indentation of the next line.
pub open spec fn p_line_end(
    t: Seq<SpecToken>,
    p: int,
    depth: nat,
    sc: SpecScope,
    acc: Seq<SpecStatement>,
) -> StmtsResult
    decreases t.len() - p, 2int,
{
    if p < 0 || p > t.len() {
        None
    } else if p == t.len() {
        Some((acc, 0, p, sc))
    } else if t[p] == SpecToken::NewLine {
        p_indent(t, p + 1, depth, 0, sc, acc)
    } else {
        None
    }
}

/// The indentation of a new line, after `i` of the `depth` tabs expected.
/// A line with fewer tabs ends the block; the result holds its number of
/// tabs (0 at the end of the tokens).
pub open spec fn p_indent(
    t: Seq<SpecToken>,
    p: int,
    depth: nat,
    i: nat,
    sc: SpecScope,
    acc: Seq<SpecStatement>,
) -> StmtsResult
    decreases t.len() - p, 4int,
{
    if p < 0 || p > t.len() {
        None
    } else if i >= depth {
        p_statements(t, p, depth, sc, acc)
    } else if p == t.len() {
        Some((acc, 0, p, sc))
    } else if t[p] == SpecToken::Tab {
        p_indent(t, p + 1, depth, i + 1, sc, acc)
    } else {
        Some((acc, i, p, sc))
    }
}

/// A method definition that starts at its `Method` token, at position `pos`:
/// its parameters, then a newline and one tab, then its body at depth 1 in a
/// sub-scope of its own. Returns the parameters, the body, the position after
/// it, and the scope.
pub open spec fn p_method_def(t: Seq<SpecToken>, pos: int, sc: SpecScope) -> Option<
    (Seq<VarId>, SpecBlock, int, SpecScope),
>
    decreases t.len() - pos, 0int,
{
    if tok_at(t, pos) != Some(SpecToken::Method) {
        None
    } else {
        match p_params(t, pos + 1, sc.push_subscope(), Seq::empty()) {
            Some((args, p, sc1)) => if tok_at(t, p) == Some(SpecToken::NewLine) && tok_at(t, p + 1)
                == Some(SpecToken::Tab) {
                proof {
                    lemma_p_params_bounds(t, pos + 1, sc.push_subscope(), Seq::empty());
                }
                match p_statements(t, p + 2, 1, sc1, Seq::empty()) {
                    Some((body, rd, q, sc2)) => if rd != 0 {
                        None
                    } else {
                        match sc2.pop_subscope() {
                            Some((sub, sc3)) => Some(
                                (args, SpecBlock { sub_scope: sub, statements: body }, q, sc3),
                            ),
                            None => None,
                        }
                    },
                    None => None,
                }
            } else {
                None
            },
            None => None,
        }
    }
}

/// The program that a sequence of tokens stands for, or `None` where the
/// tokens do not form a program.
pub open spec fn spec_parse(t: Seq<SpecToken>) -> Option<SpecTopLevelBlock> {
    match p_statements(t, 0, 0, SpecScope::initial(), Seq::empty()) {
        Some((stmts, rd, _, sc)) => if rd == 0 && sc.subs.len() == 1 {
            Some(
                SpecTopLevelBlock {
                    statements: stmts,
                    classes: sc.classes,
                    paths: sc.paths,
                    subscope: sc.subs[0],
                },
            )
        } else {
            None
        },
        None => None,
    }
}

} // verus!

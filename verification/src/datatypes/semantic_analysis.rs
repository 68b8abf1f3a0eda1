//! Semantic analysis: resolves names to stack slots, checks types, and lowers each scope's
//! statements to the statements code generation reads.
use vstd::prelude::*;
use crate::datatypes::ast_statements::{
    ArrayVariableData, BuiltInFunctionsAst, same_literal, CgBranch, CgBranchLinked, CgBuiltInFunctions, CgCompare, CgExpression,
    CgIdentifiers, CgStatement, CgStatementType, CgVariableAssignment, CgVariableAssignmentType, CmpCondition, Expression,
    Literal, StackVariableData, Statement, Statements, VariableType, copies_of, ArrayLiteral, same_expr, same_exprs,
    same_cg, same_cgs, lemma_same_cg_refl, lemma_same_cgs_refl, lemma_same_exprs_refl, lemma_same_exprs, lemma_same_cgs,
    lemma_same_exprs_trans, lemma_same_cgs_trans, lemma_same_cg_trans,
};
use crate::datatypes::errors::ErrorKind;
use crate::datatypes::parser::{message, errors_added, lemma_errors_added_one, lemma_errors_added_trans};
use crate::datatypes::program_data::{ProgramData, arg_local_offset, find_arg};
use crate::datatypes::scope::{NO_PARENT, Scope, StackVariable};
use crate::datatypes::scope_analysis::{lemma_same_shape, same_scope_shape};
use crate::datatypes::token::Identifiers;
use crate::text::{chars_of, debug_quoted, i64_to_string, int_decimal, nat_decimal, push_char, push_str, usize_to_string};
use crate::datatypes::ast_statements::duplicate_conditions;
use crate::datatypes::ast_statements::Format;
use crate::datatypes::ast_statements::Compare;
use crate::datatypes::ast_statements::{ArrayIndex, BranchLinkedAst, FunctionArg};

verus! {

/// Where the name `name`, seen from scope `s`, lives: a variable of `s` or of an enclosing
/// scope, or else a stack argument of the function.
pub open spec fn lowered_identifier(pd: ProgramData, s: int, name: Seq<char>) -> Option<StackVariableData> {
    match pd.var_scope(s, name) {
        Some(j) => {
            let v = pd.scopes@[j].variables.lookup(name)->0;
            Some(StackVariableData { offset: pd.var_local_offset(j, v) as usize, variable_type: v.variable_type })
        },
        None => {
            let f = pd.function_of(s);
            match find_arg(f.args@, name, 0) {
                Some(k) => if f.args@[k].memory_location is Stack {
                    Some(
                        StackVariableData {
                            offset: arg_local_offset(f, f.args@[k]) as usize,
                            variable_type: f.args@[k].arg_var_type,
                        },
                    )
                } else {
                    None
                },
                None => None,
            }
        },
    }
}

/// The lowered form of expression `e` seen from scope `s`: literals stay, names become stack
/// slots, and an indexed name becomes a slot of an array with its lowered index.
pub open spec fn cg_expression(pd: ProgramData, s: int, e: Expression) -> Option<CgExpression>
    decreases e,
{
    match e {
        Expression::Literal(l) => Some(CgExpression::Literal(l)),
        Expression::Identifier(Identifiers::Identifier(name)) => match lowered_identifier(pd, s, name@) {
            Some(d) => Some(CgExpression::Identifier(CgIdentifiers::StackVariableData(d))),
            None => None,
        },
        Expression::ArrayIndex(ai) => match lowered_identifier(pd, s, ai.identifier@) {
            Some(d) => if d.variable_type is Array {
                match cg_expression(pd, s, *ai.index) {
                    Some(i) => Some(
                        CgExpression::Identifier(
                            CgIdentifiers::ArrayVariableData(
                                ArrayVariableData { arr_index: Box::new(i), variable_type: d.variable_type, offset: d.offset },
                            ),
                        ),
                    ),
                    None => None,
                }
            } else {
                None
            },
            None => None,
        },
        _ => None,
    }
}

/// The messages recorded when the expression `e`, seen from scope `s`, does not lower: an
/// unknown name; an indexed name that is not an array; an index that does not lower (its own
/// messages, then an unknown error); any other expression that is no literal.
pub open spec fn lowering_errors(pd: ProgramData, s: int, e: Expression) -> Seq<Seq<char>>
    decreases e,
{
    match e {
        Expression::Literal(_) => seq![],
        Expression::Identifier(Identifiers::Identifier(name)) => match lowered_identifier(pd, s, name@) {
            Some(_) => seq![],
            None => seq![message(ErrorKind::UnknownIdentifier, seq![debug_quoted(name@)])],
        },
        Expression::ArrayIndex(ai) => match lowered_identifier(pd, s, ai.identifier@) {
            Some(d) => if !(d.variable_type is Array) {
                seq![
                    message(
                        ErrorKind::VariableTypeMismatch,
                        seq![
                            debug_quoted(VariableType::ArrayEmpty.spec_type_string()),
                            debug_quoted(d.variable_type.spec_type_string()),
                        ],
                    ),
                ]
            } else if cg_expression(pd, s, *ai.index) is None {
                lowering_errors(pd, s, *ai.index) + seq![ErrorKind::Unknown.spec_template()]
            } else {
                seq![]
            },
            None => seq![message(ErrorKind::UnknownIdentifier, seq![debug_quoted(ai.identifier@)])],
        },
        _ => seq![message(ErrorKind::ExpectedStatement, seq![debug_quoted(Statements::ExpressionEmpty.spec_type_string())])],
    }
}

/// Whether the expression `e`, seen from scope `s`, can initialize a value of type `t`: a
/// number a value of an integer type, an array literal an array whose item type each item
/// suits, a name or an indexed name a value of its own type.
pub open spec fn item_valid(pd: ProgramData, s: int, e: Expression, t: VariableType) -> bool
    decreases e, 1nat,
{
    match e {
        Expression::Literal(Literal::Number(_)) => t.is_number(),
        Expression::Literal(Literal::Array(a)) => match t {
            VariableType::Array(at) => {
                proof {
                    broadcast use vstd::std_specs::vec::axiom_vec_decreases_to_view;
                    assert(decreases_to!(a.items => a.items@));
                }
                items_valid(pd, s, a.items@, *at.variable_type)
            },
            _ => false,
        },
        Expression::Identifier(Identifiers::Identifier(name)) => lowered_identifier(pd, s, name@) matches Some(d)
            && d.variable_type == t,
        Expression::ArrayIndex(ai) => lowered_identifier(pd, s, ai.identifier@) matches Some(d)
            && d.variable_type matches VariableType::Array(at) && *at.variable_type == t && cg_expression(
            pd,
            s,
            *ai.index,
        ) is Some,
        _ => false,
    }
}

/// Whether every one of `items` suits the type `t`.
pub open spec fn items_valid(pd: ProgramData, s: int, items: Seq<Expression>, t: VariableType) -> bool
    decreases items, 0nat,
{
    if items.len() == 0 {
        true
    } else {
        proof {
            assert(decreases_to!(items => items[0]));
            assert(decreases_to!(items => items.subrange(1, items.len() as int)));
        }
        item_valid(pd, s, items[0], t) && items_valid(pd, s, items.subrange(1, items.len() as int), t)
    }
}

/// Items suit a type one by one.
pub proof fn lemma_items_valid(pd: ProgramData, s: int, items: Seq<Expression>, t: VariableType)
    ensures
        items_valid(pd, s, items, t) <==> forall|k: int| 0 <= k < items.len() ==> item_valid(pd, s, #[trigger] items[k], t),
    decreases items.len(),
{
    if items.len() > 0 {
        let rest = items.subrange(1, items.len() as int);
        lemma_items_valid(pd, s, rest, t);
        assert forall|k: int| 1 <= k < items.len() implies items[k] == rest[k - 1] by {}
        if forall|k: int| 0 <= k < items.len() ==> item_valid(pd, s, #[trigger] items[k], t) {
            assert forall|k: int| 0 <= k < rest.len() implies item_valid(pd, s, #[trigger] rest[k], t) by {
                assert(rest[k] == items[k + 1]);
            }
        }
        if items_valid(pd, s, items, t) {
            assert forall|k: int| 0 <= k < items.len() implies item_valid(pd, s, #[trigger] items[k], t) by {
                if k > 0 {
                    assert(rest[k - 1] == items[k]);
                }
            }
        }
    }
}

/// Whether the lowered expression `e` can initialize a value of type `t`; an array literal
/// item by item, each item seen from scope `s`.
pub open spec fn valid_for(pd: ProgramData, s: int, e: CgExpression, t: VariableType) -> bool {
    match e {
        CgExpression::Literal(Literal::Array(a)) => match t {
            VariableType::Array(at) => items_valid(pd, s, a.items@, *at.variable_type),
            _ => false,
        },
        CgExpression::Literal(Literal::Number(_)) => t.is_number(),
        CgExpression::Identifier(CgIdentifiers::StackVariableData(d)) => d.variable_type == t,
        CgExpression::Identifier(CgIdentifiers::ArrayVariableData(d)) => d.variable_type matches VariableType::Array(
            at,
        ) && *at.variable_type == t,
        _ => false,
    }
}

/// The two expressions lower alike and suit the same types, wherever they are seen from.
pub open spec fn lowers_alike(a: Expression, b: Expression) -> bool {
    &&& forall|pd: ProgramData, s: int, t: VariableType| #[trigger] item_valid(pd, s, a, t) == item_valid(pd, s, b, t)
    &&& forall|pd: ProgramData, s: int| (#[trigger] cg_expression(pd, s, a)) is Some == cg_expression(pd, s, b) is Some
}

/// An expression that suits some type lowers.
pub proof fn lemma_valid_lowers(pd: ProgramData, s: int, e: Expression, t: VariableType)
    requires
        item_valid(pd, s, e, t),
    ensures
        cg_expression(pd, s, e) is Some,
{
}

/// A lowered expression suits a type exactly when the expression it was lowered from does.
pub proof fn lemma_valid_lowered(pd: ProgramData, s: int, e: Expression, t: VariableType)
    requires
        cg_expression(pd, s, e) is Some,
    ensures
        valid_for(pd, s, cg_expression(pd, s, e)->0, t) == item_valid(pd, s, e, t),
{
}

/// Every character is ASCII.
pub open spec fn all_ascii(s: Seq<char>) -> bool {
    forall|i: int| 0 <= i < s.len() ==> (s[i] as u32) < 128
}

/// `o` with `x` in front, when there is one.
pub open spec fn prefixed(x: Seq<char>, o: Option<Seq<char>>) -> Option<Seq<char>> {
    match o {
        Some(r) => Some(x + r),
        None => None,
    }
}

/// Replaces the `{}` of `template`, left to right, by `texts`; nothing when a `{` is not
/// followed by `}` or the template has fewer `{}` than there are texts. Text after the last
/// replaced `{}` is kept as it is.
pub open spec fn format_fill(template: Seq<char>, texts: Seq<Seq<char>>) -> Option<Seq<char>>
    decreases template.len(),
{
    if texts.len() == 0 {
        Some(template)
    } else if template.len() == 0 {
        None
    } else if template[0] == '{' {
        if template.len() >= 2 && template[1] == '}' {
            prefixed(texts[0], format_fill(template.skip(2), texts.drop_first()))
        } else {
            None
        }
    } else {
        prefixed(seq![template[0]], format_fill(template.skip(1), texts))
    }
}

/// The text a built-in function gives when used inside `asm(..)` or `format(..)`, seen from
/// scope `s`: `stack_offset(x)` gives the offset of `x` above `sp` in decimal, `format(..)` its
/// template filled with its arguments' texts (an ASCII template only).
pub open spec fn builtin_text(pd: ProgramData, s: int, f: BuiltInFunctionsAst) -> Option<Seq<char>>
    decreases f, 0nat,
{
    match f {
        BuiltInFunctionsAst::StackOffset(id) => match lowered_identifier(pd, s, id@) {
            Some(d) => Some(int_decimal((d.offset as i64) as int)),
            None => None,
        },
        BuiltInFunctionsAst::Format(fmt) => {
            proof {
                broadcast use vstd::std_specs::vec::axiom_vec_decreases_to_view;
                assert(decreases_to!(fmt.args_provided => fmt.args_provided@));
            }
            match format_args_text(pd, s, fmt.args_provided@) {
                Some(texts) => if all_ascii(fmt.string@) {
                    format_fill(fmt.string@, texts)
                } else {
                    None
                },
                None => None,
            }
        },
        _ => None,
    }
}

/// The texts of format arguments, when each has one.
pub open spec fn format_args_text(pd: ProgramData, s: int, args: Seq<Expression>) -> Option<Seq<Seq<char>>>
    decreases args, 0nat,
{
    if args.len() == 0 {
        Some(seq![])
    } else {
        proof {
            assert(decreases_to!(args => args[0]));
            assert(decreases_to!(args => args.subrange(1, args.len() as int)));
        }
        match (arg_text(pd, s, args[0]), format_args_text(pd, s, args.subrange(1, args.len() as int))) {
            (Some(t), Some(ts)) => Some(seq![t] + ts),
            _ => None,
        }
    }
}

/// The text of one format argument: a number in decimal, a string as it is, a built-in
/// function's text.
pub open spec fn arg_text(pd: ProgramData, s: int, e: Expression) -> Option<Seq<char>>
    decreases e, 0nat,
{
    match e {
        Expression::Literal(Literal::Number(n)) => Some(int_decimal(n as int)),
        Expression::Literal(Literal::String(x)) => Some(x@),
        Expression::BuiltInFunction(f) => builtin_text(pd, s, f),
        _ => None,
    }
}

/// Whether evaluating `f` looks a name up: a `stack_offset`, itself or among the arguments of
/// a `format`.
pub open spec fn reads_names(f: BuiltInFunctionsAst) -> bool
    decreases f, 0nat,
{
    match f {
        BuiltInFunctionsAst::StackOffset(_) => true,
        BuiltInFunctionsAst::Format(fmt) => {
            proof {
                broadcast use vstd::std_specs::vec::axiom_vec_decreases_to_view;
                assert(decreases_to!(fmt.args_provided => fmt.args_provided@));
            }
            args_read_names(fmt.args_provided@)
        },
        _ => false,
    }
}

/// Whether evaluating one of the format arguments `args` looks a name up.
pub open spec fn args_read_names(args: Seq<Expression>) -> bool
    decreases args, 0nat,
{
    if args.len() == 0 {
        false
    } else {
        proof {
            assert(decreases_to!(args => args[0]));
            assert(decreases_to!(args => args.subrange(1, args.len() as int)));
        }
        arg_reads_names(args[0]) || args_read_names(args.subrange(1, args.len() as int))
    }
}

/// Whether evaluating the format argument `e` looks a name up.
pub open spec fn arg_reads_names(e: Expression) -> bool
    decreases e, 0nat,
{
    match e {
        Expression::BuiltInFunction(f) => reads_names(f),
        _ => false,
    }
}

/// An argument that looks a name up makes the arguments look one up.
pub proof fn lemma_args_read_names(args: Seq<Expression>)
    ensures
        forall|k: int| 0 <= k < args.len() && #[trigger] arg_reads_names(args[k]) ==> args_read_names(args),
    decreases args.len(),
{
    if args.len() > 0 {
        let rest = args.subrange(1, args.len() as int);
        lemma_args_read_names(rest);
        assert forall|k: int| 1 <= k < args.len() implies args[k] == rest[k - 1] by {}
    }
}

/// Argument texts one by one.
pub proof fn lemma_format_args_text(pd: ProgramData, s: int, args: Seq<Expression>)
    ensures
        format_args_text(pd, s, args) is Some <==> forall|k: int| 0 <= k < args.len() ==> (#[trigger] arg_text(pd, s, args[k])) is Some,
        format_args_text(pd, s, args) matches Some(ts) ==> ts.len() == args.len() && forall|k: int|
            0 <= k < args.len() ==> ts[k] == (#[trigger] arg_text(pd, s, args[k]))->0,
    decreases args.len(),
{
    if args.len() > 0 {
        let rest = args.subrange(1, args.len() as int);
        lemma_format_args_text(pd, s, rest);
        assert forall|k: int| 1 <= k < args.len() implies args[k] == rest[k - 1] by {}
        if forall|k: int| 0 <= k < args.len() ==> (#[trigger] arg_text(pd, s, args[k])) is Some {
            assert(arg_text(pd, s, args[0]) is Some);
            assert forall|k: int| 0 <= k < rest.len() implies (#[trigger] arg_text(pd, s, rest[k])) is Some by {
                assert(rest[k] == args[k + 1]);
                assert(arg_text(pd, s, args[k + 1]) is Some);
            }
        }
        if format_args_text(pd, s, args) is Some {
            assert forall|k: int| 0 <= k < args.len() implies (#[trigger] arg_text(pd, s, args[k])) is Some by {
                if k > 0 {
                    assert(rest[k - 1] == args[k]);
                }
            }
            let ts = format_args_text(pd, s, args)->0;
            assert forall|k: int| 0 <= k < args.len() implies ts[k] == (#[trigger] arg_text(pd, s, args[k]))->0 by {
                if k > 0 {
                    assert(rest[k - 1] == args[k]);
                }
            }
        }
    }
}

/// Expressions equal item by item lower alike: to lowered expressions equal item by item.
pub proof fn lemma_cg_lowers_same(pd: ProgramData, s: int, d: Expression, e: Expression)
    requires
        same_expr(d, e),
    ensures
        cg_expression(pd, s, d) is Some <==> cg_expression(pd, s, e) is Some,
        cg_expression(pd, s, d) is Some ==> same_cg(cg_expression(pd, s, d)->0, cg_expression(pd, s, e)->0),
    decreases d,
{
    match (d, e) {
        (Expression::ArrayIndex(x), Expression::ArrayIndex(y)) => {
            lemma_cg_lowers_same(pd, s, *x.index, *y.index);
        },
        (Expression::Identifier(x), Expression::Identifier(y)) => {
            if cg_expression(pd, s, d) is Some {
                lemma_same_cg_refl(cg_expression(pd, s, d)->0);
            }
        },
        _ => {},
    }
}

/// `x` is the expression `e` as lowered from scope `s` and filled in: an array literal with
/// its items (each filled in the same way) appended to its lowered items, any other
/// expression as it lowers; lists compared item by item.
pub open spec fn filled_item(x: CgExpression, e: Expression, pd: ProgramData, s: int) -> bool
    decreases e, 1nat,
{
    match e {
        Expression::Literal(Literal::Array(a)) => {
            proof {
                broadcast use vstd::std_specs::vec::axiom_vec_decreases_to_view;
                assert(decreases_to!(a.items => a.items@));
            }
            &&& x matches CgExpression::Literal(Literal::Array(b))
            &&& same_exprs(b.items@, a.items@)
            &&& b.cg_items@.len() == a.cg_items@.len() + a.items@.len()
            &&& same_cgs(b.cg_items@.subrange(0, a.cg_items@.len() as int), a.cg_items@)
            &&& filled_items(b.cg_items@.subrange(a.cg_items@.len() as int, b.cg_items@.len() as int), a.items@, pd, s)
        },
        _ => cg_expression(pd, s, e) matches Some(c) && same_cg(x, c),
    }
}

/// `xs` are the expressions `es`, each lowered and filled in as `filled_item` says.
pub open spec fn filled_items(xs: Seq<CgExpression>, es: Seq<Expression>, pd: ProgramData, s: int) -> bool
    decreases es, 0nat,
{
    if es.len() == 0 {
        xs.len() == 0
    } else {
        proof {
            assert(decreases_to!(es => es[0]));
            assert(decreases_to!(es => es.subrange(1, es.len() as int)));
        }
        &&& xs.len() > 0
        &&& filled_item(xs[0], es[0], pd, s)
        &&& filled_items(xs.subrange(1, xs.len() as int), es.subrange(1, es.len() as int), pd, s)
    }
}

/// Items filled in one by one.
pub proof fn lemma_filled_items(xs: Seq<CgExpression>, es: Seq<Expression>, pd: ProgramData, s: int)
    ensures
        filled_items(xs, es, pd, s) <==> (xs.len() == es.len() && forall|k: int|
            0 <= k < es.len() ==> filled_item(#[trigger] xs[k], es[k], pd, s)),
    decreases es.len(),
{
    if es.len() > 0 && xs.len() > 0 {
        let (rx, re) = (xs.subrange(1, xs.len() as int), es.subrange(1, es.len() as int));
        lemma_filled_items(rx, re, pd, s);
        assert forall|k: int| 1 <= k < xs.len() implies xs[k] == rx[k - 1] by {}
        assert forall|k: int| 1 <= k < es.len() implies es[k] == re[k - 1] by {}
    }
}

/// Filling in depends on the expression only up to equality item by item.
pub proof fn lemma_filled_item_same(x: CgExpression, e1: Expression, e2: Expression, pd: ProgramData, s: int)
    requires
        filled_item(x, e1, pd, s),
        same_expr(e1, e2),
    ensures
        filled_item(x, e2, pd, s),
    decreases e1,
{
    if let Expression::Literal(Literal::Array(a1)) = e1 {
        assert(e2 is Literal);
        let y = e2->Literal_0;
        assert(same_literal(Literal::Array(a1), y));
        assert(y is Array);
        let a2 = y->Array_0;
        assert(same_literal(Literal::Array(a1), Literal::Array(a2)));
        assert(same_exprs(a1.items@, a2.items@));
        assert(same_cgs(a1.cg_items@, a2.cg_items@));
        let b = x->Literal_0->Array_0;
        lemma_same_exprs(a1.items@, a2.items@);
        lemma_same_cgs(a1.cg_items@, a2.cg_items@);
        lemma_same_exprs_trans(b.items@, a1.items@, a2.items@);
        lemma_same_cgs_trans(b.cg_items@.subrange(0, a1.cg_items@.len() as int), a1.cg_items@, a2.cg_items@);
        let tail = b.cg_items@.subrange(a1.cg_items@.len() as int, b.cg_items@.len() as int);
        lemma_filled_items(tail, a1.items@, pd, s);
        lemma_filled_items(tail, a2.items@, pd, s);
        assert forall|k: int| 0 <= k < a2.items@.len() implies filled_item(#[trigger] tail[k], a2.items@[k], pd, s) by {
            broadcast use vstd::std_specs::vec::axiom_vec_decreases_to_view;
            assert(decreases_to!(a1.items => a1.items@));
            assert(decreases_to!(a1.items@ => a1.items@[k]));
            assert(same_expr(a1.items@[k], a2.items@[k]));
            lemma_filled_item_same(tail[k], a1.items@[k], a2.items@[k], pd, s);
        }
        assert(filled_items(tail, a2.items@, pd, s));
    } else {
        if e2 matches Expression::Literal(Literal::Array(_)) {
            assert(e1 is Literal);
            assert(same_literal(e1->Literal_0, e2->Literal_0));
            assert(e1->Literal_0 is Array);
        }
        lemma_cg_lowers_same(pd, s, e1, e2);
        lemma_same_cg_trans(x, cg_expression(pd, s, e1)->0, cg_expression(pd, s, e2)->0);
    }
}

/// `x` is the expression `e` after matching it against a type: an array literal keeps its
/// items (each matched in the same way) and gains, after its lowered items, each item's lowered
/// form; any other expression stays as it is.
pub open spec fn matched_item(x: Expression, e: Expression, pd: ProgramData, s: int) -> bool
    decreases e, 1nat,
{
    match e {
        Expression::Literal(Literal::Array(a)) => {
            proof {
                broadcast use vstd::std_specs::vec::axiom_vec_decreases_to_view;
                assert(decreases_to!(a.items => a.items@));
            }
            &&& x matches Expression::Literal(Literal::Array(b))
            &&& matched_items(b.items@, a.items@, pd, s)
            &&& b.cg_items@.len() == a.cg_items@.len() + a.items@.len()
            &&& b.cg_items@.subrange(0, a.cg_items@.len() as int) == a.cg_items@
            &&& forall|k: int|
                0 <= k < a.items@.len() ==> (cg_expression(pd, s, #[trigger] b.items@[k]) matches Some(c) && same_cg(
                    b.cg_items@[a.cg_items@.len() + k],
                    c,
                ))
        },
        _ => x == e,
    }
}

/// `xs` are the expressions `es`, each matched as `matched_item` says.
pub open spec fn matched_items(xs: Seq<Expression>, es: Seq<Expression>, pd: ProgramData, s: int) -> bool
    decreases es, 0nat,
{
    if es.len() == 0 {
        xs.len() == 0
    } else {
        proof {
            assert(decreases_to!(es => es[0]));
            assert(decreases_to!(es => es.subrange(1, es.len() as int)));
        }
        &&& xs.len() > 0
        &&& matched_item(xs[0], es[0], pd, s)
        &&& matched_items(xs.subrange(1, xs.len() as int), es.subrange(1, es.len() as int), pd, s)
    }
}

/// Items matched one by one.
pub proof fn lemma_matched_items(xs: Seq<Expression>, es: Seq<Expression>, pd: ProgramData, s: int)
    ensures
        matched_items(xs, es, pd, s) <==> (xs.len() == es.len() && forall|k: int|
            0 <= k < es.len() ==> matched_item(#[trigger] xs[k], es[k], pd, s)),
    decreases es.len(),
{
    if es.len() > 0 && xs.len() > 0 {
        let (rx, re) = (xs.subrange(1, xs.len() as int), es.subrange(1, es.len() as int));
        lemma_matched_items(rx, re, pd, s);
        assert forall|k: int| 1 <= k < xs.len() implies xs[k] == rx[k - 1] by {}
        assert forall|k: int| 1 <= k < es.len() implies es[k] == re[k - 1] by {}
    }
}

/// `filled` is the array literal `a` with each of its items appended, lowered and filled in,
/// to its lowered items, each suiting `item_type`; an item holding no list appended exactly as
/// it lowers from scope `s`.
pub open spec fn filled_in(filled: CgExpression, a: ArrayLiteral, pd: ProgramData, s: int, item_type: VariableType) -> bool {
    &&& filled matches CgExpression::Literal(Literal::Array(b))
    &&& b.items == a.items
    &&& b.cg_items@.len() == a.cg_items@.len() + a.items@.len()
    &&& forall|j: int| 0 <= j < a.cg_items@.len() ==> #[trigger] b.cg_items@[j] == a.cg_items@[j]
    &&& forall|k: int|
        0 <= k < a.items@.len() ==> valid_for(pd, s, #[trigger] b.cg_items@[a.cg_items@.len() + k], item_type)
    &&& forall|k: int|
        0 <= k < a.items@.len() ==> (#[trigger] a.items@[k]).vec_free() ==> b.cg_items@[a.cg_items@.len() + k] == cg_expression(
            pd,
            s,
            a.items@[k],
        )->0
    &&& filled_items(b.cg_items@.subrange(a.cg_items@.len() as int, b.cg_items@.len() as int), a.items@, pd, s)
}

/// What assigning `value` to the name `name` seen from scope `s` does: the assignment is
/// filed under the scope when the name is known and the value lowers and suits its type;
/// otherwise an error is recorded.
pub open spec fn assigned(new: ProgramData, old: ProgramData, s: int, name: Seq<char>, value: Expression) -> bool {
    let after = new.scopes@[s].cg_statements@;
    let before = old.scopes@[s].cg_statements@;
    match lowered_identifier(old, s, name) {
        None => after == before && new.errors@.len() == old.errors@.len() + 1 && new.errors@.last()@ == message(
            ErrorKind::UnknownIdentifier,
            seq![debug_quoted(name)],
        ),
        Some(d) => match cg_expression(old, s, value) {
            Some(c) => if valid_for(old, s, c, d.variable_type) {
                &&& new.errors == old.errors
                &&& pushed_one(after, before)
                &&& after.last().statement_type matches CgStatementType::VariableAssignment(va)
                &&& va.assign_type == CgVariableAssignmentType::CompileTimeStackOffset(d.offset)
                &&& va.variable_type == d.variable_type
                &&& !(c matches CgExpression::Literal(Literal::Array(_))) ==> va.assign_value == c
                &&& c matches CgExpression::Literal(Literal::Array(a)) ==> filled_in(
                    va.assign_value,
                    a,
                    old,
                    s,
                    *d.variable_type->Array_0.variable_type,
                )
            } else {
                &&& after == before
                &&& new.errors@.len() > old.errors@.len()
                &&& new.errors@.last()@ == message(
                    ErrorKind::VariableTypeMismatchExpected,
                    seq![debug_quoted(d.variable_type.spec_type_string())],
                )
            },
            None => {
                &&& after == before
                &&& new.errors@.len() > old.errors@.len()
                &&& new.errors@.last()@ == message(ErrorKind::ExpectedStatement, seq![debug_quoted("Expression"@)])
            },
        },
    }
}

/// The outcome of assigning `value` to the item `ai` of an array, seen from scope `s`: the
/// array must be a variable and `value` must suit its item type; an array passed on the stack
/// is left alone.
pub open spec fn item_assigned(new: ProgramData, old: ProgramData, s: int, ai: ArrayIndex, value: Expression) -> bool {
    let after = new.scopes@[s].cg_statements@;
    let before = old.scopes@[s].cg_statements@;
    let name = ai.identifier@;
    match old.var_scope(s, name) {
        Some(j) => {
            let v = old.scopes@[j].variables.lookup(name)->0;
            match cg_expression(old, s, value) {
                None => {
                    &&& after == before
                    &&& new.errors@.len() > old.errors@.len()
                    &&& new.errors@.last()@ == message(ErrorKind::ExpectedStatement, seq![debug_quoted("Expression"@)])
                },
                Some(c) => match v.variable_type {
                    VariableType::Array(at) => if !valid_for(old, s, c, *at.variable_type) {
                        &&& after == before
                        &&& new.errors@.len() > old.errors@.len()
                        &&& new.errors@.last()@ == message(
                            ErrorKind::VariableTypeMismatchExpected,
                            seq![debug_quoted(at.variable_type.spec_type_string())],
                        )
                    } else {
                        match cg_expression(old, s, *ai.index) {
                            None => {
                                &&& after == before
                                &&& new.errors@.len() > old.errors@.len()
                                &&& new.errors@.last()@ == ErrorKind::Unknown.spec_template()
                            },
                            Some(ci) => {
                                &&& new.errors == old.errors
                                &&& pushed_one(after, before)
                                &&& after.last().statement_type matches CgStatementType::VariableAssignment(va)
                                &&& va.assign_type == CgVariableAssignmentType::ArrayItem(
                                    ArrayVariableData {
                                        arr_index: Box::new(ci),
                                        variable_type: *at.variable_type,
                                        offset: old.var_local_offset(j, v) as usize,
                                    },
                                )
                                &&& va.variable_type == v.variable_type
                                &&& !(c matches CgExpression::Literal(Literal::Array(_))) ==> va.assign_value == c
                                &&& c matches CgExpression::Literal(Literal::Array(l)) ==> filled_in(
                                    va.assign_value,
                                    l,
                                    old,
                                    s,
                                    *(*at.variable_type)->Array_0.variable_type,
                                )
                            },
                        }
                    },
                    _ => {
                        &&& after == before
                        &&& new.errors@.len() > old.errors@.len()
                        &&& new.errors@.last()@ == message(
                            ErrorKind::VariableTypeMismatchExpected,
                            seq![debug_quoted("array"@)],
                        )
                    },
                },
            }
        },
        None => if lowered_identifier(old, s, name) is Some {
            after == before && new.errors == old.errors
        } else {
            &&& after == before
            &&& new.errors@.len() == old.errors@.len() + 1
            &&& new.errors@.last()@ == message(ErrorKind::UnknownIdentifier, seq![debug_quoted(name)])
        },
    }
}

/// `new` is `old` with more lowered statements and more errors, and nothing else changed.
pub open spec fn lowered_more(new: ProgramData, old: ProgramData) -> bool {
    &&& new.functions == old.functions
    &&& new.statements == old.statements
    &&& new.tokens == old.tokens
    &&& new.source_code == old.source_code
    &&& new.source_codes == old.source_codes
    &&& new.scopes@.len() == old.scopes@.len()
    &&& forall|i: int|
        0 <= i < old.scopes@.len() ==> {
            &&& same_scope_shape(#[trigger] new.scopes@[i], old.scopes@[i])
            &&& new.scopes@[i].statements == old.scopes@[i].statements
            &&& seq_grows(new.scopes@[i].cg_statements@, old.scopes@[i].cg_statements@)
        }
    &&& seq_grows(new.errors@, old.errors@)
}

pub proof fn lemma_lowered_more_errors(new: ProgramData, old: ProgramData)
    requires
        new.scopes == old.scopes,
        new.functions == old.functions,
        new.statements == old.statements,
        new.tokens == old.tokens,
        new.source_code == old.source_code,
        new.source_codes == old.source_codes,
        seq_grows(new.errors@, old.errors@),
    ensures
        lowered_more(new, old),
{
    assert forall|i: int| 0 <= i < old.scopes@.len() implies {
        &&& same_scope_shape(#[trigger] new.scopes@[i], old.scopes@[i])
        &&& new.scopes@[i].statements == old.scopes@[i].statements
        &&& seq_grows(new.scopes@[i].cg_statements@, old.scopes@[i].cg_statements@)
    } by {
        assert(new.scopes@[i] == old.scopes@[i]);
    }
}

pub proof fn lemma_lowered_more_scope(new: ProgramData, old: ProgramData, s: int)
    requires
        0 <= s < old.scopes@.len(),
        new.functions == old.functions,
        new.statements == old.statements,
        new.tokens == old.tokens,
        new.source_code == old.source_code,
        new.source_codes == old.source_codes,
        new.scopes@.len() == old.scopes@.len(),
        forall|i: int| 0 <= i < old.scopes@.len() && i != s ==> #[trigger] new.scopes@[i] == old.scopes@[i],
        same_scope_shape(new.scopes@[s], old.scopes@[s]),
        new.scopes@[s].statements == old.scopes@[s].statements,
        seq_grows(new.scopes@[s].cg_statements@, old.scopes@[s].cg_statements@),
        seq_grows(new.errors@, old.errors@),
    ensures
        lowered_more(new, old),
{
    assert forall|i: int| 0 <= i < old.scopes@.len() implies {
        &&& same_scope_shape(#[trigger] new.scopes@[i], old.scopes@[i])
        &&& new.scopes@[i].statements == old.scopes@[i].statements
        &&& seq_grows(new.scopes@[i].cg_statements@, old.scopes@[i].cg_statements@)
    } by {
        if i != s {
            assert(new.scopes@[i] == old.scopes@[i]);
        }
    }
}

pub proof fn lemma_lowered_more_trans(a: ProgramData, b: ProgramData, c: ProgramData)
    requires
        lowered_more(b, a),
        lowered_more(c, b),
    ensures
        lowered_more(c, a),
{
    assert forall|i: int| 0 <= i < a.scopes@.len() implies {
        &&& same_scope_shape(#[trigger] c.scopes@[i], a.scopes@[i])
        &&& c.scopes@[i].statements == a.scopes@[i].statements
        &&& seq_grows(c.scopes@[i].cg_statements@, a.scopes@[i].cg_statements@)
    } by {
        assert(same_scope_shape(b.scopes@[i], a.scopes@[i]));
        assert(same_scope_shape(c.scopes@[i], b.scopes@[i]));
        let x = a.scopes@[i].cg_statements@;
        let y = b.scopes@[i].cg_statements@;
        let z = c.scopes@[i].cg_statements@;
        assert forall|j: int| 0 <= j < x.len() implies z[j] == x[j] by {
            assert(y[j] == x[j]);
            assert(z[j] == y[j]);
        }
    }
    assert forall|j: int| 0 <= j < a.errors@.len() implies c.errors@[j] == a.errors@[j] by {
        assert(b.errors@[j] == a.errors@[j]);
    }
}

/// Two program states with the same scopes and functions.
pub open spec fn same_frames(a: ProgramData, b: ProgramData) -> bool {
    a.scopes == b.scopes && a.functions == b.functions
}

/// Where a name lives depends only on the scopes and functions.
pub proof fn lemma_lowered_identifier_same(a: ProgramData, b: ProgramData, s: int, name: Seq<char>)
    requires
        same_frames(a, b),
    ensures
        lowered_identifier(a, s, name) == lowered_identifier(b, s, name),
{
    lemma_var_scope_same(a, b, s, name);
    match a.var_scope(s, name) {
        Some(j) => {
            lemma_ancestors_shape(&a, &b, j);
        },
        None => {},
    }
}

pub proof fn lemma_var_scope_same(a: ProgramData, b: ProgramData, i: int, name: Seq<char>)
    requires
        same_frames(a, b),
    ensures
        a.var_scope(i, name) == b.var_scope(i, name),
    decreases i,
{
    if 0 <= i < a.scopes@.len() && !a.scopes@[i].variables.contains(name) && a.scopes@[i].parent != NO_PARENT
        && a.scopes@[i].parent < i {
        lemma_var_scope_same(a, b, a.scopes@[i].parent as int, name);
    }
}

/// Lowering depends only on the scopes and functions.
pub proof fn lemma_cg_expression_same(a: ProgramData, b: ProgramData, s: int, e: Expression)
    requires
        same_frames(a, b),
    ensures
        cg_expression(a, s, e) == cg_expression(b, s, e),
    decreases e,
{
    match e {
        Expression::Identifier(Identifiers::Identifier(name)) => {
            lemma_lowered_identifier_same(a, b, s, name@);
        },
        Expression::ArrayIndex(ai) => {
            lemma_lowered_identifier_same(a, b, s, ai.identifier@);
            lemma_cg_expression_same(a, b, s, *ai.index);
        },
        _ => {},
    }
}

/// Suitability depends only on the scopes and functions.
pub proof fn lemma_item_valid_same(a: ProgramData, b: ProgramData, s: int, e: Expression, t: VariableType)
    requires
        same_frames(a, b),
    ensures
        item_valid(a, s, e, t) == item_valid(b, s, e, t),
    decreases e, 1nat,
{
    match e {
        Expression::Literal(Literal::Array(arr)) => match t {
            VariableType::Array(at) => {
                broadcast use vstd::std_specs::vec::axiom_vec_decreases_to_view;
                assert(decreases_to!(arr.items => arr.items@));
                lemma_items_valid_same(a, b, s, arr.items@, *at.variable_type);
            },
            _ => {},
        },
        Expression::Identifier(Identifiers::Identifier(name)) => {
            lemma_lowered_identifier_same(a, b, s, name@);
        },
        Expression::ArrayIndex(ai) => {
            lemma_lowered_identifier_same(a, b, s, ai.identifier@);
            lemma_cg_expression_same(a, b, s, *ai.index);
        },
        _ => {},
    }
}

pub proof fn lemma_items_valid_same(a: ProgramData, b: ProgramData, s: int, items: Seq<Expression>, t: VariableType)
    requires
        same_frames(a, b),
    ensures
        items_valid(a, s, items, t) == items_valid(b, s, items, t),
    decreases items, 0nat,
{
    if items.len() > 0 {
        assert(decreases_to!(items => items[0]));
        assert(decreases_to!(items => items.subrange(1, items.len() as int)));
        lemma_item_valid_same(a, b, s, items[0], t);
        lemma_items_valid_same(a, b, s, items.subrange(1, items.len() as int), t);
    }
}

/// Whether a lowered value suits a type depends only on the scopes and functions.
pub proof fn lemma_valid_for_same(a: ProgramData, b: ProgramData, s: int, e: CgExpression, t: VariableType)
    requires
        same_frames(a, b),
    ensures
        valid_for(a, s, e, t) == valid_for(b, s, e, t),
{
    match e {
        CgExpression::Literal(Literal::Array(arr)) => match t {
            VariableType::Array(at) => {
                lemma_items_valid_same(a, b, s, arr.items@, *at.variable_type);
            },
            _ => {},
        },
        _ => {},
    }
}

/// The argument `a` lowers, seen from scope `s`.
pub open spec fn arg_lowers(pd: ProgramData, s: int, a: Expression) -> bool {
    cg_expression(pd, s, a) is Some
}

/// The argument `a`, if it lowers, suits the parameter `p`.
pub open spec fn arg_suits(pd: ProgramData, s: int, p: FunctionArg, a: Expression) -> bool {
    match cg_expression(pd, s, a) {
        Some(c) => valid_for(pd, s, c, p.arg_var_type),
        None => true,
    }
}

/// The first argument from `from` on that lowers but does not suit its parameter.
pub open spec fn first_unsuitable(pd: ProgramData, s: int, params: Seq<FunctionArg>, args: Seq<Expression>, from: int) -> Option<int>
    decreases args.len() - from,
{
    if from < 0 || from >= args.len() {
        None
    } else if !arg_suits(pd, s, params[from], args[from]) {
        Some(from)
    } else {
        first_unsuitable(pd, s, params, args, from + 1)
    }
}

pub proof fn lemma_first_unsuitable(pd: ProgramData, s: int, params: Seq<FunctionArg>, args: Seq<Expression>, from: int)
    requires
        0 <= from <= args.len(),
    ensures
        first_unsuitable(pd, s, params, args, from) is None <==> forall|k: int|
            from <= k < args.len() ==> arg_suits(pd, s, params[k], #[trigger] args[k]),
        first_unsuitable(pd, s, params, args, from) matches Some(k) ==> from <= k < args.len() && !arg_suits(
            pd,
            s,
            params[k],
            args[k],
        ),
    decreases args.len() - from,
{
    if from < args.len() {
        lemma_first_unsuitable(pd, s, params, args, from + 1);
    }
}

/// The first unsuitable argument is the one after a run of suitable ones.
pub proof fn lemma_first_unsuitable_at(pd: ProgramData, s: int, params: Seq<FunctionArg>, args: Seq<Expression>, from: int, i: int)
    requires
        0 <= from <= i < args.len(),
        forall|k: int| from <= k < i ==> arg_suits(pd, s, params[k], #[trigger] args[k]),
        !arg_suits(pd, s, params[i], args[i]),
    ensures
        first_unsuitable(pd, s, params, args, from) == Some(i),
    decreases i - from,
{
    if from < i {
        lemma_first_unsuitable_at(pd, s, params, args, from + 1, i);
    }
}

/// The outcome of lowering the call `bl` of scope `s`. An unknown function or a wrong
/// number of arguments is reported and lowers nothing. Otherwise the arguments are lowered
/// in order: one that does not lower is reported and left out, and the first that lowers but
/// does not suit its parameter is reported and stops the lowering; when none stops it, the
/// call with the lowered arguments is appended to scope `s`.
pub open spec fn call_lowered(new: ProgramData, old: ProgramData, s: int, bl: BranchLinkedAst) -> bool {
    let before = old.scopes@[s].cg_statements@;
    let after = new.scopes@[s].cg_statements@;
    let n = bl.args@.len();
    &&& forall|t: int|
        0 <= t < old.scopes@.len() && t != s ==> #[trigger] new.scopes@[t].cg_statements@
            == old.scopes@[t].cg_statements@
    &&& match old.functions.lookup(bl.function_name@) {
        None => after == before && new.errors@.len() == old.errors@.len() + 1 && new.errors@.last()@ == message(
            ErrorKind::UnknownIdentifier,
            seq![debug_quoted(bl.function_name@)],
        ),
        Some(f) => if f.args@.len() != n {
            after == before && new.errors@.len() == old.errors@.len() + 1 && new.errors@.last()@ == message(
                ErrorKind::ArgumentCountMismatch,
                seq![
                    debug_quoted(nat_decimal(f.args@.len())),
                    debug_quoted(nat_decimal(n)),
                    debug_quoted(bl.function_name@),
                ],
            )
        } else {
            match first_unsuitable(old, s, f.args@, bl.args@, 0) {
                Some(k) => after == before && new.errors@.len() > old.errors@.len() && new.errors@.last()@ == message(
                    ErrorKind::VariableTypeMismatchExpected,
                    seq![f.args@[k].arg_var_type.spec_debug_text()],
                ),
                None => {
                    &&& pushed_one(after, before)
                    &&& after.last().statement_type matches CgStatementType::BuiltInFunction(
                        CgBuiltInFunctions::BranchLinked(cbl),
                    )
                    &&& cbl.function_name == bl.function_name
                    &&& (new.errors == old.errors <==> forall|k: int|
                        0 <= k < n ==> arg_lowers(old, s, #[trigger] bl.args@[k]))
                    &&& (new.errors == old.errors ==> {
                        &&& cbl.args@.len() == n
                        &&& forall|k: int|
                            0 <= k < n ==> {
                                &&& valid_for(old, s, #[trigger] cbl.args@[k], f.args@[k].arg_var_type)
                                &&& !(cg_expression(old, s, bl.args@[k]) matches Some(
                                    CgExpression::Literal(Literal::Array(_)),
                                )) ==> cbl.args@[k] == cg_expression(old, s, bl.args@[k])->0
                            }
                    })
                },
            }
        },
    }
}

/// How many of `conds` branch to scope `t`.
pub open spec fn branch_count(conds: Seq<CmpCondition>, t: int) -> nat
    decreases conds.len(),
{
    if conds.len() == 0 {
        0
    } else {
        branch_count(conds.drop_last(), t) + if conds.last().scope == t {
            1nat
        } else {
            0nat
        }
    }
}

pub proof fn lemma_branch_count_step(conds: Seq<CmpCondition>, j: int, t: int)
    requires
        0 <= j < conds.len(),
    ensures
        branch_count(conds.take(j + 1), t) == branch_count(conds.take(j), t) + if conds[j].scope == t {
            1nat
        } else {
            0nat
        },
{
    assert(conds.take(j + 1).drop_last() =~= conds.take(j));
}

/// A jump to `label`.
pub open spec fn is_branch_to(st: CgStatement, label: Seq<char>) -> bool {
    st.statement_type matches CgStatementType::BuiltInFunction(CgBuiltInFunctions::Branch(b)) && b.branch_name@ == label
}

/// No scope's lowered statements changed.
pub open spec fn same_lowered(new: ProgramData, old: ProgramData) -> bool {
    &&& new.scopes@.len() == old.scopes@.len()
    &&& forall|t: int| 0 <= t < old.scopes@.len() ==> #[trigger] new.scopes@[t].cg_statements@ == old.scopes@[t].cg_statements@
}

/// Every condition names an existing scope.
pub open spec fn targets_exist(pd: ProgramData, conds: Seq<CmpCondition>) -> bool {
    forall|k: int| 0 <= k < conds.len() ==> (#[trigger] conds[k]).scope < pd.scopes@.len()
}

/// The outcome of lowering the compare `c` of scope `s`, the label counter going from
/// `old_num` to `new_num`. When both operands lower and every condition names a scope, each
/// condition's scope gets a jump to a fresh exit label at its end and scope `s` gets the
/// lowered compare; otherwise nothing is lowered and an unknown error is the last error.
pub open spec fn compare_lowered(new: ProgramData, old: ProgramData, s: int, c: Compare, new_num: nat, old_num: nat) -> bool {
    let e0 = cg_expression(old, s, c.expressions[0]);
    let e1 = cg_expression(old, s, c.expressions[1]);
    let conds = c.conditions@;
    if e0 is Some && e1 is Some && targets_exist(old, conds) {
        let label = compare_label(old, s, new_num);
        &&& new_num == if old_num < usize::MAX {
            old_num + 1
        } else {
            old_num
        }
        &&& new.errors == old.errors
        &&& forall|t: int|
            0 <= t < old.scopes@.len() ==> {
                let before = old.scopes@[t].cg_statements@;
                let after = #[trigger] new.scopes@[t].cg_statements@;
                &&& after.len() == before.len() + branch_count(conds, t) + if t == s {
                    1nat
                } else {
                    0nat
                }
                &&& forall|i: int|
                    before.len() <= i < before.len() + branch_count(conds, t) ==> is_branch_to(#[trigger] after[i], label)
            }
        &&& new.scopes@[s].cg_statements@.last().statement_type matches CgStatementType::Compare(cc)
        &&& cc.expressions[0] == e0->0
        &&& cc.expressions[1] == e1->0
        &&& cc.new_exit_label@ == label
        &&& cc.conditions@.len() == conds.len()
        &&& forall|k: int|
            0 <= k < conds.len() ==> (#[trigger] cc.conditions@[k]).condition_type == conds[k].condition_type
                && cc.conditions@[k].scope == conds[k].scope && copies_of(cc.conditions@[k].body@, conds[k].body@)
    } else {
        &&& new_num == old_num
        &&& same_lowered(new, old)
        &&& new.errors@.len() > old.errors@.len()
        &&& new.errors@.last()@ == ErrorKind::Unknown.spec_template()
    }
}

/// The label a compare in scope `s` exits to: the function's name for its outermost scope,
/// else the scope's number, then `_` and the label number.
pub open spec fn compare_label(pd: ProgramData, s: int, n: nat) -> Seq<char> {
    (if pd.scopes@[s].parent == NO_PARENT {
        pd.scopes@[s].function@
    } else {
        nat_decimal(s as nat)
    }) + "_"@ + nat_decimal(n)
}

/// Whether the expression `e` matches the type `t`, seen from scope `s`: a number an integer
/// type, an array literal an array type whose item type each item matches (each item
/// lowering), a name a value of the same type.
pub open spec fn type_matches(pd: ProgramData, s: int, t: VariableType, e: Expression) -> bool
    decreases e, 1nat,
{
    match e {
        Expression::Literal(Literal::Number(_)) => t.is_number(),
        Expression::Literal(Literal::Array(a)) => match t {
            VariableType::Array(at) => {
                proof {
                    broadcast use vstd::std_specs::vec::axiom_vec_decreases_to_view;
                    assert(decreases_to!(a.items => a.items@));
                }
                items_match(pd, s, *at.variable_type, a.items@)
            },
            _ => false,
        },
        Expression::Identifier(Identifiers::Identifier(name)) => lowered_identifier(pd, s, name@) matches Some(d)
            && d.variable_type == t,
        _ => false,
    }
}

/// Whether every one of `items` matches the type `t` and lowers.
pub open spec fn items_match(pd: ProgramData, s: int, t: VariableType, items: Seq<Expression>) -> bool
    decreases items, 0nat,
{
    if items.len() == 0 {
        true
    } else {
        proof {
            assert(decreases_to!(items => items[0]));
            assert(decreases_to!(items => items.subrange(1, items.len() as int)));
        }
        type_matches(pd, s, t, items[0]) && cg_expression(pd, s, items[0]) is Some && items_match(
            pd,
            s,
            t,
            items.subrange(1, items.len() as int),
        )
    }
}

/// Items match one by one.
pub proof fn lemma_items_match(pd: ProgramData, s: int, t: VariableType, items: Seq<Expression>)
    ensures
        items_match(pd, s, t, items) <==> forall|k: int|
            0 <= k < items.len() ==> type_matches(pd, s, t, #[trigger] items[k]) && cg_expression(pd, s, items[k]) is Some,
    decreases items.len(),
{
    if items.len() > 0 {
        let rest = items.subrange(1, items.len() as int);
        lemma_items_match(pd, s, t, rest);
        assert forall|k: int| 1 <= k < items.len() implies items[k] == rest[k - 1] by {}
        if forall|k: int| 0 <= k < items.len() ==> type_matches(pd, s, t, #[trigger] items[k]) && cg_expression(pd, s, items[k]) is Some {
            assert(type_matches(pd, s, t, items[0]));
            assert forall|k: int| 0 <= k < rest.len() implies type_matches(pd, s, t, #[trigger] rest[k]) && cg_expression(pd, s, rest[k]) is Some by {
                assert(rest[k] == items[k + 1]);
                assert(type_matches(pd, s, t, items[k + 1]));
            }
        }
        if items_match(pd, s, t, items) {
            assert forall|k: int| 0 <= k < items.len() implies type_matches(pd, s, t, #[trigger] items[k]) && cg_expression(pd, s, items[k]) is Some by {
                if k > 0 {
                    assert(rest[k - 1] == items[k]);
                    assert(type_matches(pd, s, t, rest[k - 1]));
                }
            }
        }
    }
}

/// `before` is a prefix of `after`.
pub open spec fn seq_grows<T>(after: Seq<T>, before: Seq<T>) -> bool {
    &&& before.len() <= after.len()
    &&& forall|i: int| 0 <= i < before.len() ==> after[i] == before[i]
}

/// `before` with one more item at the end.
pub open spec fn pushed_one<T>(after: Seq<T>, before: Seq<T>) -> bool {
    &&& after.len() == before.len() + 1
    &&& forall|i: int| 0 <= i < before.len() ==> after[i] == before[i]
}

/// Ancestors' allocations agree when parents and allocations agree.
pub proof fn lemma_ancestors_shape(a: &ProgramData, b: &ProgramData, i: int)
    requires
        a.scopes@.len() == b.scopes@.len(),
        forall|j: int|
            0 <= j < a.scopes@.len() ==> (#[trigger] a.scopes@[j]).parent == b.scopes@[j].parent
                && a.scopes@[j].stack_mem_allocated == b.scopes@[j].stack_mem_allocated,
    ensures
        a.ancestors_alloc(i) == b.ancestors_alloc(i),
    decreases i,
{
    if 0 <= i < a.scopes@.len() && a.scopes@[i].parent != NO_PARENT && a.scopes@[i].parent < i {
        let p = a.scopes@[i].parent as int;
        assert(a.scopes@[p].stack_mem_allocated == b.scopes@[p].stack_mem_allocated);
        lemma_ancestors_shape(a, b, p);
    }
}

/// Changing only statement lists of scopes, or the errors, keeps the program sound.
pub proof fn lemma_same_shape_wf(new: &ProgramData, old: &ProgramData)
    requires
        old.wf(),
        new.functions == old.functions,
        new.scopes@.len() == old.scopes@.len(),
        forall|i: int| 0 <= i < old.scopes@.len() ==> same_scope_shape(#[trigger] new.scopes@[i], old.scopes@[i]),
    ensures
        new.wf(),
{
    lemma_same_shape(new, old);
    reveal(ProgramData::frames_wf);
    assert forall|i: int| 0 <= i < new.scopes@.len() implies #[trigger] new.ancestors_alloc(i)
        + new.scopes@[i].stack_mem_allocated <= new.function_of(i).stack_mem_allocated by {
        assert(same_scope_shape(new.scopes@[i], old.scopes@[i]));
        lemma_ancestors_shape(new, old, i);
        assert(old.ancestors_alloc(i) + old.scopes@[i].stack_mem_allocated <= old.function_of(i).stack_mem_allocated);
    }
}

/// Fills the `{}` of `template` with `texts`, left to right, and keeps the rest of the
/// template; nothing when the template is malformed or not ASCII.
pub fn fill_format(template: &str, texts: &Vec<String>) -> (r: Option<String>)
    ensures
        r is Some <==> (all_ascii(template@) && format_fill(template@, texts@.map_values(|t: String| t@)) is Some),
        r matches Some(x) ==> x@ == format_fill(template@, texts@.map_values(|t: String| t@))->0,
{
    let cs = chars_of(template);
    let ghost tv = texts@.map_values(|t: String| t@);
    let mut result = String::new();
    let mut position: usize = 0;
    let mut k: usize = 0;
    assert(cs@.skip(0) =~= cs@);
    assert(tv.skip(0) =~= tv);
    loop
        invariant
            cs@ == template@,
            tv == texts@.map_values(|t: String| t@),
            position <= cs@.len(),
            k <= texts@.len(),
            format_fill(cs@, tv) == prefixed(result@, format_fill(cs@.skip(position as int), tv.skip(k as int))),
        ensures
            cs@ == template@,
            position <= cs@.len(),
            k == texts@.len(),
            format_fill(cs@, tv) == prefixed(result@, format_fill(cs@.skip(position as int), tv.skip(k as int))),
        decreases cs@.len() - position,
    {
        if k >= texts.len() {
            break;
        }
        let ghost rest = cs@.skip(position as int);
        let ghost trest = tv.skip(k as int);
        if position >= cs.len() {
            assert(rest.len() == 0);
            return None;
        }
        if cs[position] == '{' {
            if position + 1 < cs.len() && cs[position + 1] == '}' {
                assert(rest[0] == '{' && rest[1] == '}');
                assert(rest.skip(2) =~= cs@.skip(position + 2));
                assert(trest.drop_first() =~= tv.skip(k + 1));
                assert(trest[0] == texts@[k as int]@);
                push_str(&mut result, texts[k].as_str());
                position = position + 2;
                k = k + 1;
            } else {
                assert(rest[0] == '{');
                return None;
            }
        } else {
            assert(rest[0] == cs@[position as int]);
            assert(rest.skip(1) =~= cs@.skip(position + 1));
            push_char(&mut result, cs[position]);
            position = position + 1;
        }
    }
    assert(tv.skip(k as int).len() == 0);
    let mut j: usize = 0;
    while j < cs.len()
        invariant
            j <= cs@.len(),
            cs@ == template@,
            forall|i: int| 0 <= i < j ==> (cs@[i] as u32) < 128,
        decreases cs@.len() - j,
    {
        if (cs[j] as u32) >= 128 {
            assert(!all_ascii(template@)) by {
                assert((template@[j as int] as u32) >= 128);
            }
            return None;
        }
        j = j + 1;
    }
    let ghost before = result@;
    let ghost start = position;
    while position < cs.len()
        invariant
            position <= cs@.len(),
            result@ + cs@.skip(position as int) == before + cs@.skip(start as int),
        decreases cs@.len() - position,
    {
        assert(cs@.skip(position as int) =~= seq![cs@[position as int]] + cs@.skip(position + 1));
        push_char(&mut result, cs[position]);
        position = position + 1;
    }
    assert(cs@.skip(position as int).len() == 0);
    Some(result)
}

impl BuiltInFunctionsAst {
    /// Evaluates a built-in function used as a value, seen from `scope`: `stack_offset(x)` to
    /// the number of bytes from `sp` to `x`, `format(..)` to its filled template. Nothing for a
    /// name that is not visible, a malformed or non-ASCII template, or another function.
    pub fn parse(&self, program_data: &ProgramData, scope: usize) -> (r: Option<Literal>)
        requires
            reads_names(*self) ==> program_data.wf() && scope < program_data.scopes@.len(),
        ensures
            r is Some <==> builtin_text(*program_data, scope as int, *self) is Some,
            r matches Some(l) ==> l.is_printable() && l.spec_to_string() == builtin_text(*program_data, scope as int, *self)->0,
            self is StackOffset ==> (r matches Some(l) ==> l is Number),
            self is Format ==> (r matches Some(l) ==> l is String),
        decreases self,
    {
        match self {
            BuiltInFunctionsAst::StackOffset(identifier) => {
                if let Some(var) = program_data.get_stack_variable_ref(scope, identifier.as_str()) {
                    Some(Literal::Number(var.local_offset as i64))
                } else if let Some(arg) = program_data.get_function_stack_arg_ref(scope, identifier.as_str()) {
                    Some(Literal::Number(arg.local_offset as i64))
                } else {
                    None
                }
            },
            BuiltInFunctionsAst::Format(format) => {
                let ghost args = format.args_provided@;
                proof {
                    lemma_format_args_text(*program_data, scope as int, args);
                    lemma_args_read_names(args);
                }
                let mut texts: Vec<String> = Vec::new();
                let mut k: usize = 0;
                while k < format.args_provided.len()
                    invariant
                        reads_names(*self) ==> program_data.wf() && scope < program_data.scopes@.len(),
                        forall|j: int| 0 <= j < args.len() && #[trigger] arg_reads_names(args[j]) ==> reads_names(*self),
                        args == format.args_provided@,
                        *self == BuiltInFunctionsAst::Format(*format),
                        k <= args.len(),
                        texts@.len() == k,
                        forall|j: int| 0 <= j < k ==> (#[trigger] arg_text(*program_data, scope as int, args[j])) is Some
                            && texts@[j]@ == arg_text(*program_data, scope as int, args[j])->0,
                    decreases args.len() - k,
                {
                    proof {
                        broadcast use vstd::std_specs::vec::axiom_vec_index_decreases;
                        assert(decreases_to!(format.args_provided => format.args_provided[k as int]));
                    }
                    let text = match &format.args_provided[k] {
                        Expression::Literal(Literal::Number(n)) => i64_to_string(*n),
                        Expression::Literal(Literal::String(x)) => x.clone(),
                        Expression::BuiltInFunction(f) => {
                            proof {
                                assert(decreases_to!(format.args_provided[k as int] => *f));
                                assert(arg_reads_names(args[k as int]) == reads_names(*f));
                            }
                            match f.parse(program_data, scope) {
                                Some(l) => l.to_string(),
                                None => {
                                    proof {
                                        lemma_format_args_text(*program_data, scope as int, args);
                                    }
                                    assert(arg_text(*program_data, scope as int, args[k as int]) is None);
                                    return None;
                                },
                            }
                        },
                        _ => {
                            proof {
                                lemma_format_args_text(*program_data, scope as int, args);
                            }
                            assert(arg_text(*program_data, scope as int, args[k as int]) is None);
                            return None;
                        },
                    };
                    texts.push(text);
                    k = k + 1;
                }
                let ghost tv = texts@.map_values(|t: String| t@);
                proof {
                    lemma_format_args_text(*program_data, scope as int, args);
                }
                assert(format_args_text(*program_data, scope as int, args) == Some(tv)) by {
                    assert(forall|j: int| 0 <= j < args.len() ==> (#[trigger] arg_text(*program_data, scope as int, args[j])) is Some);
                    assert(format_args_text(*program_data, scope as int, args) is Some);
                    let ts = format_args_text(*program_data, scope as int, args)->0;
                    assert(ts.len() == tv.len());
                    assert forall|j: int| 0 <= j < ts.len() implies ts[j] == tv[j] by {
                        assert(ts[j] == arg_text(*program_data, scope as int, args[j])->0);
                        assert(tv[j] == texts@[j]@);
                    }
                    assert(ts =~= tv);
                }
                match fill_format(format.string.as_str(), &texts) {
                    Some(text) => Some(Literal::String(text)),
                    None => None,
                }
            },
            _ => None,
        }
    }
}

/// What lowering the statement `st` of scope `s` does, taking the program from `old` (with
/// label counter `old_num`) to `new` (with `new_num`): a declaration with a value and an
/// assignment are filed as stores, a compare is lowered with a fresh exit label, `bl` becomes
/// a call and `asm` its code; any other statement changes nothing.
pub open spec fn statement_lowered(new: ProgramData, new_num: nat, old: ProgramData, old_num: nat, st: Statement, s: int) -> bool {
    &&& lowered_more(new, old)
    &&& (st.statement_type matches Statements::VariableDeclaration(d) ==> (d.value matches Some(v) ==> assigned(
        new,
        old,
        s,
        d.name@,
        v,
    )))
    &&& (st.statement_type matches Statements::Assignment(a) ==> (a.identifier matches Expression::Identifier(
        Identifiers::Identifier(name),
    ) ==> assigned(new, old, s, name@, a.value)))
    &&& (st.statement_type matches Statements::Assignment(a) ==> (a.identifier matches Expression::ArrayIndex(ai) ==> item_assigned(
        new,
        old,
        s,
        ai,
        a.value,
    )))
    &&& (st.statement_type matches Statements::Assignment(a) ==> (!(a.identifier matches Expression::Identifier(
        Identifiers::Identifier(_),
    )) && !(a.identifier is ArrayIndex) ==> {
        &&& new.scopes == old.scopes
        &&& new.errors@.last()@ == ErrorKind::Unknown.spec_template()
    }))
    &&& (st.statement_type matches Statements::Expression(Expression::BuiltInFunction(BuiltInFunctionsAst::Assembly(code)))
        ==> ({
        let before = old.scopes@[s].cg_statements@;
        let after = new.scopes@[s].cg_statements@;
        match *code {
            Expression::Literal(Literal::String(text)) => pushed_one(after, before) && after.last() == CgStatement {
                statement_type: CgStatementType::BuiltInFunction(CgBuiltInFunctions::Assembly(text)),
            },
            Expression::BuiltInFunction(f) => match builtin_text(old, s, f) {
                Some(t) => pushed_one(after, before) && (after.last().statement_type matches CgStatementType::BuiltInFunction(
                    CgBuiltInFunctions::Assembly(x),
                ) && x@ == t),
                None => after == before && new.errors@.len() == old.errors@.len() + 1 && new.errors@.last()@
                    == ErrorKind::Unknown.spec_template(),
            },
            _ => after == before && new.errors@.len() == old.errors@.len() + 1 && new.errors@.last()@
                == ErrorKind::Unknown.spec_template(),
        }
    }))
    &&& (!(st.statement_type is Compare) ==> new_num == old_num)
    &&& (!(st.statement_type is Compare || st.statement_type is Assignment || (st.statement_type matches Statements::VariableDeclaration(d)
        && d.value is Some) || st.statement_type matches Statements::Expression(
        Expression::BuiltInFunction(BuiltInFunctionsAst::BranchLinked(_)),
    ) || st.statement_type matches Statements::Expression(Expression::BuiltInFunction(BuiltInFunctionsAst::Assembly(_))))
        ==> new == old)
    &&& (st.statement_type matches Statements::Compare(c) ==> compare_lowered(new, old, s, c, new_num, old_num))
    &&& (st.statement_type matches Statements::Expression(Expression::BuiltInFunction(BuiltInFunctionsAst::BranchLinked(bl)))
        ==> call_lowered(new, old, s, bl))
}

/// Lowering the statements `stmts` of scope `s` one after the other, in order, takes the
/// program from `old` to `new`.
pub open spec fn statements_lowered(
    new: ProgramData,
    new_num: nat,
    old: ProgramData,
    old_num: nat,
    stmts: Seq<Statement>,
    s: int,
) -> bool
    decreases stmts.len(),
{
    if stmts.len() == 0 {
        new == old && new_num == old_num
    } else {
        exists|mid: ProgramData, mid_num: nat|
            statements_lowered(mid, mid_num, old, old_num, stmts.drop_last(), s) && #[trigger] statement_lowered(
                new,
                new_num,
                mid,
                mid_num,
                stmts.last(),
                s,
            )
    }
}

/// Lowering scope `s` takes the program from `old` to `new`: the statements of `s` are
/// lowered in order, each from a copy of it.
pub open spec fn scope_lowered(new: ProgramData, new_num: nat, old: ProgramData, old_num: nat, s: int) -> bool {
    exists|copies: Seq<Statement>|
        #![trigger statements_lowered(new, new_num, old, old_num, copies, s)]
        copies_of(copies, old.scopes@[s].statements@) && statements_lowered(new, new_num, old, old_num, copies, s)
}

/// Lowering the scopes `order` one after the other takes the program from `old` to `new`.
pub open spec fn scopes_lowered(new: ProgramData, new_num: nat, old: ProgramData, old_num: nat, order: Seq<int>) -> bool
    decreases order.len(),
{
    if order.len() == 0 {
        new == old && new_num == old_num
    } else {
        exists|mid: ProgramData, mid_num: nat|
            scopes_lowered(mid, mid_num, old, old_num, order.drop_last()) && #[trigger] scope_lowered(
                new,
                new_num,
                mid,
                mid_num,
                order.last(),
            )
    }
}

/// The scopes that lowering scope `s` with its nested scopes goes through, in order: the
/// scopes of each child, child by child, then `s` itself.
pub open spec fn lowering_order(pd: ProgramData, s: int) -> Seq<int>
    decreases pd.scopes@.len() - s, pd.scopes@[s].children@.len() + 1,
{
    if 0 <= s < pd.scopes@.len() {
        children_order(pd, s, pd.scopes@[s].children@.len() as int).push(s)
    } else {
        seq![]
    }
}

/// The scopes that lowering the first `k` children of scope `s` goes through, in order.
pub open spec fn children_order(pd: ProgramData, s: int, k: int) -> Seq<int>
    decreases pd.scopes@.len() - s, k,
{
    if k <= 0 || s < 0 || s >= pd.scopes@.len() || k > pd.scopes@[s].children@.len() {
        seq![]
    } else {
        let before = children_order(pd, s, k - 1);
        let c = pd.scopes@[s].children@[k - 1] as int;
        if s < c < pd.scopes@.len() {
            before + lowering_order(pd, c)
        } else {
            before
        }
    }
}

/// The scopes that lowering the first `k` functions goes through, in order.
pub open spec fn functions_order(pd: ProgramData, k: int) -> Seq<int>
    decreases k,
{
    if k <= 0 {
        seq![]
    } else {
        functions_order(pd, k - 1) + lowering_order(pd, pd.functions.value_at(k - 1).first_scope as int)
    }
}

/// Lowering `a` and then `b` is lowering `a + b`.
pub proof fn lemma_scopes_lowered_append(
    new: ProgramData,
    new_num: nat,
    mid: ProgramData,
    mid_num: nat,
    old: ProgramData,
    old_num: nat,
    a: Seq<int>,
    b: Seq<int>,
)
    requires
        scopes_lowered(mid, mid_num, old, old_num, a),
        scopes_lowered(new, new_num, mid, mid_num, b),
    ensures
        scopes_lowered(new, new_num, old, old_num, a + b),
    decreases b.len(),
{
    if b.len() == 0 {
        assert(a + b =~= a);
    } else {
        let (m, mn) = choose|m: ProgramData, mn: nat|
            scopes_lowered(m, mn, mid, mid_num, b.drop_last()) && #[trigger] scope_lowered(new, new_num, m, mn, b.last());
        lemma_scopes_lowered_append(m, mn, mid, mid_num, old, old_num, a, b.drop_last());
        assert((a + b).drop_last() =~= a + b.drop_last());
        assert((a + b).last() == b.last());
        assert(scope_lowered(new, new_num, m, mn, (a + b).last()));
    }
}

/// The lowering order depends only on how the scopes nest.
pub proof fn lemma_lowering_order_same(a: ProgramData, b: ProgramData, s: int)
    requires
        a.scopes@.len() == b.scopes@.len(),
        forall|i: int| 0 <= i < a.scopes@.len() ==> (#[trigger] a.scopes@[i]).children == b.scopes@[i].children,
    ensures
        lowering_order(a, s) == lowering_order(b, s),
    decreases a.scopes@.len() - s, a.scopes@[s].children@.len() + 1,
{
    if 0 <= s < a.scopes@.len() {
        assert(a.scopes@[s].children == b.scopes@[s].children);
        lemma_children_order_same(a, b, s, a.scopes@[s].children@.len() as int);
    }
}

/// The order of the children's scopes depends only on how the scopes nest.
pub proof fn lemma_children_order_same(a: ProgramData, b: ProgramData, s: int, k: int)
    requires
        a.scopes@.len() == b.scopes@.len(),
        forall|i: int| 0 <= i < a.scopes@.len() ==> (#[trigger] a.scopes@[i]).children == b.scopes@[i].children,
    ensures
        children_order(a, s, k) == children_order(b, s, k),
    decreases a.scopes@.len() - s, k,
{
    if 0 <= s < a.scopes@.len() {
        assert(a.scopes@[s].children == b.scopes@[s].children);
    }
    if k <= 0 || s < 0 || s >= a.scopes@.len() || k > a.scopes@[s].children@.len() {
    } else {
        lemma_children_order_same(a, b, s, k - 1);
        let c = a.scopes@[s].children@[k - 1] as int;
        if s < c < a.scopes@.len() {
            lemma_lowering_order_same(a, b, c);
        }
    }
}

pub struct SemanticAnaytis {
    pub program_data: ProgramData,
    pub random_label_num: usize,
}

impl SemanticAnaytis {
    pub open spec fn wf(&self) -> bool {
        self.program_data.wf()
    }

    /// Only the error list changes, and it only grows.
    pub open spec fn only_errors(&self, old: &SemanticAnaytis) -> bool {
        &&& self.program_data.scopes == old.program_data.scopes
        &&& self.program_data.functions == old.program_data.functions
        &&& self.program_data.statements == old.program_data.statements
        &&& self.program_data.tokens == old.program_data.tokens
        &&& self.program_data.source_code == old.program_data.source_code
        &&& self.program_data.source_codes == old.program_data.source_codes
        &&& old.program_data.errors@.len() <= self.program_data.errors@.len()
        &&& forall|i: int| 0 <= i < old.program_data.errors@.len() ==> self.program_data.errors@[i] == old.program_data.errors@[i]
        &&& self.random_label_num == old.random_label_num
    }

    pub fn new(program_data: ProgramData) -> (r: Self)
        ensures
            r.program_data == program_data,
            r.random_label_num == 0,
    {
        SemanticAnaytis { program_data, random_label_num: 0 }
    }

    /// Records `err`.
    pub fn handle_error(&mut self, err: &str)
        requires
            old(self).wf(),
        ensures
            final(self).wf(),
            final(self).only_errors(old(self)),
            final(self).program_data.errors@.len() == old(self).program_data.errors@.len() + 1,
            final(self).program_data.errors@.last()@ == err@,
    {
        let ghost old_pd = self.program_data;
        self.program_data.errors.push(err.to_owned());
        proof {
            lemma_same_shape_wf(&self.program_data, &old_pd);
        }
    }

    /// The next label number.
    pub fn get_random_label_num(&mut self) -> (r: usize)
        ensures
            final(self).program_data == old(self).program_data,
            r == if old(self).random_label_num < usize::MAX {
                old(self).random_label_num + 1
            } else {
                old(self).random_label_num as int
            },
            r == final(self).random_label_num,
    {
        if self.random_label_num < usize::MAX {
            self.random_label_num = self.random_label_num + 1;
        }
        self.random_label_num
    }

    /// Appends `statement` to the lowered statements of `scope`.
    pub fn add_cg_statement_to_scope(&mut self, scope: usize, statement: CgStatement)
        requires
            old(self).wf(),
            scope < old(self).program_data.scopes@.len(),
        ensures
            final(self).wf(),
            final(self).random_label_num == old(self).random_label_num,
            final(self).program_data.functions == old(self).program_data.functions,
            final(self).program_data.errors == old(self).program_data.errors,
            final(self).program_data.statements == old(self).program_data.statements,
            final(self).program_data.tokens == old(self).program_data.tokens,
            final(self).program_data.source_code == old(self).program_data.source_code,
            final(self).program_data.source_codes == old(self).program_data.source_codes,
            final(self).program_data.scopes@.len() == old(self).program_data.scopes@.len(),
            forall|i: int|
                0 <= i < old(self).program_data.scopes@.len() && i != scope ==> #[trigger] final(self).program_data.scopes@[i]
                    == old(self).program_data.scopes@[i],
            same_scope_shape(final(self).program_data.scopes@[scope as int], old(self).program_data.scopes@[scope as int]),
            final(self).program_data.scopes@[scope as int].statements == old(self).program_data.scopes@[scope as int].statements,
            final(self).program_data.scopes@[scope as int].cg_statements@ == old(self).program_data.scopes@[scope as int].cg_statements@.push(statement),
    {
        let ghost old_pd = self.program_data;
        self.program_data.get_scope_by_index_mut(scope).cg_statements.push(statement);
        proof {
            lemma_same_shape_wf(&self.program_data, &old_pd);
        }
    }

    /// The variable `variable_name` as seen from `scope`: declared there or in an enclosing scope.
    pub fn get_stack_variable(&self, scope: usize, variable_name: &str) -> (r: Option<StackVariable>)
        requires
            self.wf(),
            scope < self.program_data.scopes@.len(),
        ensures
            r is Some <==> self.program_data.var_scope(scope as int, variable_name@) is Some,
            r matches Some(v) ==> v == self.program_data.scopes@[self.program_data.var_scope(
                scope as int,
                variable_name@,
            )->0].variables.lookup(variable_name@)->0,
        decreases scope,
    {
        proof {
            self.program_data.lemma_tree_scope(scope as int);
        }
        let scope_borrow = self.program_data.get_scope_by_index(scope);
        match scope_borrow.variables.get(variable_name) {
            Some(var) => Some(var.duplicate()),
            None => {
                if scope_borrow.parent == NO_PARENT {
                    None
                } else {
                    self.get_stack_variable(scope_borrow.parent, variable_name)
                }
            },
        }
    }

    /// The variable `variable_name` declared in `scope` itself.
    pub fn borrow_stack_variable_with_scope_index(&self, scope: usize, variable_name: String) -> (r: Option<&StackVariable>)
        requires
            self.wf(),
            scope < self.program_data.scopes@.len(),
        ensures
            r is Some <==> self.program_data.scopes@[scope as int].variables.contains(variable_name@),
            r matches Some(v) ==> self.program_data.scopes@[scope as int].variables.lookup(variable_name@) == Some(*v),
    {
        proof {
            self.program_data.lemma_tree_scope(scope as int);
        }
        self.program_data.get_scope_by_index(scope).variables.get(variable_name.as_str())
    }

    /// Lowers `expression` as seen from `scope`; an unknown name, a name indexed that is no
    /// array, or an expression that is no value is an error.
    pub fn expression_to_cg(&mut self, scope: usize, expression: Expression) -> (r: Option<CgExpression>)
        requires
            old(self).wf(),
            scope < old(self).program_data.scopes@.len(),
        ensures
            final(self).wf(),
            final(self).only_errors(old(self)),
            r == cg_expression(old(self).program_data, scope as int, expression),
            r is Some ==> final(self).program_data == old(self).program_data,
            r is None ==> final(self).program_data.errors@.len() > old(self).program_data.errors@.len(),
            r is None ==> errors_added(
                final(self).program_data.errors@,
                old(self).program_data.errors@,
                lowering_errors(old(self).program_data, scope as int, expression),
            ),
        decreases expression,
    {
        match expression {
            Expression::Literal(literal) => Some(CgExpression::Literal(literal)),
            Expression::Identifier(Identifiers::Identifier(identifier)) => {
                if let Some(stack_var_ref) = self.program_data.get_stack_variable_ref(scope, identifier.as_str()) {
                    return Some(
                        CgExpression::Identifier(
                            CgIdentifiers::StackVariableData(
                                StackVariableData { offset: stack_var_ref.local_offset, variable_type: stack_var_ref.var.variable_type },
                            ),
                        ),
                    );
                } else if let Some(function_arg_ref) = self.program_data.get_function_stack_arg_ref(scope, identifier.as_str()) {
                    return Some(
                        CgExpression::Identifier(
                            CgIdentifiers::StackVariableData(
                                StackVariableData {
                                    offset: function_arg_ref.local_offset,
                                    variable_type: function_arg_ref.var.arg_var_type,
                                },
                            ),
                        ),
                    );
                }
                let msg = crate::datatypes::parser::message1(ErrorKind::UnknownIdentifier, crate::text::debug_quote(identifier.as_str()));
                self.handle_error(msg.as_str());
                None
            },
            Expression::ArrayIndex(arr_index) => {
                if let Some(stack_var_ref) = self.program_data.get_stack_variable_ref(scope, arr_index.identifier.as_str()) {
                    let is_array = match stack_var_ref.var.variable_type {
                        VariableType::Array(_) => true,
                        _ => false,
                    };
                    if !is_array {
                        let expected = VariableType::ArrayEmpty.type_string();
                        let found = stack_var_ref.var.variable_type.type_string();
                        let msg = crate::datatypes::parser::message2(
                            ErrorKind::VariableTypeMismatch,
                            crate::text::debug_quote(expected.as_str()),
                            crate::text::debug_quote(found.as_str()),
                        );
                        self.handle_error(msg.as_str());
                        return None;
                    }
                    let index = match self.expression_to_cg(scope, *arr_index.index) {
                        Some(i) => i,
                        None => {
                            self.handle_error(ErrorKind::Unknown.template());
                            return None;
                        },
                    };
                    return Some(
                        CgExpression::Identifier(
                            CgIdentifiers::ArrayVariableData(
                                ArrayVariableData {
                                    arr_index: Box::new(index),
                                    variable_type: stack_var_ref.var.variable_type,
                                    offset: stack_var_ref.local_offset,
                                },
                            ),
                        ),
                    );
                } else if let Some(function_arg_ref) = self.program_data.get_function_stack_arg_ref(scope, arr_index.identifier.as_str()) {
                    let is_array = match function_arg_ref.var.arg_var_type {
                        VariableType::Array(_) => true,
                        _ => false,
                    };
                    if !is_array {
                        let expected = VariableType::ArrayEmpty.type_string();
                        let found = function_arg_ref.var.arg_var_type.type_string();
                        let msg = crate::datatypes::parser::message2(
                            ErrorKind::VariableTypeMismatch,
                            crate::text::debug_quote(expected.as_str()),
                            crate::text::debug_quote(found.as_str()),
                        );
                        self.handle_error(msg.as_str());
                        return None;
                    }
                    let index = match self.expression_to_cg(scope, *arr_index.index) {
                        Some(i) => i,
                        None => {
                            self.handle_error(ErrorKind::Unknown.template());
                            return None;
                        },
                    };
                    return Some(
                        CgExpression::Identifier(
                            CgIdentifiers::ArrayVariableData(
                                ArrayVariableData {
                                    arr_index: Box::new(index),
                                    variable_type: function_arg_ref.var.arg_var_type,
                                    offset: function_arg_ref.local_offset,
                                },
                            ),
                        ),
                    );
                }
                let msg = crate::datatypes::parser::message1(
                    ErrorKind::UnknownIdentifier,
                    crate::text::debug_quote(arr_index.identifier.as_str()),
                );
                self.handle_error(msg.as_str());
                None
            },
            _ => {
                let expected = Statements::ExpressionEmpty.type_string();
                let msg = crate::datatypes::parser::message1(ErrorKind::ExpectedStatement, crate::text::debug_quote(expected.as_str()));
                self.handle_error(msg.as_str());
                None
            },
        }
    }

    /// Whether the lowered expression `cg_expr` can initialize a value of type `var_type`. An
    /// array literal's items are lowered and checked one by one, and appended, lowered, to the
    /// literal's lowered items.
    pub fn validate_cg_expr_with_var(&mut self, cg_expr: &mut CgExpression, var_type: &VariableType, scope: usize) -> (r: bool)
        requires
            old(self).wf(),
            scope < old(self).program_data.scopes@.len(),
        ensures
            final(self).wf(),
            final(self).only_errors(old(self)),
            r == valid_for(old(self).program_data, scope as int, *old(cg_expr), *var_type),
            r ==> final(self).program_data == old(self).program_data,
            !(old(cg_expr) matches CgExpression::Literal(Literal::Array(_))) ==> *final(cg_expr) == *old(cg_expr),
            *old(cg_expr) matches CgExpression::Literal(Literal::Array(a)) ==> (r ==> filled_in(
                *final(cg_expr),
                a,
                old(self).program_data,
                scope as int,
                *var_type->Array_0.variable_type,
            )),
        decreases var_type,
    {
        let mut taken = CgExpression::Literal(Literal::NumberEmpty);
        std::mem::swap(&mut taken, cg_expr);
        let is_array_literal = match &taken {
            CgExpression::Literal(Literal::Array(_)) => true,
            _ => false,
        };
        if !is_array_literal {
            let valid = match &taken {
                CgExpression::Literal(Literal::Number(_)) => var_type.is_number_type(),
                CgExpression::Identifier(CgIdentifiers::StackVariableData(stack_var_data)) => stack_var_data.variable_type.same_type(var_type),
                CgExpression::Identifier(CgIdentifiers::ArrayVariableData(arr_var_data)) => match &arr_var_data.variable_type {
                    VariableType::Array(arr) => arr.variable_type.same_type(var_type),
                    _ => false,
                },
                _ => false,
            };
            *cg_expr = taken;
            return valid;
        }
        let mut arr_literal = match taken {
            CgExpression::Literal(Literal::Array(arr_literal)) => arr_literal,
            other => {
                *cg_expr = other;
                return false;
            },
        };
        let ghost a = arr_literal;
        let ghost pd = self.program_data;
        let arr = match var_type {
            VariableType::Array(arr) => arr,
            _ => {
                *cg_expr = CgExpression::Literal(Literal::Array(arr_literal));
                return false;
            },
        };
        let ghost item_type = *arr.variable_type;
        proof {
            lemma_items_valid(pd, scope as int, a.items@, item_type);
        }
        let mut i: usize = 0;
        while i < arr_literal.items.len()
            invariant
                self.wf(),
                self.program_data == pd,
                pd == old(self).program_data,
                self.random_label_num == old(self).random_label_num,
                scope < pd.scopes@.len(),
                arr_literal.items == a.items,
                *old(cg_expr) == CgExpression::Literal(Literal::Array(a)),
                i <= a.items@.len(),
                item_type == *arr.variable_type,
                *var_type == VariableType::Array(*arr),
                items_valid(pd, scope as int, a.items@, item_type) <==> forall|k: int|
                    0 <= k < a.items@.len() ==> item_valid(pd, scope as int, #[trigger] a.items@[k], item_type),
                forall|k: int| 0 <= k < i ==> item_valid(pd, scope as int, #[trigger] a.items@[k], item_type),
                arr_literal.cg_items@.len() == a.cg_items@.len() + i,
                forall|k: int|
                    0 <= k < i ==> valid_for(pd, scope as int, #[trigger] arr_literal.cg_items@[a.cg_items@.len() + k], item_type),
                forall|j: int| 0 <= j < a.cg_items@.len() ==> #[trigger] arr_literal.cg_items@[j] == a.cg_items@[j],
                forall|k: int|
                    0 <= k < i ==> (#[trigger] a.items@[k]).vec_free() ==> arr_literal.cg_items@[a.cg_items@.len() + k]
                        == cg_expression(pd, scope as int, a.items@[k])->0,
                forall|k: int|
                    0 <= k < i ==> filled_item(#[trigger] arr_literal.cg_items@[a.cg_items@.len() + k], a.items@[k], pd, scope as int),
            decreases a.items@.len() - i,
        {
            let item = arr_literal.items[i].duplicate();
            let lowered = self.expression_to_cg(scope, item);
            let mut lowered = match lowered {
                Some(c) => c,
                None => {
                    proof {
                        if item_valid(pd, scope as int, item, item_type) {
                            lemma_valid_lowers(pd, scope as int, item, item_type);
                        }
                        assert(!item_valid(pd, scope as int, a.items@[i as int], item_type));
                    }
                    *cg_expr = CgExpression::Literal(Literal::Array(arr_literal));
                    return false;
                },
            };
            proof {
                lemma_valid_lowered(pd, scope as int, item, item_type);
            }
            let ghost lowered0 = lowered;
            if !self.validate_cg_expr_with_var(&mut lowered, &arr.variable_type, scope) {
                proof {
                    assert(!item_valid(pd, scope as int, a.items@[i as int], item_type));
                }
                *cg_expr = CgExpression::Literal(Literal::Array(arr_literal));
                return false;
            }
            proof {
                assert(item_valid(pd, scope as int, a.items@[i as int], item_type));
            }
            proof {
                if let CgExpression::Literal(Literal::Array(a2)) = lowered0 {
                    assert(item == Expression::Literal(Literal::Array(a2)));
                    let b = lowered->Literal_0->Array_0;
                    lemma_same_exprs_refl(a2.items@);
                    assert(b.cg_items@.subrange(0, a2.cg_items@.len() as int) =~= a2.cg_items@);
                    lemma_same_cgs_refl(a2.cg_items@);
                    assert(filled_item(lowered, item, pd, scope as int));
                } else {
                    lemma_same_cg_refl(lowered);
                    assert(filled_item(lowered, item, pd, scope as int));
                }
                lemma_filled_item_same(lowered, item, a.items@[i as int], pd, scope as int);
            }
            let ghost pushed = lowered;
            arr_literal.cg_items.push(lowered);
            proof {
                if a.items@[i as int].vec_free() {
                    assert(item == a.items@[i as int]);
                    assert(pushed == cg_expression(pd, scope as int, a.items@[i as int])->0);
                }
                assert(arr_literal.cg_items@[a.cg_items@.len() + i] == pushed);
            }
            i = i + 1;
        }
        proof {
            let tail = arr_literal.cg_items@.subrange(a.cg_items@.len() as int, arr_literal.cg_items@.len() as int);
            lemma_filled_items(tail, a.items@, pd, scope as int);
            assert forall|k: int| 0 <= k < a.items@.len() implies filled_item(#[trigger] tail[k], a.items@[k], pd, scope as int) by {
                assert(tail[k] == arr_literal.cg_items@[a.cg_items@.len() + k]);
            }
        }
        *cg_expr = CgExpression::Literal(Literal::Array(arr_literal));
        true
    }

    /// Lowers `expr` and files the assignment of it to the place `var_expr` names (a variable
    /// or argument, or an item of an array variable), when the value suits the place's type;
    /// otherwise records an error.
    pub fn initialize_identifier(&mut self, var_expr: Expression, expr: Expression, scope: usize)
        requires
            old(self).wf(),
            scope < old(self).program_data.scopes@.len(),
        ensures
            final(self).wf(),
            final(self).random_label_num == old(self).random_label_num,
            final(self).program_data.functions == old(self).program_data.functions,
            final(self).program_data.statements == old(self).program_data.statements,
            final(self).program_data.tokens == old(self).program_data.tokens,
            final(self).program_data.source_code == old(self).program_data.source_code,
            final(self).program_data.source_codes == old(self).program_data.source_codes,
            final(self).program_data.scopes@.len() == old(self).program_data.scopes@.len(),
            forall|i: int|
                0 <= i < old(self).program_data.scopes@.len() && i != scope ==> #[trigger] final(self).program_data.scopes@[i]
                    == old(self).program_data.scopes@[i],
            same_scope_shape(final(self).program_data.scopes@[scope as int], old(self).program_data.scopes@[scope as int]),
            final(self).program_data.scopes@[scope as int].statements == old(self).program_data.scopes@[scope as int].statements,
            seq_grows(final(self).program_data.errors@, old(self).program_data.errors@),
            ({
                let before = old(self).program_data.scopes@[scope as int].cg_statements@;
                let after = final(self).program_data.scopes@[scope as int].cg_statements@;
                ||| after == before
                ||| pushed_one(after, before)
            }),
            var_expr matches Expression::Identifier(Identifiers::Identifier(name)) ==> assigned(
                final(self).program_data,
                old(self).program_data,
                scope as int,
                name@,
                expr,
            ),
            var_expr matches Expression::ArrayIndex(ai) ==> item_assigned(
                final(self).program_data,
                old(self).program_data,
                scope as int,
                ai,
                expr,
            ),
            !(var_expr matches Expression::Identifier(Identifiers::Identifier(_))) && !(var_expr is ArrayIndex) ==> {
                &&& final(self).program_data.scopes == old(self).program_data.scopes
                &&& final(self).program_data.errors@.len() == old(self).program_data.errors@.len() + 1
                &&& final(self).program_data.errors@.last()@ == ErrorKind::Unknown.spec_template()
            },
    {
        let ghost pd = self.program_data;
        match var_expr {
            Expression::Identifier(Identifiers::Identifier(identifier)) => {
                let (offset, variable_type) = if let Some(stack_var_ref) = self.program_data.get_stack_variable_ref(scope, identifier.as_str()) {
                    (stack_var_ref.local_offset, stack_var_ref.var.variable_type)
                } else if let Some(function_arg_ref) = self.program_data.get_function_stack_arg_ref(scope, identifier.as_str()) {
                    (function_arg_ref.local_offset, function_arg_ref.var.arg_var_type)
                } else {
                    let msg = crate::datatypes::parser::message1(ErrorKind::UnknownIdentifier, crate::text::debug_quote(identifier.as_str()));
                    self.handle_error(msg.as_str());
                    return;
                };
                let mut cg_val = match self.expression_to_cg(scope, expr) {
                    Some(c) => c,
                    None => {
                        let expected = Statements::ExpressionEmpty.type_string();
                        let msg = crate::datatypes::parser::message1(ErrorKind::ExpectedStatement, crate::text::debug_quote(expected.as_str()));
                        self.handle_error(msg.as_str());
                        return;
                    },
                };
                let ghost c = cg_val;
                if !self.validate_cg_expr_with_var(&mut cg_val, &variable_type, scope) {
                    let expected = variable_type.type_string();
                    let msg = crate::datatypes::parser::message1(ErrorKind::VariableTypeMismatchExpected, crate::text::debug_quote(expected.as_str()));
                    self.handle_error(msg.as_str());
                    return;
                }
                self.add_cg_statement_to_scope(
                    scope,
                    CgStatement {
                        statement_type: CgStatementType::VariableAssignment(
                            CgVariableAssignment {
                                assign_value: cg_val,
                                assign_type: CgVariableAssignmentType::CompileTimeStackOffset(offset),
                                variable_type,
                            },
                        ),
                    },
                );
            },
            Expression::ArrayIndex(arr_index) => {
                if let Some(stack_var_ref) = self.program_data.get_stack_variable_ref(scope, arr_index.identifier.as_str()) {
                    let mut cg_val = match self.expression_to_cg(scope, expr) {
                        Some(c) => c,
                        None => {
                            let expected = Statements::ExpressionEmpty.type_string();
                            let msg = crate::datatypes::parser::message1(ErrorKind::ExpectedStatement, crate::text::debug_quote(expected.as_str()));
                            self.handle_error(msg.as_str());
                            return;
                        },
                    };
                    let arr = match &stack_var_ref.var.variable_type {
                        VariableType::Array(arr) => arr,
                        _ => {
                            let expected = VariableType::ArrayEmpty.type_string();
                            let msg = crate::datatypes::parser::message1(ErrorKind::VariableTypeMismatchExpected, crate::text::debug_quote(expected.as_str()));
                            self.handle_error(msg.as_str());
                            return;
                        },
                    };
                    if !self.validate_cg_expr_with_var(&mut cg_val, &arr.variable_type, scope) {
                        let expected = arr.variable_type.type_string();
                        let msg = crate::datatypes::parser::message1(ErrorKind::VariableTypeMismatchExpected, crate::text::debug_quote(expected.as_str()));
                        self.handle_error(msg.as_str());
                        return;
                    }
                    let cg_index = match self.expression_to_cg(scope, *arr_index.index) {
                        Some(i) => i,
                        None => {
                            self.handle_error(ErrorKind::Unknown.template());
                            return;
                        },
                    };
                    let item_type = arr.variable_type.duplicate();
                    self.add_cg_statement_to_scope(
                        scope,
                        CgStatement {
                            statement_type: CgStatementType::VariableAssignment(
                                CgVariableAssignment {
                                    assign_value: cg_val,
                                    assign_type: CgVariableAssignmentType::ArrayItem(
                                        ArrayVariableData {
                                            arr_index: Box::new(cg_index),
                                            variable_type: item_type,
                                            offset: stack_var_ref.local_offset,
                                        },
                                    ),
                                    variable_type: stack_var_ref.var.variable_type,
                                },
                            ),
                        },
                    );
                } else if let Some(_function_arg_ref) = self.program_data.get_function_stack_arg_ref(scope, arr_index.identifier.as_str()) {
                    // Assigning to an item of an array passed on the stack is not lowered.
                } else {
                    let msg = crate::datatypes::parser::message1(
                        ErrorKind::UnknownIdentifier,
                        crate::text::debug_quote(arr_index.identifier.as_str()),
                    );
                    self.handle_error(msg.as_str());
                }
            },
            _ => {
                self.handle_error(ErrorKind::Unknown.template());
            },
        }
    }

    /// Lowers the compare `comparison` of scope `scope`.
    fn lower_compare(&mut self, comparison: Compare, scope: usize)
        requires
            old(self).wf(),
            scope < old(self).program_data.scopes@.len(),
        ensures
            final(self).wf(),
            lowered_more(final(self).program_data, old(self).program_data),
            compare_lowered(
                final(self).program_data,
                old(self).program_data,
                scope as int,
                comparison,
                final(self).random_label_num as nat,
                old(self).random_label_num as nat,
            ),
    {
        let ghost pd = self.program_data;
        let ghost whole = comparison;
        let Compare { expressions, conditions: source_conditions } = comparison;
        let mut expressions = expressions;
        let mut first_expression = Expression::Literal(Literal::NumberEmpty);
        std::mem::swap(&mut first_expression, &mut expressions[0]);
        let mut second_expression = Expression::Literal(Literal::NumberEmpty);
        std::mem::swap(&mut second_expression, &mut expressions[1]);
        assert(first_expression == whole.expressions[0]);
        assert(second_expression == whole.expressions[1]);
        let comparison = &Compare { expressions: [Expression::Literal(Literal::NumberEmpty), Expression::Literal(Literal::NumberEmpty)], conditions: source_conditions };
        let first = self.expression_to_cg(scope, first_expression);
        let first = match first {
            Some(c) => c,
            None => {
                self.handle_error(ErrorKind::Unknown.template());
                proof {
                    lemma_lowered_more_errors(self.program_data, pd);
                }
                return;
            },
        };
        let second = self.expression_to_cg(scope, second_expression);
        let second = match second {
            Some(c) => c,
            None => {
                self.handle_error(ErrorKind::Unknown.template());
                proof {
                    lemma_lowered_more_errors(self.program_data, pd);
                }
                return;
            },
        };
        let ghost conds = comparison.conditions@;
        let mut k: usize = 0;
        let mut in_range = true;
        while k < comparison.conditions.len()
            invariant_except_break
                in_range,
            invariant
                self.program_data == pd,
                scope < pd.scopes@.len(),
                conds == comparison.conditions@,
                k <= conds.len(),
                forall|j: int| 0 <= j < k ==> (#[trigger] conds[j]).scope < pd.scopes@.len(),
            ensures
                in_range ==> targets_exist(pd, conds),
                !in_range ==> !targets_exist(pd, conds),
            decreases conds.len() - k,
        {
            if comparison.conditions[k].scope >= self.program_data.scopes.len() {
                in_range = false;
                break;
            }
            k = k + 1;
        }
        if !in_range {
            self.handle_error(ErrorKind::Unknown.template());
            proof {
                lemma_lowered_more_errors(self.program_data, pd);
            }
            return;
        }
        let scope_borrow = self.program_data.get_scope_by_index(scope);
        let mut branch_name = if scope_borrow.parent == NO_PARENT {
            scope_borrow.function.clone()
        } else {
            usize_to_string(scope)
        };
        let label_num = self.get_random_label_num();
        push_str(&mut branch_name, "_");
        let number = usize_to_string(label_num);
        push_str(&mut branch_name, number.as_str());
        let ghost label = branch_name@;
        assert(label == compare_label(pd, scope as int, label_num as nat));
        proof {
            lemma_lowered_more_errors(self.program_data, pd);
            assert(conds.take(0) =~= Seq::<CmpCondition>::empty());
        }
        let mut j: usize = 0;
        while j < comparison.conditions.len()
            invariant
                self.wf(),
                lowered_more(self.program_data, pd),
                pd == old(self).program_data,
                self.program_data.errors == pd.errors,
                self.random_label_num == label_num,
                scope < pd.scopes@.len(),
                conds == comparison.conditions@,
                j <= conds.len(),
                branch_name@ == label,
                targets_exist(pd, conds),
                forall|t: int|
                    0 <= t < pd.scopes@.len() ==> {
                        let before = pd.scopes@[t].cg_statements@;
                        let after = #[trigger] self.program_data.scopes@[t].cg_statements@;
                        &&& after.len() == before.len() + branch_count(conds.take(j as int), t)
                        &&& forall|i: int| before.len() <= i < after.len() ==> is_branch_to(#[trigger] after[i], label)
                    },
            decreases conds.len() - j,
        {
            let target = comparison.conditions[j].scope;
            let ghost before = self.program_data;
            let jump = CgStatement {
                statement_type: CgStatementType::BuiltInFunction(CgBuiltInFunctions::Branch(CgBranch { branch_name: branch_name.clone() })),
            };
            assert(is_branch_to(jump, label));
            self.add_cg_statement_to_scope(target, jump);
            proof {
                lemma_lowered_more_scope(self.program_data, before, target as int);
                lemma_lowered_more_trans(pd, before, self.program_data);
                assert forall|t: int| 0 <= t < pd.scopes@.len() implies {
                    let b = pd.scopes@[t].cg_statements@;
                    let a = #[trigger] self.program_data.scopes@[t].cg_statements@;
                    &&& a.len() == b.len() + branch_count(conds.take(j + 1), t)
                    &&& forall|i: int| b.len() <= i < a.len() ==> is_branch_to(#[trigger] a[i], label)
                } by {
                    lemma_branch_count_step(conds, j as int, t);
                    let mid = before.scopes@[t].cg_statements@;
                    assert(mid.len() == pd.scopes@[t].cg_statements@.len() + branch_count(conds.take(j as int), t));
                    if t != target {
                        assert(self.program_data.scopes@[t] == before.scopes@[t]);
                    }
                }
            }
            j = j + 1;
        }
        assert(conds.take(j as int) =~= conds);
        let conditions = duplicate_conditions(&comparison.conditions);
        let ghost before = self.program_data;
        self.add_cg_statement_to_scope(
            scope,
            CgStatement {
                statement_type: CgStatementType::Compare(
                    CgCompare { conditions, expressions: [first, second], new_exit_label: branch_name },
                ),
            },
        );
        proof {
            lemma_lowered_more_scope(self.program_data, before, scope as int);
            lemma_lowered_more_trans(pd, before, self.program_data);
            assert forall|t: int| 0 <= t < pd.scopes@.len() implies {
                let b = pd.scopes@[t].cg_statements@;
                let a = #[trigger] self.program_data.scopes@[t].cg_statements@;
                &&& a.len() == b.len() + branch_count(conds, t) + if t == scope {
                    1nat
                } else {
                    0nat
                }
                &&& forall|i: int| b.len() <= i < b.len() + branch_count(conds, t) ==> is_branch_to(#[trigger] a[i], label)
            } by {
                let mid = before.scopes@[t].cg_statements@;
                assert(mid.len() == pd.scopes@[t].cg_statements@.len() + branch_count(conds, t));
                if t != scope {
                    assert(self.program_data.scopes@[t] == before.scopes@[t]);
                } else {
                    assert forall|i: int| pd.scopes@[t].cg_statements@.len() <= i < mid.len() implies is_branch_to(
                        #[trigger] self.program_data.scopes@[t].cg_statements@[i],
                        label,
                    ) by {
                        assert(self.program_data.scopes@[t].cg_statements@[i] == mid[i]);
                    }
                }
            }
        }
    }

    /// Lowers the call `branch_linked` of scope `scope`.
    fn lower_call(&mut self, branch_linked: BranchLinkedAst, scope: usize)
        requires
            old(self).wf(),
            scope < old(self).program_data.scopes@.len(),
        ensures
            final(self).wf(),
            lowered_more(final(self).program_data, old(self).program_data),
            final(self).random_label_num == old(self).random_label_num,
            call_lowered(final(self).program_data, old(self).program_data, scope as int, branch_linked),
    {
        let ghost pd = self.program_data;
        let ghost whole = branch_linked;
        proof {
            self.program_data.lemma_tree_scope(scope as int);
        }
        let bl_function = match self.program_data.functions.get(branch_linked.function_name.as_str()) {
            Some(f) => f,
            None => {
                let msg = crate::datatypes::parser::message1(
                    ErrorKind::UnknownIdentifier,
                    crate::text::debug_quote(branch_linked.function_name.as_str()),
                );
                self.handle_error(msg.as_str());
                proof {
                    lemma_lowered_more_errors(self.program_data, pd);
                }
                return;
            },
        };
        let params = crate::datatypes::ast_statements::duplicate_args(&bl_function.args);
        let BranchLinkedAst { args, function_name } = branch_linked;
        if args.len() != params.len() {
            let expected = usize_to_string(params.len());
            let found = usize_to_string(args.len());
            let msg = crate::datatypes::parser::message3(
                ErrorKind::ArgumentCountMismatch,
                crate::text::debug_quote(expected.as_str()),
                crate::text::debug_quote(found.as_str()),
                crate::text::debug_quote(function_name.as_str()),
            );
            self.handle_error(msg.as_str());
            proof {
                lemma_lowered_more_errors(self.program_data, pd);
            }
            return;
        }
        proof {
            lemma_lowered_more_errors(self.program_data, pd);
            lemma_first_unsuitable(pd, scope as int, params@, args@, 0);
        }
        let ghost source = args@;
        let mut args = args;
        let mut cg_args: Vec<CgExpression> = Vec::new();
        let mut stopped = false;
        let mut i: usize = 0;
        while i < args.len()
            invariant_except_break
                !stopped,
                forall|k: int| i <= k < source.len() ==> #[trigger] args@[k] == source[k],
                (self.program_data.errors == pd.errors) <==> (forall|k: int|
                    0 <= k < i ==> arg_lowers(pd, scope as int, #[trigger] source[k])),
                self.program_data.errors == pd.errors ==> cg_args@.len() == i && forall|k: int|
                    0 <= k < i ==> {
                        &&& valid_for(pd, scope as int, #[trigger] cg_args@[k], params@[k].arg_var_type)
                        &&& !(cg_expression(pd, scope as int, source[k]) matches Some(CgExpression::Literal(Literal::Array(_))))
                            ==> cg_args@[k] == cg_expression(pd, scope as int, source[k])->0
                    },
            invariant
                self.wf(),
                scope < self.program_data.scopes@.len(),
                lowered_more(self.program_data, pd),
                same_frames(self.program_data, pd),
                self.program_data.scopes@[scope as int].cg_statements@ == pd.scopes@[scope as int].cg_statements@,
                forall|t: int| 0 <= t < pd.scopes@.len() ==> #[trigger] self.program_data.scopes@[t] == pd.scopes@[t],
                params@.len() == source.len(),
                args@.len() == source.len(),
                i <= source.len(),
                forall|k: int| 0 <= k < i ==> arg_suits(pd, scope as int, params@[k], #[trigger] source[k]),
                self.random_label_num == old(self).random_label_num,
            ensures
                !stopped ==> i == source.len(),
                !stopped ==> ((self.program_data.errors == pd.errors) <==> (forall|k: int|
                    0 <= k < i ==> arg_lowers(pd, scope as int, #[trigger] source[k]))),
                !stopped ==> (self.program_data.errors == pd.errors ==> cg_args@.len() == i && forall|k: int|
                    0 <= k < i ==> {
                        &&& valid_for(pd, scope as int, #[trigger] cg_args@[k], params@[k].arg_var_type)
                        &&& !(cg_expression(pd, scope as int, source[k]) matches Some(CgExpression::Literal(Literal::Array(_))))
                            ==> cg_args@[k] == cg_expression(pd, scope as int, source[k])->0
                    }),
                stopped ==> (i < source.len() && !arg_suits(pd, scope as int, params@[i as int], source[i as int])
                    && forall|k: int| 0 <= k < i ==> arg_suits(pd, scope as int, params@[k], #[trigger] source[k])),
                stopped ==> self.program_data.errors@.len() > pd.errors@.len() && self.program_data.errors@.last()@ == message(
                    ErrorKind::VariableTypeMismatchExpected,
                    seq![params@[i as int].arg_var_type.spec_debug_text()],
                ),
            decreases source.len() - i,
        {
            let ghost before = self.program_data;
            let mut argument = Expression::Literal(Literal::NumberEmpty);
            std::mem::swap(&mut argument, &mut args[i]);
            assert(argument == source[i as int]);
            let cg_expression = self.expression_to_cg(scope, argument);
            proof {
                lemma_cg_expression_same(before, pd, scope as int, source[i as int]);
            }
            if let Some(mut cg_expression_unwrapped) = cg_expression {
                let ghost lowered = cg_expression_unwrapped;
                let var_type_expecting = &params[i].arg_var_type;
                let valid = self.validate_cg_expr_with_var(&mut cg_expression_unwrapped, var_type_expecting, scope);
                proof {
                    lemma_valid_for_same(before, pd, scope as int, lowered, params@[i as int].arg_var_type);
                }
                if !valid {
                    let msg = crate::datatypes::parser::message1(
                        ErrorKind::VariableTypeMismatchExpected,
                        var_type_expecting.debug_text(),
                    );
                    self.handle_error(msg.as_str());
                    proof {
                        lemma_lowered_more_errors(self.program_data, before);
                        lemma_lowered_more_trans(pd, before, self.program_data);
                    }
                    stopped = true;
                    break;
                }
                proof {
                    if !(lowered matches CgExpression::Literal(Literal::Array(_))) {
                        assert(cg_expression_unwrapped == lowered);
                    }
                }
                cg_args.push(cg_expression_unwrapped);
            }
            proof {
                lemma_lowered_more_errors(self.program_data, before);
                lemma_lowered_more_trans(pd, before, self.program_data);
            }
            i = i + 1;
        }
        if stopped {
            proof {
                lemma_first_unsuitable(pd, scope as int, params@, source, i as int);
                assert(first_unsuitable(pd, scope as int, params@, source, 0) == Some(i as int)) by {
                    lemma_first_unsuitable_at(pd, scope as int, params@, source, 0, i as int);
                }
            }
            return;
        }
        let ghost before = self.program_data;
        self.add_cg_statement_to_scope(
            scope,
            CgStatement {
                statement_type: CgStatementType::BuiltInFunction(
                    CgBuiltInFunctions::BranchLinked(CgBranchLinked { function_name, args: cg_args }),
                ),
            },
        );
        proof {
            lemma_lowered_more_scope(self.program_data, before, scope as int);
            lemma_lowered_more_trans(pd, before, self.program_data);
            lemma_first_unsuitable(pd, scope as int, params@, source, 0);
        }
    }

    /// Lowers one statement of scope `scope`: declarations with a value and assignments
    /// become stores, a compare becomes a compare with a fresh exit label (each branch's scope
    /// jumps to it at its end), `bl` a call, `asm` its code. Other statements lower to nothing.
    pub fn process_statement(&mut self, statement: Statement, scope: usize)
        requires
            old(self).wf(),
            scope < old(self).program_data.scopes@.len(),
        ensures
            final(self).wf(),
            lowered_more(final(self).program_data, old(self).program_data),
            statement_lowered(
                final(self).program_data,
                final(self).random_label_num as nat,
                old(self).program_data,
                old(self).random_label_num as nat,
                statement,
                scope as int,
            ),
    {
        let ghost pd = self.program_data;
        let ghost st = statement.statement_type;
        match statement.statement_type {
            Statements::VariableDeclaration(var_init) => {
                if let Some(init_value) = var_init.value {
                    self.initialize_identifier(Expression::Identifier(Identifiers::Identifier(var_init.name)), init_value, scope);
                    proof {
                        lemma_lowered_more_scope(self.program_data, pd, scope as int);
                    }
                } else {
                    proof {
                        lemma_lowered_more_errors(self.program_data, pd);
                    }
                }
            },
            Statements::Compare(comparison) => {
                self.lower_compare(comparison, scope);
            },
            Statements::Assignment(assignment) => {
                self.initialize_identifier(assignment.identifier, assignment.value, scope);
                proof {
                    lemma_lowered_more_scope(self.program_data, pd, scope as int);
                }
            },
            Statements::Expression(Expression::BuiltInFunction(BuiltInFunctionsAst::BranchLinked(branch_linked))) => {
                self.lower_call(branch_linked, scope);
            },
            Statements::Expression(Expression::BuiltInFunction(func)) => {
                let func = &func;
                match func {
                    BuiltInFunctionsAst::Assembly(asm_expression) => {
                        let asm_code: String = match &**asm_expression {
                            Expression::Literal(Literal::String(asm_code)) => asm_code.clone(),
                            Expression::BuiltInFunction(func) => {
                                match func.parse(&self.program_data, scope) {
                                    Some(l) => l.to_string(),
                                    None => {
                                        self.handle_error(ErrorKind::Unknown.template());
                                        proof {
                                            lemma_lowered_more_errors(self.program_data, pd);
                                        }
                                        return;
                                    },
                                }
                            },
                            _ => {
                                self.handle_error(ErrorKind::Unknown.template());
                                proof {
                                    lemma_lowered_more_errors(self.program_data, pd);
                                }
                                return;
                            },
                        };
                        self.add_cg_statement_to_scope(
                            scope,
                            CgStatement { statement_type: CgStatementType::BuiltInFunction(CgBuiltInFunctions::Assembly(asm_code)) },
                        );
                        proof {
                            lemma_lowered_more_scope(self.program_data, pd, scope as int);
                        }
                    },
                    _ => {
                        proof {
                            lemma_lowered_more_errors(self.program_data, pd);
                        }
                    },
                }
            },
            _ => {
                proof {
                    lemma_lowered_more_errors(self.program_data, pd);
                }
            },
        }
    }

    /// Lowers the statements of scope `scope`, in order: each is lowered as
    /// `process_statement` does, from a copy of it.
    pub fn process_scope(&mut self, scope: usize)
        requires
            old(self).wf(),
            scope < old(self).program_data.scopes@.len(),
        ensures
            final(self).wf(),
            lowered_more(final(self).program_data, old(self).program_data),
            scope_lowered(
                final(self).program_data,
                final(self).random_label_num as nat,
                old(self).program_data,
                old(self).random_label_num as nat,
                scope as int,
            ),
    {
        let mut statements = crate::datatypes::ast_statements::duplicate_statements(
            &self.program_data.get_scope_by_index(scope).statements,
        );
        let ghost copies = statements@;
        let ghost pd = self.program_data;
        let ghost num = self.random_label_num as nat;
        proof {
            lemma_lowered_more_errors(self.program_data, pd);
            assert(copies.subrange(0, 0) =~= Seq::<Statement>::empty());
        }
        while statements.len() > 0
            invariant
                self.wf(),
                scope < self.program_data.scopes@.len(),
                lowered_more(self.program_data, pd),
                pd == old(self).program_data,
                num == old(self).random_label_num as nat,
                statements@.len() <= copies.len(),
                statements@ == copies.subrange(copies.len() - statements@.len(), copies.len() as int),
                statements_lowered(
                    self.program_data,
                    self.random_label_num as nat,
                    pd,
                    num,
                    copies.subrange(0, copies.len() - statements@.len()),
                    scope as int,
                ),
            decreases statements@.len(),
        {
            let ghost k = copies.len() - statements@.len();
            let statement = statements.remove(0);
            let ghost before = self.program_data;
            let ghost before_num = self.random_label_num as nat;
            assert(statement == copies[k]);
            self.process_statement(statement, scope);
            proof {
                lemma_lowered_more_trans(pd, before, self.program_data);
                let prefix = copies.subrange(0, k + 1);
                assert(prefix.drop_last() =~= copies.subrange(0, k));
                assert(prefix.last() == statement);
                assert(statements@ =~= copies.subrange(k + 1, copies.len() as int));
                assert(statements_lowered(before, before_num, pd, num, prefix.drop_last(), scope as int));
                assert(statement_lowered(self.program_data, self.random_label_num as nat, before, before_num, prefix.last(), scope as int));
                assert(statements_lowered(self.program_data, self.random_label_num as nat, pd, num, prefix, scope as int));
            }
        }
        proof {
            assert(copies.subrange(0, copies.len() as int) =~= copies);
            assert(statements_lowered(self.program_data, self.random_label_num as nat, pd, num, copies, scope as int));
        }
    }

    /// Lowers the nested scopes of `scope_index`, innermost first, then the scope itself.
    pub fn traverse_scope_children(&mut self, scope_index: usize)
        requires
            old(self).wf(),
            scope_index < old(self).program_data.scopes@.len(),
        ensures
            final(self).wf(),
            lowered_more(final(self).program_data, old(self).program_data),
            scopes_lowered(
                final(self).program_data,
                final(self).random_label_num as nat,
                old(self).program_data,
                old(self).random_label_num as nat,
                lowering_order(old(self).program_data, scope_index as int),
            ),
        decreases old(self).program_data.scopes@.len() - scope_index,
    {
        proof {
            self.program_data.lemma_tree_scope(scope_index as int);
        }
        let ghost pd = self.program_data;
        let scope_borrow = self.program_data.get_scope_by_index(scope_index);
        let mut children: Vec<usize> = Vec::new();
        let mut c: usize = 0;
        while c < scope_borrow.children.len()
            invariant
                c <= scope_borrow.children@.len(),
                children@ == scope_borrow.children@.subrange(0, c as int),
            decreases scope_borrow.children@.len() - c,
        {
            children.push(scope_borrow.children[c]);
            c = c + 1;
        }
        assert(children@ =~= pd.scopes@[scope_index as int].children@);
        proof {
            lemma_lowered_more_errors(self.program_data, pd);
        }
        let ghost num = self.random_label_num as nat;
        let mut i: usize = 0;
        while i < children.len()
            invariant
                self.wf(),
                lowered_more(self.program_data, pd),
                pd == old(self).program_data,
                num == old(self).random_label_num as nat,
                scope_index < pd.scopes@.len(),
                children@ == pd.scopes@[scope_index as int].children@,
                forall|k: int| 0 <= k < children@.len() ==> scope_index < #[trigger] children@[k] < pd.scopes@.len(),
                i <= children@.len(),
                scopes_lowered(self.program_data, self.random_label_num as nat, pd, num, children_order(pd, scope_index as int, i as int)),
            decreases children@.len() - i,
        {
            let ghost before = self.program_data;
            let ghost before_num = self.random_label_num as nat;
            let ghost kid = children@[i as int] as int;
            self.traverse_scope_children(children[i]);
            proof {
                lemma_lowered_more_trans(pd, before, self.program_data);
                lemma_lowering_order_same(before, pd, kid);
                lemma_scopes_lowered_append(
                    self.program_data,
                    self.random_label_num as nat,
                    before,
                    before_num,
                    pd,
                    num,
                    children_order(pd, scope_index as int, i as int),
                    lowering_order(pd, kid),
                );
                assert(children_order(pd, scope_index as int, i + 1) == children_order(pd, scope_index as int, i as int)
                    + lowering_order(pd, kid));
            }
            i = i + 1;
        }
        let ghost before = self.program_data;
        let ghost before_num = self.random_label_num as nat;
        self.process_scope(scope_index);
        proof {
            lemma_lowered_more_trans(pd, before, self.program_data);
            let order = lowering_order(pd, scope_index as int);
            assert(order.drop_last() =~= children_order(pd, scope_index as int, children@.len() as int));
            assert(order.last() == scope_index as int);
            assert(scope_lowered(self.program_data, self.random_label_num as nat, before, before_num, order.last()));
        }
    }

    /// Lowers the scope `scope_index` and all the scopes nested in it.
    pub fn process_scope_and_children(&mut self, scope_index: usize)
        requires
            old(self).wf(),
            scope_index < old(self).program_data.scopes@.len(),
        ensures
            final(self).wf(),
            lowered_more(final(self).program_data, old(self).program_data),
            scopes_lowered(
                final(self).program_data,
                final(self).random_label_num as nat,
                old(self).program_data,
                old(self).random_label_num as nat,
                lowering_order(old(self).program_data, scope_index as int),
            ),
    {
        self.traverse_scope_children(scope_index);
    }

    /// Lowers every function's scopes, function by function.
    pub fn process_all_functions(&mut self)
        requires
            old(self).wf(),
        ensures
            final(self).wf(),
            lowered_more(final(self).program_data, old(self).program_data),
            scopes_lowered(
                final(self).program_data,
                final(self).random_label_num as nat,
                old(self).program_data,
                old(self).random_label_num as nat,
                functions_order(old(self).program_data, old(self).program_data.functions.entries@.len() as int),
            ),
    {
        let ghost pd = self.program_data;
        let ghost num = self.random_label_num as nat;
        proof {
            lemma_lowered_more_errors(self.program_data, pd);
        }
        let mut j: usize = 0;
        while j < self.program_data.functions.entries.len()
            invariant
                self.wf(),
                lowered_more(self.program_data, pd),
                pd == old(self).program_data,
                num == old(self).random_label_num as nat,
                j <= pd.functions.entries@.len(),
                scopes_lowered(self.program_data, self.random_label_num as nat, pd, num, functions_order(pd, j as int)),
            decreases self.program_data.functions.entries@.len() - j,
        {
            proof {
                self.program_data.lemma_tree_function(j as int);
            }
            let first_scope = self.program_data.functions.entries[j].1.first_scope;
            let ghost before = self.program_data;
            let ghost before_num = self.random_label_num as nat;
            assert(first_scope == pd.functions.value_at(j as int).first_scope);
            self.process_scope_and_children(first_scope);
            proof {
                lemma_lowered_more_trans(pd, before, self.program_data);
                lemma_lowering_order_same(before, pd, first_scope as int);
                lemma_scopes_lowered_append(
                    self.program_data,
                    self.random_label_num as nat,
                    before,
                    before_num,
                    pd,
                    num,
                    functions_order(pd, j as int),
                    lowering_order(pd, first_scope as int),
                );
            }
            j = j + 1;
        }
    }

    /// Whether `expr` matches the type `variable_type`, seen from `scope`. An array literal's
    /// items are matched one by one, and appended, lowered, to the literal's lowered items.
    pub fn match_var_type_with_expr(&mut self, variable_type: &VariableType, expr: &mut Expression, scope: usize) -> (r: bool)
        requires
            old(self).wf(),
            scope < old(self).program_data.scopes@.len(),
        ensures
            final(self).wf(),
            final(self).only_errors(old(self)),
            r == type_matches(old(self).program_data, scope as int, *variable_type, *old(expr)),
            r ==> final(self).program_data == old(self).program_data,
            (*old(expr) is Literal) == (*final(expr) is Literal),
            !(*old(expr) is Literal) ==> *final(expr) == *old(expr),
            old(expr).vec_free() ==> *final(expr) == *old(expr),
            *old(expr) matches Expression::Literal(Literal::Array(a)) ==> (r ==> ({
                &&& *final(expr) matches Expression::Literal(Literal::Array(b))
                &&& b.items@.len() == a.items@.len()
                &&& forall|k: int| 0 <= k < a.items@.len() ==> (#[trigger] a.items@[k]).vec_free() ==> b.items@[k] == a.items@[k]
                &&& b.cg_items@.len() == a.cg_items@.len() + a.items@.len()
                &&& forall|j: int| 0 <= j < a.cg_items@.len() ==> #[trigger] b.cg_items@[j] == a.cg_items@[j]
                &&& forall|k: int|
                    0 <= k < a.items@.len() ==> (#[trigger] a.items@[k]).vec_free() ==> b.cg_items@[a.cg_items@.len() + k]
                        == cg_expression(old(self).program_data, scope as int, a.items@[k])->0
            })),
            r ==> matched_item(*final(expr), *old(expr), old(self).program_data, scope as int),
        decreases *old(expr),
    {
        let mut taken = Expression::Literal(Literal::NumberEmpty);
        std::mem::swap(&mut taken, expr);
        let ghost original = taken;
        match taken {
            Expression::Literal(Literal::Number(n)) => {
                *expr = Expression::Literal(Literal::Number(n));
                variable_type.is_number_type()
            },
            Expression::Literal(Literal::Array(arr_literal)) => {
                let mut arr_literal = arr_literal;
                let ghost a = arr_literal;
                let ghost pd = self.program_data;
                let arr_type = match variable_type {
                    VariableType::Array(arr_type) => arr_type,
                    _ => {
                        *expr = Expression::Literal(Literal::Array(arr_literal));
                        return false;
                    },
                };
                let ghost item_type = *arr_type.variable_type;
                let mut i: usize = 0;
                while i < arr_literal.items.len()
                    invariant
                        self.wf(),
                        self.program_data == pd,
                        pd == old(self).program_data,
                        self.random_label_num == old(self).random_label_num,
                        scope < pd.scopes@.len(),
                        original == Expression::Literal(Literal::Array(a)),
                        original == *old(expr),
                        *variable_type == VariableType::Array(*arr_type),
                        item_type == *arr_type.variable_type,
                        arr_literal.items@.len() == a.items@.len(),
                        i <= a.items@.len(),
                        forall|k: int| i <= k < a.items@.len() ==> #[trigger] arr_literal.items@[k] == a.items@[k],
                        forall|k: int| 0 <= k < i ==> (#[trigger] a.items@[k]).vec_free() ==> arr_literal.items@[k] == a.items@[k],
                        arr_literal.cg_items@.len() == a.cg_items@.len() + i,
                        forall|j: int| 0 <= j < a.cg_items@.len() ==> #[trigger] arr_literal.cg_items@[j] == a.cg_items@[j],
                        forall|k: int|
                            0 <= k < i ==> (#[trigger] a.items@[k]).vec_free() ==> arr_literal.cg_items@[a.cg_items@.len() + k]
                                == cg_expression(pd, scope as int, a.items@[k])->0,
                        forall|k: int|
                            0 <= k < i ==> matched_item(#[trigger] arr_literal.items@[k], a.items@[k], pd, scope as int),
                        forall|k: int|
                            0 <= k < i ==> (cg_expression(pd, scope as int, #[trigger] arr_literal.items@[k]) matches Some(c)
                                && same_cg(arr_literal.cg_items@[a.cg_items@.len() + k], c)),
                        forall|k: int|
                            0 <= k < i ==> type_matches(pd, scope as int, item_type, #[trigger] a.items@[k]) && cg_expression(
                                pd,
                                scope as int,
                                a.items@[k],
                            ) is Some,
                    decreases a.items@.len() - i,
                {
                    let mut item = arr_literal.items.remove(i);
                    proof {
                        broadcast use vstd::std_specs::vec::axiom_vec_index_decreases;
                        assert(item == a.items@[i as int]);
                        assert(decreases_to!(a.items => a.items[i as int]));
                        assert(decreases_to!(original => original->Literal_0));
                        assert(decreases_to!(original->Literal_0 => original->Literal_0->Array_0));
                        assert(decreases_to!(a => a.items));
                        assert(decreases_to!(original => a.items[i as int]));
                        lemma_items_match(pd, scope as int, item_type, a.items@);
                    }
                    let ghost original_item = item;
                    let valid = self.match_var_type_with_expr(&arr_type.variable_type, &mut item, scope);
                    if !valid {
                        arr_literal.items.insert(i, item);
                        *expr = Expression::Literal(Literal::Array(arr_literal));
                        return false;
                    }
                    let dup = item.duplicate();
                    let ghost dup_g = dup;
                    let lowered = self.expression_to_cg(scope, dup);
                    proof {
                        lemma_cg_lowers_same(pd, scope as int, dup_g, item);
                        assert(cg_expression(pd, scope as int, item) is Some == cg_expression(pd, scope as int, original_item) is Some);
                    }
                    let ghost restored = item;
                    arr_literal.items.insert(i, item);
                    match lowered {
                        Some(c) => {
                            arr_literal.cg_items.push(c);
                            proof {
                                if original_item.vec_free() {
                                    assert(restored == original_item);
                                    assert(c == cg_expression(pd, scope as int, a.items@[i as int])->0);
                                }
                                assert(arr_literal.cg_items@[a.cg_items@.len() + i] == c);
                                assert(arr_literal.items@[i as int] == restored);
                                assert(matched_item(arr_literal.items@[i as int], a.items@[i as int], pd, scope as int));
                            }
                        },
                        None => {
                            *expr = Expression::Literal(Literal::Array(arr_literal));
                            return false;
                        },
                    }
                    i = i + 1;
                }
                proof {
                    lemma_items_match(pd, scope as int, item_type, a.items@);
                    lemma_matched_items(arr_literal.items@, a.items@, pd, scope as int);
                    assert(arr_literal.cg_items@.subrange(0, a.cg_items@.len() as int) =~= a.cg_items@);
                }
                *expr = Expression::Literal(Literal::Array(arr_literal));
                true
            },
            Expression::Identifier(Identifiers::Identifier(name)) => {
                let r = if let Some(var) = self.get_stack_variable(scope, name.as_str()) {
                    var.variable_type.same_type(variable_type)
                } else if let Some(func_arg) = self.program_data.get_function_stack_arg_ref(scope, name.as_str()) {
                    func_arg.var.arg_var_type.same_type(variable_type)
                } else {
                    false
                };
                *expr = Expression::Identifier(Identifiers::Identifier(name));
                r
            },
            other => {
                *expr = other;
                false
            },
        }
    }
}

} // verus!

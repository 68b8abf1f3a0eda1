//! The parser: turns the token list into statements.
//!
//! Every parsing routine moves forward over the tokens, never changes them, and only
//! appends to the error list. An error skips the rest of the statement: everything up to
//! and including the next `;`, or up to the end-of-file token.
use vstd::prelude::*;
use crate::datatypes::ast_statements::{
    ArrayIndex, ArrayLiteral, ArrayType, Assignment, BranchLinkedAst, BuiltInFunctionsAst, CmpCondition, Compare,
    Expression, Format, FunctionArg, FunctionDeclaration, Literal, MemoryLocationsAst, Statement, Statements,
    VariableDeclaration, VariableType,
};
use crate::datatypes::errors::{ErrorKind, arg_texts, fill_template};
use crate::datatypes::general_functions::{align_memory, spec_align};
use crate::datatypes::program_data::ProgramData;
use crate::datatypes::token::{BuiltInFunctions, Identifiers, Keywords, MemoryLocations, Punctuations, Token, TokenType, all_lexical};
use crate::text::{chars_of, debug_quote, debug_quoted, str_eq};

verus! {

/// The message of `kind` with its placeholders filled by `args`, in order.
pub open spec fn message(kind: ErrorKind, args: Seq<Seq<char>>) -> Seq<char> {
    fill_template(kind.spec_template(), args)
}

/// `kind`'s message with one argument.
pub(crate) fn message1(kind: ErrorKind, a: String) -> (r: String)
    ensures
        r@ == message(kind, seq![a@]),
{
    let args = vec![a];
    let ghost a0 = args@[0]@;
    assert(arg_texts(args@) =~= seq![a0]);
    kind.format_message(args.as_slice())
}

/// `kind`'s message with two arguments.
pub(crate) fn message2(kind: ErrorKind, a: String, b: String) -> (r: String)
    ensures
        r@ == message(kind, seq![a@, b@]),
{
    let args = vec![a, b];
    let ghost (a0, b0) = (args@[0]@, args@[1]@);
    assert(arg_texts(args@) =~= seq![a0, b0]);
    kind.format_message(args.as_slice())
}

/// `kind`'s message with three arguments.
pub(crate) fn message3(kind: ErrorKind, a: String, b: String, c: String) -> (r: String)
    ensures
        r@ == message(kind, seq![a@, b@, c@]),
{
    let args = vec![a, b, c];
    let ghost (a0, b0, c0) = (args@[0]@, args@[1]@, args@[2]@);
    assert(arg_texts(args@) =~= seq![a0, b0, c0]);
    kind.format_message(args.as_slice())
}

/// `errors` is `before` with `msg` appended.
pub open spec fn appended(errors: Seq<String>, before: Seq<String>, msg: Seq<char>) -> bool {
    &&& errors.len() == before.len() + 1
    &&& forall|i: int| 0 <= i < before.len() ==> errors[i] == before[i]
    &&& errors.last()@ == msg
}

/// `errors` starts with `before`.
pub open spec fn extends(errors: Seq<String>, before: Seq<String>) -> bool {
    &&& before.len() <= errors.len()
    &&& forall|i: int| 0 <= i < before.len() ==> errors[i] == before[i]
}

/// Everything but the error list is the same.
pub open spec fn same_but_errors(a: ProgramData, b: ProgramData) -> bool {
    &&& a.scopes == b.scopes
    &&& a.functions == b.functions
    &&& a.statements == b.statements
    &&& a.source_codes == b.source_codes
    &&& a.source_code == b.source_code
    &&& a.tokens == b.tokens
}

/// The end-of-file token that reading past the last of `ts` gives.
pub open spec fn end_token_of(ts: Seq<Token>) -> Token {
    if ts.len() > 0 {
        let t = ts[ts.len() - 1];
        Token { kind: TokenType::EOF, line: t.line, col: t.col, start_pos: t.end_pos, end_pos: t.end_pos }
    } else {
        Token { kind: TokenType::EOF, line: 0, col: 0, start_pos: 0, end_pos: 0 }
    }
}

/// The token at `i` of `ts`; past the end, the end-of-file token.
pub open spec fn token_in(ts: Seq<Token>, i: int) -> Token {
    if 0 <= i < ts.len() {
        ts[i]
    } else {
        end_token_of(ts)
    }
}

/// Skipping stops at a `;`.
pub open spec fn stops_in(ts: Seq<Token>, i: int) -> bool {
    token_in(ts, i).kind == TokenType::Punctuation(Punctuations::Semicolon)
}

/// Where skipping from `i` stops: the first `;` at or after `i`, or the end of the tokens.
pub open spec fn next_stop_in(ts: Seq<Token>, i: int) -> int
    decreases ts.len() - i,
{
    if i >= ts.len() {
        ts.len() as int
    } else if stops_in(ts, i) {
        i
    } else {
        next_stop_in(ts, i + 1)
    }
}

/// An array literal holding the character codes of `s`, in order.
pub open spec fn is_char_array(e: Expression, s: Seq<char>) -> bool {
    &&& e matches Expression::Literal(Literal::Array(a))
    &&& a.items@.len() == s.len()
    &&& a.cg_items@.len() == 0
    &&& forall|i: int| 0 <= i < s.len() ==> a.items@[i] == Expression::Literal(Literal::Number((s[i] as u32) as i64))
}

/// Tokens an expression can start with: a string or number literal, `[`, or a name.
pub open spec fn starts_expression(k: TokenType) -> bool {
    ||| k matches TokenType::Literal(Literal::String(_))
    ||| k matches TokenType::Literal(Literal::Number(_))
    ||| k == TokenType::Punctuation(Punctuations::OpenSquareBracket)
    ||| k matches TokenType::Identifier(Identifiers::Identifier(_))
}

/// The statement kinds a leading token can start.
pub open spec fn leads_to(k: TokenType, st: Statements) -> bool {
    match k {
        TokenType::BuiltInFunction(BuiltInFunctions::Format) => st matches Statements::Expression(
            Expression::BuiltInFunction(BuiltInFunctionsAst::Format(_)),
        ),
        TokenType::BuiltInFunction(BuiltInFunctions::StackOffset) => st matches Statements::Expression(
            Expression::BuiltInFunction(BuiltInFunctionsAst::StackOffset(_)),
        ),
        TokenType::BuiltInFunction(BuiltInFunctions::Assembly) => st matches Statements::Expression(
            Expression::BuiltInFunction(BuiltInFunctionsAst::Assembly(_)),
        ),
        TokenType::BuiltInFunction(BuiltInFunctions::BranchLinked) => st matches Statements::Expression(
            Expression::BuiltInFunction(BuiltInFunctionsAst::BranchLinked(_)),
        ),
        TokenType::BuiltInFunction(BuiltInFunctions::Compare) => st is Compare,
        TokenType::Keyword(Keywords::VariableType(_)) => st is VariableDeclaration || st is FunctionDeclaration,
        TokenType::Identifier(Identifiers::Identifier(_)) => st is Assignment,
        _ => false,
    }
}

/// Tokens a statement can start with.
pub open spec fn starts_statement(k: TokenType) -> bool {
    ||| k is EOF
    ||| k == TokenType::BuiltInFunction(BuiltInFunctions::Format)
    ||| k == TokenType::BuiltInFunction(BuiltInFunctions::StackOffset)
    ||| k == TokenType::BuiltInFunction(BuiltInFunctions::Assembly)
    ||| k == TokenType::BuiltInFunction(BuiltInFunctions::BranchLinked)
    ||| k == TokenType::BuiltInFunction(BuiltInFunctions::Compare)
    ||| k matches TokenType::Keyword(Keywords::VariableType(_))
    ||| k matches TokenType::Identifier(Identifiers::Identifier(_))
}

/// The statement starts where `t` starts.
pub open spec fn starts_at(s: Statement, t: Token) -> bool {
    s.start_pos == t.start_pos && s.line == t.line && s.col == t.col
}

/// Bytes taken by the stack-passed arguments among `args`.
pub open spec fn stack_args_size(args: Seq<FunctionArg>) -> nat
    decreases args.len(),
{
    if args.len() == 0 {
        0
    } else {
        stack_args_size(args.drop_last()) + if args.last().memory_location is Stack {
            args.last().arg_var_type.spec_size()
        } else {
            0
        }
    }
}

/// Stack-passed arguments sit one after another, in declaration order, from offset 0.
pub open spec fn stack_args_packed(args: Seq<FunctionArg>) -> bool {
    forall|i: int|
        0 <= i < args.len() && (#[trigger] args[i]).memory_location is Stack ==> {
            &&& args[i].memory_location->Stack_0 == stack_args_size(args.take(i))
            &&& args[i].arg_var_type.size_fits()
        }
}

pub proof fn lemma_push_arg(args: Seq<FunctionArg>, a: FunctionArg)
    requires
        stack_args_packed(args),
        a.memory_location is Stack ==> a.memory_location->Stack_0 == stack_args_size(args)
            && a.arg_var_type.size_fits(),
    ensures
        stack_args_packed(args.push(a)),
        stack_args_size(args.push(a)) == stack_args_size(args) + if a.memory_location is Stack {
            a.arg_var_type.spec_size()
        } else {
            0
        },
{
    let n = args.push(a);
    assert(n.drop_last() =~= args);
    assert(n.take(args.len() as int) =~= args);
    assert forall|i: int| 0 <= i < n.len() && (#[trigger] n[i]).memory_location is Stack implies {
        &&& n[i].memory_location->Stack_0 == stack_args_size(n.take(i))
        &&& n[i].arg_var_type.size_fits()
    } by {
        if i < args.len() {
            assert(n.take(i) =~= args.take(i));
            assert(n[i] == args[i]);
        }
    }
}

/// One step forward in `ts`, but never past the end.
pub open spec fn step_in(ts: Seq<Token>, i: int) -> int {
    if i < ts.len() {
        i + 1
    } else {
        i
    }
}

/// The token at `i` is the punctuation `p`.
pub open spec fn punct_in(ts: Seq<Token>, i: int, p: Punctuations) -> bool {
    token_in(ts, i).kind == TokenType::Punctuation(p)
}

/// Where recovering from an error at `i` resumes: just past the next `;`, or at the end of
/// the tokens when none follows.
pub open spec fn resume_in(ts: Seq<Token>, i: int) -> int {
    let j = next_stop_in(ts, i);
    if punct_in(ts, j, Punctuations::Semicolon) {
        j + 1
    } else {
        j
    }
}

/// The message recorded when `p` was expected at `i`.
pub open spec fn expect_msg(ts: Seq<Token>, i: int, p: Punctuations) -> Seq<char> {
    message(ErrorKind::InvalidToken, seq![TokenType::Punctuation(p).spec_debug_text(), token_in(ts, i).kind.spec_debug_text()])
}

/// The message recorded when an expression was expected.
pub open spec fn expected_expression_msg() -> Seq<char> {
    message(ErrorKind::ExpectedToken, seq![debug_quoted("Expression"@)])
}

/// `errors` is `before` followed by the messages `msgs`.
pub open spec fn errors_added(errors: Seq<String>, before: Seq<String>, msgs: Seq<Seq<char>>) -> bool {
    &&& errors.len() == before.len() + msgs.len()
    &&& forall|k: int| 0 <= k < before.len() ==> errors[k] == before[k]
    &&& forall|k: int| 0 <= k < msgs.len() ==> #[trigger] errors[before.len() + k]@ == msgs[k]
}

pub proof fn lemma_errors_added_trans(a: Seq<String>, b: Seq<String>, c: Seq<String>, m1: Seq<Seq<char>>, m2: Seq<Seq<char>>)
    requires
        errors_added(b, a, m1),
        errors_added(c, b, m2),
    ensures
        errors_added(c, a, m1 + m2),
{
    assert forall|k: int| 0 <= k < (m1 + m2).len() implies #[trigger] c[a.len() + k]@ == (m1 + m2)[k] by {
        if k < m1.len() {
            assert(c[a.len() + k] == b[a.len() + k]);
        } else {
            assert(c[b.len() + (k - m1.len())]@ == m2[k - m1.len()]);
        }
    }
}

pub proof fn lemma_errors_added_none(a: Seq<String>)
    ensures
        errors_added(a, a, seq![]),
{
}

pub proof fn lemma_errors_added_one(new: Seq<String>, old: Seq<String>, msg: Seq<char>)
    requires
        appended(new, old, msg),
    ensures
        errors_added(new, old, seq![msg]),
{
    assert(new[old.len() as int] == new.last());
}

/// What parsing an expression at `i` does: whether it yields one, where it stops, and the
/// messages it records. Numbers and names take one token, a string is read as an array of
/// character codes, `[` starts an array literal, and a name followed by `[` is indexed by
/// the expression up to the matching `]`. Any other token yields nothing and stays put.
pub open spec fn expr_outcome(ts: Seq<Token>, i: int) -> (bool, int, Seq<Seq<char>>)
    decreases ts.len() - i, 2nat,
{
    if !(0 <= i <= ts.len()) {
        (false, i, seq![])
    } else {
        match token_in(ts, i).kind {
            TokenType::Literal(Literal::String(_)) => (true, i + 1, seq![]),
            TokenType::Literal(Literal::Number(_)) => (true, i + 1, seq![]),
            TokenType::Punctuation(Punctuations::OpenSquareBracket) => array_outcome(ts, i),
            TokenType::Identifier(Identifiers::Identifier(_)) => if punct_in(ts, i + 1, Punctuations::OpenSquareBracket)
                && i + 2 <= ts.len() {
                let idx = expr_outcome(ts, i + 2);
                if !idx.0 {
                    (
                        false,
                        resume_in(ts, idx.1),
                        idx.2.push(message(ErrorKind::ExpectedStatement, seq![debug_quoted("Expression"@)])),
                    )
                } else if punct_in(ts, idx.1, Punctuations::ClosedSquareBracket) {
                    (true, idx.1 + 1, idx.2)
                } else {
                    (false, resume_in(ts, idx.1), idx.2.push(expect_msg(ts, idx.1, Punctuations::ClosedSquareBracket)))
                }
            } else {
                (true, i + 1, seq![])
            },
            _ => (false, i, seq![]),
        }
    }
}

/// What parsing an array literal `[` items `]` at `i` does.
pub open spec fn array_outcome(ts: Seq<Token>, i: int) -> (bool, int, Seq<Seq<char>>)
    decreases ts.len() - i, 1nat,
{
    if !(0 <= i < ts.len()) || !punct_in(ts, i, Punctuations::OpenSquareBracket) {
        (false, resume_in(ts, i), seq![expect_msg(ts, i, Punctuations::OpenSquareBracket)])
    } else {
        items_outcome(ts, i + 1)
    }
}

/// What parsing array items at `j`, up to and including the closing `]`, does.
pub open spec fn items_outcome(ts: Seq<Token>, j: int) -> (bool, int, Seq<Seq<char>>)
    decreases ts.len() - j, 3nat,
{
    if !(0 <= j <= ts.len()) {
        (false, j, seq![])
    } else {
        let e = expr_outcome(ts, j);
        if !e.0 {
            (false, resume_in(ts, e.1), e.2.push(expected_expression_msg()))
        } else if punct_in(ts, e.1, Punctuations::ClosedSquareBracket) {
            (true, e.1 + 1, e.2)
        } else if punct_in(ts, e.1, Punctuations::Comma) && j < e.1 + 1 <= ts.len() {
            let rest = items_outcome(ts, e.1 + 1);
            (rest.0, rest.1, e.2 + rest.2)
        } else {
            (false, resume_in(ts, e.1), e.2.push(ErrorKind::Unknown.spec_template()))
        }
    }
}

/// `e` is the expression that parsing at `i` yields.
pub open spec fn expr_value(ts: Seq<Token>, i: int, e: Expression) -> bool
    decreases ts.len() - i, 2nat,
{
    if !(0 <= i <= ts.len()) {
        false
    } else {
        match token_in(ts, i).kind {
            TokenType::Literal(Literal::String(s)) => is_char_array(e, s@),
            TokenType::Literal(Literal::Number(n)) => e == Expression::Literal(Literal::Number(n)),
            TokenType::Punctuation(Punctuations::OpenSquareBracket) => i < ts.len() && (e matches Expression::Literal(
                Literal::Array(a),
            ) && a.cg_items@.len() == 0 && items_value(ts, i + 1, a.items@)),
            TokenType::Identifier(Identifiers::Identifier(name)) => if punct_in(ts, i + 1, Punctuations::OpenSquareBracket)
                && i + 2 <= ts.len() {
                (e matches Expression::ArrayIndex(ai) && ai.identifier == name && expr_value(ts, i + 2, *ai.index))
            } else {
                e == Expression::Identifier(Identifiers::Identifier(name))
            },
            _ => false,
        }
    }
}

/// `items` are the array items that parsing at `j` yields.
pub open spec fn items_value(ts: Seq<Token>, j: int, items: Seq<Expression>) -> bool
    decreases ts.len() - j, 3nat,
{
    if !(0 <= j <= ts.len()) || items.len() == 0 {
        false
    } else {
        let e = expr_outcome(ts, j);
        &&& expr_value(ts, j, items[0])
        &&& if punct_in(ts, e.1, Punctuations::ClosedSquareBracket) {
            items.len() == 1
        } else if j < e.1 + 1 <= ts.len() {
            items_value(ts, e.1 + 1, items.drop_first())
        } else {
            false
        }
    }
}

/// What parsing the rest of a declaration of a `t` variable does, the name being at `i`:
/// `;` ends it, `=` and an expression and `;` give it a value.
pub open spec fn var_decl_outcome(ts: Seq<Token>, i: int, t: VariableType) -> (bool, int, Seq<Seq<char>>) {
    let i1 = step_in(ts, i);
    if t is Void {
        (false, resume_in(ts, i), seq![ErrorKind::VariableCannotBeVoid.spec_template()])
    } else if token_in(ts, i1).kind is Operator {
        let e = expr_outcome(ts, step_in(ts, i1));
        if !e.0 {
            (false, resume_in(ts, e.1), e.2.push(expected_expression_msg()))
        } else if punct_in(ts, e.1, Punctuations::Semicolon) {
            (true, e.1 + 1, e.2)
        } else {
            (false, resume_in(ts, e.1), e.2.push(expect_msg(ts, e.1, Punctuations::Semicolon)))
        }
    } else if punct_in(ts, i1, Punctuations::Semicolon) {
        (true, step_in(ts, i1), seq![])
    } else {
        (false, resume_in(ts, i1), seq![ErrorKind::Unknown.spec_template()])
    }
}

/// `s` is the declaration of the `t` variable `name`, begun by `first`, that parsing at `i`
/// yields.
pub open spec fn var_decl_value(ts: Seq<Token>, i: int, t: VariableType, name: String, first: Token, s: Statement) -> bool {
    let i1 = step_in(ts, i);
    &&& starts_at(s, first)
    &&& s.statement_type matches Statements::VariableDeclaration(d)
    &&& d.name == name
    &&& d.variable_type == t
    &&& if token_in(ts, i1).kind is Operator {
        let e = expr_outcome(ts, step_in(ts, i1));
        &&& s.end_pos == token_in(ts, e.1).end_pos
        &&& d.value matches Some(v)
        &&& expr_value(ts, step_in(ts, i1), v)
    } else {
        &&& s.end_pos == token_in(ts, i1).end_pos
        &&& d.value is None
    }
}

/// The message recorded when a token of the kind named `expected` was wanted at `i`.
pub open spec fn wanted_msg(ts: Seq<Token>, i: int, expected: Seq<char>) -> Seq<char> {
    message(ErrorKind::InvalidToken, seq![debug_quoted(expected), debug_quoted(token_in(ts, i).kind.spec_type_string())])
}

/// What parsing `stack_offset(<name>)` at `i` does.
pub open spec fn stack_offset_outcome(ts: Seq<Token>, i: int) -> (bool, int, Seq<Seq<char>>) {
    let i1 = step_in(ts, i);
    if !punct_in(ts, i1, Punctuations::OpenParenthesis) {
        (false, resume_in(ts, i1), seq![expect_msg(ts, i1, Punctuations::OpenParenthesis)])
    } else if !(token_in(ts, i1 + 1).kind matches TokenType::Identifier(Identifiers::Identifier(_))) {
        (false, resume_in(ts, i1 + 1), seq![wanted_msg(ts, i1 + 1, TokenType::IdentifierEmpty.spec_type_string())])
    } else if !punct_in(ts, i1 + 2, Punctuations::ClosedParenthesis) {
        (false, resume_in(ts, i1 + 2), seq![expect_msg(ts, i1 + 2, Punctuations::ClosedParenthesis)])
    } else {
        (true, i1 + 3, seq![])
    }
}

/// `s` is what parsing `stack_offset(<name>)` begun by `first` at `i` yields.
pub open spec fn stack_offset_value(ts: Seq<Token>, i: int, first: Token, s: Statement) -> bool {
    let i1 = step_in(ts, i);
    &&& starts_at(s, first)
    &&& s.end_pos == token_in(ts, i1 + 2).end_pos
    &&& token_in(ts, i1 + 1).kind matches TokenType::Identifier(Identifiers::Identifier(name))
    &&& s.statement_type == Statements::Expression(Expression::BuiltInFunction(BuiltInFunctionsAst::StackOffset(name)))
}

/// What parsing the arguments of a call at `j` does, up to the `)`: each is `,` and a literal
/// or a name.
pub open spec fn call_args_outcome(ts: Seq<Token>, j: int) -> (bool, int, Seq<Seq<char>>)
    decreases ts.len() - j,
{
    if !(0 <= j < ts.len()) {
        (false, resume_in(ts, j), seq![ErrorKind::Unknown.spec_template()])
    } else if punct_in(ts, j, Punctuations::ClosedParenthesis) {
        (true, j, seq![])
    } else if punct_in(ts, j, Punctuations::Comma) {
        if token_in(ts, j + 1).kind is Literal || token_in(ts, j + 1).kind is Identifier {
            call_args_outcome(ts, j + 2)
        } else {
            (false, resume_in(ts, j + 1), seq![wanted_msg(ts, j + 1, "Expression"@)])
        }
    } else {
        (false, resume_in(ts, j), seq![ErrorKind::Unknown.spec_template()])
    }
}

/// `args` are the arguments that parsing at `j` yields.
pub open spec fn call_args_value(ts: Seq<Token>, j: int, args: Seq<Expression>) -> bool
    decreases ts.len() - j,
{
    if !(0 <= j < ts.len()) {
        false
    } else if punct_in(ts, j, Punctuations::ClosedParenthesis) {
        args.len() == 0
    } else {
        &&& args.len() > 0
        &&& match token_in(ts, j + 1).kind {
            TokenType::Literal(l) => args[0] == Expression::Literal(l),
            TokenType::Identifier(id) => args[0] == Expression::Identifier(id),
            _ => false,
        }
        &&& call_args_value(ts, j + 2, args.drop_first())
    }
}

/// What parsing `bl(<function>, <argument>, ...);` at `i` does.
pub open spec fn call_outcome(ts: Seq<Token>, i: int) -> (bool, int, Seq<Seq<char>>) {
    let i1 = step_in(ts, i);
    if !punct_in(ts, i1, Punctuations::OpenParenthesis) {
        (false, resume_in(ts, i1), seq![expect_msg(ts, i1, Punctuations::OpenParenthesis)])
    } else if !(token_in(ts, i1 + 1).kind matches TokenType::Identifier(Identifiers::Identifier(_))) {
        (false, resume_in(ts, i1 + 1), seq![wanted_msg(ts, i1 + 1, TokenType::IdentifierEmpty.spec_type_string())])
    } else {
        let a = call_args_outcome(ts, i1 + 2);
        if !a.0 {
            a
        } else if !punct_in(ts, a.1 + 1, Punctuations::Semicolon) {
            (false, resume_in(ts, a.1 + 1), seq![expect_msg(ts, a.1 + 1, Punctuations::Semicolon)])
        } else {
            (true, a.1 + 2, seq![])
        }
    }
}

/// `s` is the call begun by `first` that parsing at `i` yields; literal arguments are as the
/// tokens hold them when the tokens are lexical.
pub open spec fn call_value(ts: Seq<Token>, i: int, first: Token, s: Statement) -> bool {
    let i1 = step_in(ts, i);
    let a = call_args_outcome(ts, i1 + 2);
    &&& starts_at(s, first)
    &&& s.end_pos == token_in(ts, a.1 + 1).end_pos
    &&& token_in(ts, i1 + 1).kind matches TokenType::Identifier(Identifiers::Identifier(name))
    &&& s.statement_type matches Statements::Expression(Expression::BuiltInFunction(BuiltInFunctionsAst::BranchLinked(bl)))
    &&& bl.function_name == name
    &&& (forall|k: int| 0 <= k < ts.len() ==> (#[trigger] ts[k]).kind.is_lexical()) ==> call_args_value(ts, i1 + 2, bl.args@)
}

/// What parsing an assignment `<target> = <value>;` at `i` does.
pub open spec fn assignment_outcome(ts: Seq<Token>, i: int) -> (bool, int, Seq<Seq<char>>) {
    let t = expr_outcome(ts, i);
    if !t.0 {
        (false, resume_in(ts, t.1), t.2.push(ErrorKind::Unknown.spec_template()))
    } else if !(token_in(ts, t.1).kind is Operator) {
        (false, resume_in(ts, t.1), t.2.push(ErrorKind::Unknown.spec_template()))
    } else {
        let v = expr_outcome(ts, t.1 + 1);
        if !v.0 {
            (false, resume_in(ts, v.1), t.2 + v.2.push(message(ErrorKind::ExpectedStatement, seq![debug_quoted("Expression"@)])))
        } else if !punct_in(ts, v.1, Punctuations::Semicolon) {
            (false, resume_in(ts, v.1), t.2 + v.2.push(expect_msg(ts, v.1, Punctuations::Semicolon)))
        } else {
            (true, v.1 + 1, t.2 + v.2)
        }
    }
}

/// `s` is the assignment begun by `first` that parsing at `i` yields.
pub open spec fn assignment_value(ts: Seq<Token>, i: int, first: Token, s: Statement) -> bool {
    let t = expr_outcome(ts, i);
    let v = expr_outcome(ts, t.1 + 1);
    &&& starts_at(s, first)
    &&& s.end_pos == token_in(ts, v.1).end_pos
    &&& s.statement_type matches Statements::Assignment(a)
    &&& expr_value(ts, i, a.identifier)
    &&& expr_value(ts, t.1 + 1, a.value)
}

/// A statement parsed at a token of kind `k` is an expression statement.
pub open spec fn yields_expression(k: TokenType) -> bool {
    ||| k == TokenType::BuiltInFunction(BuiltInFunctions::Format)
    ||| k == TokenType::BuiltInFunction(BuiltInFunctions::StackOffset)
    ||| k == TokenType::BuiltInFunction(BuiltInFunctions::Assembly)
    ||| k == TokenType::BuiltInFunction(BuiltInFunctions::BranchLinked)
}

/// What parsing the next statement at `i` does.
pub open spec fn next_outcome(ts: Seq<Token>, i: int) -> (bool, int, Seq<Seq<char>>)
    decreases ts.len() - i, 8nat,
{
    if !(0 <= i <= ts.len()) {
        (false, i, seq![])
    } else {
        match token_in(ts, i).kind {
            TokenType::EOF => (false, i, seq![]),
            TokenType::BuiltInFunction(BuiltInFunctions::Format) => format_outcome(ts, i),
            TokenType::BuiltInFunction(BuiltInFunctions::StackOffset) => stack_offset_outcome(ts, i),
            TokenType::BuiltInFunction(BuiltInFunctions::Assembly) => assembly_outcome(ts, i),
            TokenType::BuiltInFunction(BuiltInFunctions::Compare) => compare_outcome(ts, i),
            TokenType::BuiltInFunction(BuiltInFunctions::BranchLinked) => call_outcome(ts, i),
            TokenType::Keyword(Keywords::VariableType(t)) => typed_outcome(ts, i, t),
            TokenType::Identifier(Identifiers::Identifier(_)) => assignment_outcome(ts, i),
            _ => (false, resume_in(ts, i), seq![ErrorKind::Unknown.spec_template()]),
        }
    }
}

/// What parsing `format("<text>", <argument>, ...)` at `i` does.
pub open spec fn format_outcome(ts: Seq<Token>, i: int) -> (bool, int, Seq<Seq<char>>)
    decreases ts.len() - i, 7nat,
{
    let i1 = step_in(ts, i);
    if !(0 <= i <= ts.len()) {
        (false, i, seq![])
    } else if !punct_in(ts, i1, Punctuations::OpenParenthesis) {
        (false, resume_in(ts, i1), seq![expect_msg(ts, i1, Punctuations::OpenParenthesis)])
    } else if !(token_in(ts, i1 + 1).kind matches TokenType::Literal(Literal::String(_))) {
        (false, resume_in(ts, i1 + 1), seq![wanted_msg(ts, i1 + 1, "String literal"@)])
    } else {
        format_args_outcome(ts, i1 + 2)
    }
}

/// What parsing the arguments of a format at `j`, up to and including the `)`, does: each is
/// `,` and a literal or a built-in function that yields an expression.
pub open spec fn format_args_outcome(ts: Seq<Token>, j: int) -> (bool, int, Seq<Seq<char>>)
    decreases ts.len() - j, 6nat,
{
    if !(0 <= j <= ts.len()) {
        (false, j, seq![])
    } else if punct_in(ts, j, Punctuations::Comma) {
        match token_in(ts, j + 1).kind {
            TokenType::Literal(_) => format_args_outcome(ts, j + 2),
            TokenType::BuiltInFunction(_) => {
                let n = next_outcome(ts, j + 1);
                if !n.0 {
                    (false, n.1, n.2)
                } else if !yields_expression(token_in(ts, j + 1).kind) {
                    (
                        false,
                        resume_in(ts, n.1),
                        n.2.push(message(ErrorKind::InvalidToken, seq![debug_quoted("Expression"@), debug_quoted("Compare function"@)])),
                    )
                } else if j < n.1 <= ts.len() {
                    let rest = format_args_outcome(ts, n.1);
                    (rest.0, rest.1, n.2 + rest.2)
                } else {
                    (false, n.1, n.2)
                }
            },
            _ => (false, resume_in(ts, j + 1), seq![wanted_msg(ts, j + 1, "Expression"@)]),
        }
    } else if punct_in(ts, j, Punctuations::ClosedParenthesis) {
        (true, j + 1, seq![])
    } else {
        (
            false,
            resume_in(ts, j),
            seq![message(ErrorKind::InvalidToken, seq![TokenType::Punctuation(Punctuations::ClosedParenthesis).spec_debug_text()])],
        )
    }
}

/// What parsing `asm("<code>");` or `asm(format(..));` at `i` does.
pub open spec fn assembly_outcome(ts: Seq<Token>, i: int) -> (bool, int, Seq<Seq<char>>)
    decreases ts.len() - i, 7nat,
{
    let i1 = step_in(ts, i);
    if !(0 <= i <= ts.len()) {
        (false, i, seq![])
    } else if !punct_in(ts, i1, Punctuations::OpenParenthesis) {
        (false, resume_in(ts, i1), seq![expect_msg(ts, i1, Punctuations::OpenParenthesis)])
    } else {
        let code = if token_in(ts, i1 + 1).kind matches TokenType::Literal(Literal::String(_)) {
            (true, i1 + 2, seq![])
        } else if token_in(ts, i1 + 1).kind == TokenType::BuiltInFunction(BuiltInFunctions::Format) {
            next_outcome(ts, i1 + 1)
        } else {
            (false, resume_in(ts, i1 + 1), seq![wanted_msg(ts, i, "Expression"@)])
        };
        if !code.0 {
            code
        } else if !punct_in(ts, code.1, Punctuations::ClosedParenthesis) {
            (false, resume_in(ts, code.1), code.2.push(expect_msg(ts, code.1, Punctuations::ClosedParenthesis)))
        } else if !punct_in(ts, code.1 + 1, Punctuations::Semicolon) {
            (false, resume_in(ts, code.1 + 1), code.2.push(expect_msg(ts, code.1 + 1, Punctuations::Semicolon)))
        } else {
            (true, code.1 + 2, code.2)
        }
    }
}

/// What parsing an operand of a compare at `j` does: a literal or a name takes one token; a
/// built-in function is parsed as a statement, and one more token is skipped after an
/// expression.
pub open spec fn handle_outcome(ts: Seq<Token>, j: int) -> (bool, int, Seq<Seq<char>>)
    decreases ts.len() - j, 9nat,
{
    if !(0 <= j <= ts.len()) {
        (false, j, seq![])
    } else {
        match token_in(ts, j).kind {
            TokenType::Literal(_) => (true, j + 1, seq![]),
            TokenType::Identifier(Identifiers::Identifier(_)) => (true, j + 1, seq![]),
            TokenType::BuiltInFunction(_) => {
                let n = next_outcome(ts, j);
                if n.0 && yields_expression(token_in(ts, j).kind) {
                    (true, step_in(ts, n.1), n.2)
                } else {
                    (false, n.1, n.2)
                }
            },
            _ => (false, j, seq![]),
        }
    }
}

/// The message recorded when an operand of a compare is missing.
pub open spec fn operand_msg() -> Seq<char> {
    message(ErrorKind::ExpectedToken, seq![debug_quoted("Expression"@)])
}

/// What parsing `compare(<operand>, <operand>) { <branches> }` at `i` does.
pub open spec fn compare_outcome(ts: Seq<Token>, i: int) -> (bool, int, Seq<Seq<char>>)
    decreases ts.len() - i, 7nat,
{
    let i1 = step_in(ts, i);
    if !(0 <= i <= ts.len()) {
        (false, i, seq![])
    } else if !punct_in(ts, i1, Punctuations::OpenParenthesis) {
        (false, resume_in(ts, i1), seq![expect_msg(ts, i1, Punctuations::OpenParenthesis)])
    } else {
        let h1 = handle_outcome(ts, i1 + 1);
        if !h1.0 {
            (false, resume_in(ts, h1.1), h1.2.push(operand_msg()))
        } else if !punct_in(ts, h1.1, Punctuations::Comma) {
            (false, resume_in(ts, h1.1), h1.2.push(expect_msg(ts, h1.1, Punctuations::Comma)))
        } else if !(i < h1.1) {
            (false, h1.1, h1.2)
        } else {
            let h2 = handle_outcome(ts, h1.1 + 1);
            if !h2.0 {
                (false, resume_in(ts, h2.1), h1.2 + h2.2.push(operand_msg()))
            } else if !punct_in(ts, h2.1, Punctuations::ClosedParenthesis) {
                (false, resume_in(ts, h2.1), h1.2 + h2.2.push(expect_msg(ts, h2.1, Punctuations::ClosedParenthesis)))
            } else if !punct_in(ts, h2.1 + 1, Punctuations::OpenBraces) {
                (false, resume_in(ts, h2.1 + 1), h1.2 + h2.2.push(expect_msg(ts, h2.1 + 1, Punctuations::OpenBraces)))
            } else if !(i < h2.1) {
                (false, h2.1, h1.2 + h2.2)
            } else {
                let c = branches_outcome(ts, h2.1 + 2);
                (c.0, c.1, h1.2 + h2.2 + c.2)
            }
        }
    }
}

/// What parsing the branches of a compare at `j`, each `.eq { .. }` or `.ne { .. }`, up to and
/// including the closing `}`, does.
pub open spec fn branches_outcome(ts: Seq<Token>, j: int) -> (bool, int, Seq<Seq<char>>)
    decreases ts.len() - j, 5nat,
{
    if !(0 <= j <= ts.len()) {
        (false, j, seq![])
    } else if punct_in(ts, j, Punctuations::Dot) {
        if CmpCondition::spec_condition_of(token_in(ts, j + 1).kind) is None {
            (false, resume_in(ts, j + 2), seq![message(ErrorKind::ExpectedToken, seq![debug_quoted("Compare function"@)])])
        } else if !punct_in(ts, j + 2, Punctuations::OpenBraces) {
            (false, resume_in(ts, j + 2), seq![expect_msg(ts, j + 2, Punctuations::OpenBraces)])
        } else {
            let b = braces_outcome(ts, j + 3);
            if j < b.1 <= ts.len() {
                let rest = branches_outcome(ts, b.1);
                (rest.0, rest.1, b.2 + rest.2)
            } else {
                (false, b.1, b.2)
            }
        }
    } else if punct_in(ts, j, Punctuations::ClosedBraces) {
        (true, j + 1, seq![])
    } else {
        (false, resume_in(ts, j), seq![ErrorKind::Unknown.spec_template()])
    }
}

/// What parsing statements at `j` up to the matching `}` does; it stops before the
/// end-of-file token.
pub open spec fn braces_outcome(ts: Seq<Token>, j: int) -> (bool, int, Seq<Seq<char>>)
    decreases ts.len() - j, 10nat,
{
    if !(0 <= j <= ts.len()) {
        (true, j, seq![])
    } else if punct_in(ts, j, Punctuations::ClosedBraces) {
        (true, j + 1, seq![])
    } else if token_in(ts, j).kind is EOF {
        (true, j, seq![])
    } else {
        let n = next_outcome(ts, j);
        if j < n.1 <= ts.len() {
            let rest = braces_outcome(ts, n.1);
            (true, rest.1, n.2 + rest.2)
        } else {
            (true, n.1, n.2)
        }
    }
}

/// What parsing a statement that starts with the type `t` at `i` does: an array variable
/// `array[<type>, <count>] <name> ..`, a function after `:`, or a variable.
pub open spec fn typed_outcome(ts: Seq<Token>, i: int, t: VariableType) -> (bool, int, Seq<Seq<char>>)
    decreases ts.len() - i, 7nat,
{
    let i1 = step_in(ts, i);
    if !(0 <= i <= ts.len()) {
        (false, i, seq![])
    } else if t is Array {
        if !punct_in(ts, i1, Punctuations::OpenSquareBracket) {
            (false, resume_in(ts, i1), seq![expect_msg(ts, i1, Punctuations::OpenSquareBracket)])
        } else if !(token_in(ts, i1 + 1).kind matches TokenType::Keyword(Keywords::VariableType(_))) {
            (false, resume_in(ts, i1 + 1), seq![wanted_msg(ts, i1 + 1, "VariableType keyword"@)])
        } else if !punct_in(ts, i1 + 2, Punctuations::Comma) {
            (false, resume_in(ts, i1 + 2), seq![expect_msg(ts, i1 + 2, Punctuations::Comma)])
        } else if !(token_in(ts, i1 + 3).kind matches TokenType::Literal(Literal::Number(_))) {
            (false, resume_in(ts, i1 + 3), seq![wanted_msg(ts, i1 + 3, "Number literal"@)])
        } else if !punct_in(ts, i1 + 4, Punctuations::ClosedSquareBracket) {
            (false, resume_in(ts, i1 + 4), seq![expect_msg(ts, i1 + 4, Punctuations::ClosedSquareBracket)])
        } else if !(token_in(ts, i1 + 5).kind matches TokenType::Identifier(Identifiers::Identifier(_))) {
            (false, resume_in(ts, i1 + 5), seq![wanted_msg(ts, i1 + 5, "Identifier"@)])
        } else {
            var_decl_outcome(ts, i1 + 5, array_type_at(ts, i1))
        }
    } else {
        match token_in(ts, i1).kind {
            TokenType::Punctuation(Punctuations::Colon) => function_outcome(ts, i1),
            TokenType::Punctuation(_) => (false, resume_in(ts, i1), seq![expect_msg(ts, i1, Punctuations::Colon)]),
            TokenType::Identifier(Identifiers::Identifier(_)) => var_decl_outcome(ts, i1, t),
            TokenType::Identifier(Identifiers::IdentifierEmpty) => (
                false,
                resume_in(ts, i1),
                seq![message(ErrorKind::InvalidToken, seq![debug_quoted("Identifier"@), debug_quoted("Identifier"@)])],
            ),
            _ => (false, resume_in(ts, i1), seq![ErrorKind::Unknown.spec_template()]),
        }
    }
}

/// The array type written `array[<type>, <count>]`, the `[` being at `j`.
pub open spec fn array_type_at(ts: Seq<Token>, j: int) -> VariableType {
    match (token_in(ts, j + 1).kind, token_in(ts, j + 3).kind) {
        (TokenType::Keyword(Keywords::VariableType(item)), TokenType::Literal(Literal::Number(n))) => VariableType::Array(
            ArrayType { item_count: n as usize, variable_type: Box::new(item) },
        ),
        _ => VariableType::Void,
    }
}

/// What parsing a function declaration whose `:` is at `i` does.
pub open spec fn function_outcome(ts: Seq<Token>, i: int) -> (bool, int, Seq<Seq<char>>)
    decreases ts.len() - i, 7nat,
{
    let i1 = step_in(ts, i);
    if !(0 <= i <= ts.len()) {
        (false, i, seq![])
    } else if !(token_in(ts, i1).kind matches TokenType::Identifier(Identifiers::Identifier(name)) && name@.len() > 0) {
        (false, resume_in(ts, i1), seq![wanted_msg(ts, i1, "Identifier"@)])
    } else if !punct_in(ts, i1 + 1, Punctuations::OpenParenthesis) {
        (false, resume_in(ts, i1 + 1), seq![expect_msg(ts, i1 + 1, Punctuations::OpenParenthesis)])
    } else {
        let a = params_outcome(ts, i1 + 2, 0);
        if !a.0 {
            (false, a.1, a.2)
        } else if !punct_in(ts, a.1 + 1, Punctuations::OpenBraces) {
            (false, resume_in(ts, a.1 + 1), a.2.push(expect_msg(ts, a.1 + 1, Punctuations::OpenBraces)))
        } else if i < a.1 && a.1 + 2 <= ts.len() {
            let b = braces_outcome(ts, a.1 + 2);
            (b.0, b.1, a.2 + b.2)
        } else {
            (false, a.1, a.2)
        }
    }
}

/// Where a parameter's declaration ends, its `[` being at `k`: after `stack]` or after
/// `reg(<register>)]`.
pub open spec fn location_end(ts: Seq<Token>, k: int) -> int {
    if token_in(ts, k + 1).kind == TokenType::MemoryLocation(MemoryLocations::Stack) {
        k + 2
    } else {
        k + 5
    }
}

/// What parsing one parameter at `j` does, `m` bytes of stack parameters being taken so far:
/// whether it parses, where the next one begins, the stack bytes taken after it, and the
/// messages recorded.
pub open spec fn param_step(ts: Seq<Token>, j: int, m: nat) -> (bool, int, nat, Seq<Seq<char>>) {
    match token_in(ts, j).kind {
        TokenType::Keyword(Keywords::VariableType(vt)) => {
            let size = vt.spec_size();
            let fits = vt.size_fits() && m + size <= usize::MAX - 15;
            if !(token_in(ts, j + 1).kind matches TokenType::Identifier(Identifiers::Identifier(_))) {
                (false, resume_in(ts, j + 1), m, seq![wanted_msg(ts, j + 1, "Identifier"@)])
            } else if !punct_in(ts, j + 2, Punctuations::Colon) {
                if !fits {
                    (false, resume_in(ts, j + 2), m, seq![ErrorKind::Unknown.spec_template()])
                } else {
                    (true, j + 2, m + size, seq![])
                }
            } else if !punct_in(ts, j + 3, Punctuations::OpenSquareBracket) {
                (false, resume_in(ts, j + 3), m, seq![expect_msg(ts, j + 3, Punctuations::OpenSquareBracket)])
            } else {
                let on_stack = token_in(ts, j + 4).kind == TokenType::MemoryLocation(MemoryLocations::Stack);
                let on_reg = token_in(ts, j + 4).kind == TokenType::MemoryLocation(MemoryLocations::Register);
                let e = location_end(ts, j + 3);
                if on_stack && !fits {
                    (false, resume_in(ts, j + 5), m, seq![ErrorKind::Unknown.spec_template()])
                } else if on_reg && !punct_in(ts, j + 5, Punctuations::OpenParenthesis) {
                    (false, resume_in(ts, j + 5), m, seq![expect_msg(ts, j + 5, Punctuations::OpenParenthesis)])
                } else if on_reg && !(token_in(ts, j + 6).kind matches TokenType::Identifier(Identifiers::Identifier(_))) {
                    (false, resume_in(ts, j + 6), m, seq![wanted_msg(ts, j + 6, "Identifier"@)])
                } else if on_reg && !punct_in(ts, j + 7, Punctuations::ClosedParenthesis) {
                    (false, resume_in(ts, j + 7), m, seq![expect_msg(ts, j + 7, Punctuations::ClosedParenthesis)])
                } else if !on_stack && !on_reg {
                    (false, resume_in(ts, j + 4), m, seq![wanted_msg(ts, j + 4, "Memory Location"@)])
                } else if !punct_in(ts, e, Punctuations::ClosedSquareBracket) {
                    (false, resume_in(ts, e), m, seq![expect_msg(ts, e, Punctuations::ClosedSquareBracket)])
                } else {
                    let m2: nat = if on_stack { m + size } else { m };
                    if punct_in(ts, e + 1, Punctuations::Comma) {
                        (true, e + 2, m2, seq![])
                    } else if punct_in(ts, e + 1, Punctuations::ClosedParenthesis) {
                        (true, e + 1, m2, seq![])
                    } else {
                        (false, resume_in(ts, e + 1), m, seq![expect_msg(ts, e + 1, Punctuations::ClosedParenthesis)])
                    }
                }
            }
        },
        _ => (false, resume_in(ts, j), m, seq![ErrorKind::Unknown.spec_template()]),
    }
}

/// `arg` is the parameter that parsing at `j` yields, `m` bytes of stack parameters being
/// taken so far: on the stack at the next free offset, or in the register it names.
pub open spec fn param_value(ts: Seq<Token>, j: int, m: nat, arg: FunctionArg) -> bool {
    &&& token_in(ts, j).kind matches TokenType::Keyword(Keywords::VariableType(vt)) && arg.arg_var_type == vt
    &&& token_in(ts, j + 1).kind matches TokenType::Identifier(Identifiers::Identifier(name)) && arg.arg_name == name
    &&& if !punct_in(ts, j + 2, Punctuations::Colon) || token_in(ts, j + 4).kind == TokenType::MemoryLocation(
        MemoryLocations::Stack,
    ) {
        arg.memory_location == MemoryLocationsAst::Stack(m as usize)
    } else {
        token_in(ts, j + 6).kind matches TokenType::Identifier(Identifiers::Identifier(reg)) && arg.memory_location
            == MemoryLocationsAst::Register(reg)
    }
}

/// What parsing the parameters of a function at `j`, up to the `)`, does, `m` bytes of stack
/// parameters being taken so far.
pub open spec fn params_outcome(ts: Seq<Token>, j: int, m: nat) -> (bool, int, Seq<Seq<char>>)
    decreases ts.len() - j,
{
    if !(0 <= j < ts.len()) {
        (false, resume_in(ts, j), seq![ErrorKind::Unknown.spec_template()])
    } else if punct_in(ts, j, Punctuations::ClosedParenthesis) {
        (true, j, seq![])
    } else {
        let st = param_step(ts, j, m);
        if st.0 && j < st.1 <= ts.len() {
            params_outcome(ts, st.1, st.2)
        } else {
            (false, st.1, st.3)
        }
    }
}

/// `s` is the statement that parsing at `i` yields: it starts at the token at `i`, ends where
/// its kind says, and has the kind `next_type` describes.
pub open spec fn stmt_value(ts: Seq<Token>, i: int, s: Statement) -> bool
    decreases ts.len() - i, 9nat,
{
    &&& 0 <= i <= ts.len()
    &&& starts_at(s, token_in(ts, i))
    &&& s.end_pos == next_end_pos(ts, i)
    &&& next_type(ts, i, s.statement_type)
}

/// The end position recorded for the statement parsed at `i`: the end of its last token for
/// most kinds; for a function, the index of the token just past its body, less one.
pub open spec fn next_end_pos(ts: Seq<Token>, i: int) -> int {
    let k = token_in(ts, i).kind;
    let o = next_outcome(ts, i);
    if k == TokenType::BuiltInFunction(BuiltInFunctions::Format) || k == TokenType::BuiltInFunction(
        BuiltInFunctions::Assembly,
    ) {
        token_in(ts, o.1).end_pos as int
    } else if k == TokenType::BuiltInFunction(BuiltInFunctions::StackOffset) {
        token_in(ts, step_in(ts, i) + 2).end_pos as int
    } else if k matches TokenType::Keyword(Keywords::VariableType(t)) && !(t is Array) && punct_in(
        ts,
        step_in(ts, i),
        Punctuations::Colon,
    ) {
        o.1 - 1
    } else {
        token_in(ts, o.1 - 1).end_pos as int
    }
}

/// `st` is the kind of statement that parsing at `i` yields.
pub open spec fn next_type(ts: Seq<Token>, i: int, st: Statements) -> bool
    decreases ts.len() - i, 8nat,
{
    if !(0 <= i <= ts.len()) {
        false
    } else {
        let i1 = step_in(ts, i);
        match token_in(ts, i).kind {
            TokenType::EOF => false,
            TokenType::BuiltInFunction(BuiltInFunctions::Format) => format_type(ts, i, st),
            TokenType::BuiltInFunction(BuiltInFunctions::StackOffset) => token_in(ts, i1 + 1).kind matches TokenType::Identifier(
                Identifiers::Identifier(name),
            ) && st == Statements::Expression(Expression::BuiltInFunction(BuiltInFunctionsAst::StackOffset(name))),
            TokenType::BuiltInFunction(BuiltInFunctions::Assembly) => assembly_type(ts, i, st),
            TokenType::BuiltInFunction(BuiltInFunctions::Compare) => compare_type(ts, i, st),
            TokenType::BuiltInFunction(BuiltInFunctions::BranchLinked) => {
                &&& token_in(ts, i1 + 1).kind matches TokenType::Identifier(Identifiers::Identifier(name))
                &&& st matches Statements::Expression(Expression::BuiltInFunction(BuiltInFunctionsAst::BranchLinked(bl)))
                &&& bl.function_name == name
                &&& call_args_value(ts, i1 + 2, bl.args@)
            },
            TokenType::Keyword(Keywords::VariableType(t)) => typed_type(ts, i, t, st),
            TokenType::Identifier(Identifiers::Identifier(_)) => {
                let t = expr_outcome(ts, i);
                &&& st matches Statements::Assignment(a)
                &&& expr_value(ts, i, a.identifier)
                &&& expr_value(ts, t.1 + 1, a.value)
            },
            _ => false,
        }
    }
}

/// `st` is the format that parsing at `i` yields.
pub open spec fn format_type(ts: Seq<Token>, i: int, st: Statements) -> bool
    decreases ts.len() - i, 7nat,
{
    let i1 = step_in(ts, i);
    &&& 0 <= i <= ts.len()
    &&& st matches Statements::Expression(Expression::BuiltInFunction(BuiltInFunctionsAst::Format(f)))
    &&& token_in(ts, i1 + 1).kind == TokenType::Literal(Literal::String(f.string))
    &&& format_args_value(ts, i1 + 2, f.args_provided@)
}

/// `args` are the format arguments that parsing at `j` yields.
pub open spec fn format_args_value(ts: Seq<Token>, j: int, args: Seq<Expression>) -> bool
    decreases ts.len() - j, 6nat,
{
    if !(0 <= j <= ts.len()) {
        false
    } else if punct_in(ts, j, Punctuations::Comma) {
        &&& args.len() > 0
        &&& match token_in(ts, j + 1).kind {
            TokenType::Literal(l) => args[0] == Expression::Literal(l) && format_args_value(ts, j + 2, args.drop_first()),
            TokenType::BuiltInFunction(_) => {
                let n = next_outcome(ts, j + 1);
                &&& next_type(ts, j + 1, Statements::Expression(args[0]))
                &&& j < n.1 <= ts.len()
                &&& format_args_value(ts, n.1, args.drop_first())
            },
            _ => false,
        }
    } else {
        args.len() == 0
    }
}

/// `st` is the assembly statement that parsing at `i` yields.
pub open spec fn assembly_type(ts: Seq<Token>, i: int, st: Statements) -> bool
    decreases ts.len() - i, 7nat,
{
    let i1 = step_in(ts, i);
    &&& 0 <= i <= ts.len()
    &&& i1 + 1 <= ts.len()
    &&& st matches Statements::Expression(Expression::BuiltInFunction(BuiltInFunctionsAst::Assembly(code)))
    &&& match token_in(ts, i1 + 1).kind {
        TokenType::Literal(Literal::String(c)) => *code == Expression::Literal(Literal::String(c)),
        _ => next_type(ts, i1 + 1, Statements::Expression(*code)),
    }
}

/// `e` is the operand of a compare that parsing at `j` yields.
pub open spec fn handle_value(ts: Seq<Token>, j: int, e: Expression) -> bool
    decreases ts.len() - j, 9nat,
{
    if !(0 <= j <= ts.len()) {
        false
    } else {
        match token_in(ts, j).kind {
            TokenType::Literal(l) => e == Expression::Literal(l),
            TokenType::Identifier(Identifiers::Identifier(n)) => e == Expression::Identifier(Identifiers::Identifier(n)),
            _ => next_type(ts, j, Statements::Expression(e)),
        }
    }
}

/// `st` is the compare that parsing at `i` yields.
pub open spec fn compare_type(ts: Seq<Token>, i: int, st: Statements) -> bool
    decreases ts.len() - i, 7nat,
{
    let i1 = step_in(ts, i);
    let h1 = handle_outcome(ts, i1 + 1);
    let h2 = handle_outcome(ts, h1.1 + 1);
    &&& 0 <= i <= ts.len()
    &&& i < h1.1
    &&& i < h2.1
    &&& i1 + 1 <= ts.len()
    &&& h1.1 + 1 <= ts.len()
    &&& h2.1 + 2 <= ts.len()
    &&& st matches Statements::Compare(c)
    &&& handle_value(ts, i1 + 1, c.expressions[0])
    &&& handle_value(ts, h1.1 + 1, c.expressions[1])
    &&& branches_value(ts, h2.1 + 2, c.conditions@)
}

/// `conds` are the branches that parsing at `j` yields, each with its body and scope 0.
pub open spec fn branches_value(ts: Seq<Token>, j: int, conds: Seq<CmpCondition>) -> bool
    decreases ts.len() - j, 5nat,
{
    if !(0 <= j <= ts.len()) {
        false
    } else if punct_in(ts, j, Punctuations::Dot) {
        let b = braces_outcome(ts, j + 3);
        &&& conds.len() > 0
        &&& CmpCondition::spec_condition_of(token_in(ts, j + 1).kind) == Some(conds[0].condition_type)
        &&& conds[0].scope == 0
        &&& j + 3 <= ts.len()
        &&& braces_value(ts, j + 3, conds[0].body@)
        &&& j < b.1 <= ts.len()
        &&& branches_value(ts, b.1, conds.drop_first())
    } else {
        conds.len() == 0
    }
}

/// `body` are the statements that parsing at `j` up to the matching `}` yields: each
/// statement parsed there that succeeds, in order.
pub open spec fn braces_value(ts: Seq<Token>, j: int, body: Seq<Statement>) -> bool
    decreases ts.len() - j, 10nat,
{
    if !(0 <= j <= ts.len()) {
        body.len() == 0
    } else if punct_in(ts, j, Punctuations::ClosedBraces) || token_in(ts, j).kind is EOF {
        body.len() == 0
    } else {
        let n = next_outcome(ts, j);
        &&& j < n.1 <= ts.len()
        &&& if n.0 {
            &&& body.len() > 0
            &&& stmt_value(ts, j, body[0])
            &&& braces_value(ts, n.1, body.drop_first())
        } else {
            braces_value(ts, n.1, body)
        }
    }
}

/// `st` is the statement starting with the type `t` that parsing at `i` yields.
pub open spec fn typed_type(ts: Seq<Token>, i: int, t: VariableType, st: Statements) -> bool
    decreases ts.len() - i, 7nat,
{
    let i1 = step_in(ts, i);
    if !(0 <= i <= ts.len()) {
        false
    } else if t is Array {
        var_decl_type(ts, i1 + 5, array_type_at(ts, i1), st)
    } else if punct_in(ts, i1, Punctuations::Colon) {
        function_type(ts, i1, t, st)
    } else {
        var_decl_type(ts, i1, t, st)
    }
}

/// `st` is the declaration of a `t` variable named by the token at `i` that parsing there
/// yields.
pub open spec fn var_decl_type(ts: Seq<Token>, i: int, t: VariableType, st: Statements) -> bool {
    let i1 = step_in(ts, i);
    &&& token_in(ts, i).kind matches TokenType::Identifier(Identifiers::Identifier(name))
    &&& st matches Statements::VariableDeclaration(d)
    &&& d.name == name
    &&& d.variable_type == t
    &&& if token_in(ts, i1).kind is Operator {
        d.value matches Some(v) && expr_value(ts, step_in(ts, i1), v)
    } else {
        d.value is None
    }
}

/// `st` is the function declaration whose `:` is at `i`, returning `t`, that parsing there
/// yields.
pub open spec fn function_type(ts: Seq<Token>, i: int, t: VariableType, st: Statements) -> bool
    decreases ts.len() - i, 7nat,
{
    let i1 = step_in(ts, i);
    let a = params_outcome(ts, i1 + 2, 0);
    &&& 0 <= i <= ts.len()
    &&& token_in(ts, i1).kind matches TokenType::Identifier(Identifiers::Identifier(name))
    &&& st matches Statements::FunctionDeclaration(d)
    &&& d.name == name
    &&& d.return_type == t
    &&& params_value(ts, i1 + 2, 0, d.args@)
    &&& d.args_stack_mem_allocated == spec_align(stack_args_size(d.args@), 16)
    &&& i < a.1
    &&& a.1 + 2 <= ts.len()
    &&& braces_value(ts, a.1 + 2, d.body@)
}

/// `args` are the parameters that parsing at `j` yields, `m` bytes of stack parameters being
/// taken so far, in order.
pub open spec fn params_value(ts: Seq<Token>, j: int, m: nat, args: Seq<FunctionArg>) -> bool
    decreases ts.len() - j,
{
    if !(0 <= j < ts.len()) {
        false
    } else if punct_in(ts, j, Punctuations::ClosedParenthesis) {
        args.len() == 0
    } else {
        let st = param_step(ts, j, m);
        &&& args.len() > 0
        &&& param_value(ts, j, m, args[0])
        &&& j < st.1 <= ts.len()
        &&& params_value(ts, st.1, st.2, args.drop_first())
    }
}

/// The statement parsed at `i` by a routine for its kind is the statement parsing at `i`
/// yields.
pub proof fn lemma_stmt_value(ts: Seq<Token>, i: int, s: Statement)
    requires
        0 <= i <= ts.len(),
        starts_at(s, token_in(ts, i)),
        s.end_pos == next_end_pos(ts, i),
        next_type(ts, i, s.statement_type),
    ensures
        stmt_value(ts, i, s),
{
}

pub proof fn lemma_end_format(ts: Seq<Token>, i: int)
    requires
        0 <= i <= ts.len(),
        token_in(ts, i).kind == TokenType::BuiltInFunction(BuiltInFunctions::Format),
    ensures
        next_end_pos(ts, i) == token_in(ts, format_outcome(ts, i).1).end_pos,
        next_outcome(ts, i) == format_outcome(ts, i),
{
}

pub proof fn lemma_end_assembly(ts: Seq<Token>, i: int)
    requires
        0 <= i <= ts.len(),
        token_in(ts, i).kind == TokenType::BuiltInFunction(BuiltInFunctions::Assembly),
    ensures
        next_end_pos(ts, i) == token_in(ts, assembly_outcome(ts, i).1).end_pos,
{
}

pub proof fn lemma_end_compare(ts: Seq<Token>, i: int)
    requires
        0 <= i <= ts.len(),
        token_in(ts, i).kind == TokenType::BuiltInFunction(BuiltInFunctions::Compare),
    ensures
        next_end_pos(ts, i) == token_in(ts, compare_outcome(ts, i).1 - 1).end_pos,
{
}

pub proof fn lemma_end_call(ts: Seq<Token>, i: int)
    requires
        0 <= i <= ts.len(),
        token_in(ts, i).kind == TokenType::BuiltInFunction(BuiltInFunctions::BranchLinked),
    ensures
        next_end_pos(ts, i) == token_in(ts, call_outcome(ts, i).1 - 1).end_pos,
{
}

pub proof fn lemma_end_typed(ts: Seq<Token>, i: int, t: VariableType)
    requires
        0 <= i <= ts.len(),
        token_in(ts, i).kind == TokenType::Keyword(Keywords::VariableType(t)),
    ensures
        next_end_pos(ts, i) == if !(t is Array) && punct_in(ts, step_in(ts, i), Punctuations::Colon) {
            typed_outcome(ts, i, t).1 - 1
        } else {
            token_in(ts, typed_outcome(ts, i, t).1 - 1).end_pos as int
        },
{
}

pub proof fn lemma_end_assignment(ts: Seq<Token>, i: int)
    requires
        0 <= i <= ts.len(),
        token_in(ts, i).kind matches TokenType::Identifier(Identifiers::Identifier(_)),
    ensures
        next_end_pos(ts, i) == token_in(ts, assignment_outcome(ts, i).1 - 1).end_pos,
{
}

/// The messages recorded while parsing statements from `i` up to the end-of-file token.
pub open spec fn program_errors(ts: Seq<Token>, i: int) -> Seq<Seq<char>>
    decreases ts.len() - i,
{
    if !(0 <= i <= ts.len()) || token_in(ts, i).kind is EOF {
        seq![]
    } else {
        let n = next_outcome(ts, i);
        if i < n.1 <= ts.len() {
            n.2 + program_errors(ts, n.1)
        } else {
            n.2
        }
    }
}

/// `stmts` are the statements that parsing from `i` up to the end-of-file token yields: each
/// that succeeds, in order.
pub open spec fn program_value(ts: Seq<Token>, i: int, stmts: Seq<Statement>) -> bool
    decreases ts.len() - i,
{
    if !(0 <= i <= ts.len()) {
        false
    } else if token_in(ts, i).kind is EOF {
        stmts.len() == 0
    } else {
        let n = next_outcome(ts, i);
        &&& i < n.1 <= ts.len()
        &&& if n.0 {
            stmts.len() > 0 && stmt_value(ts, i, stmts[0]) && program_value(ts, n.1, stmts.drop_first())
        } else {
            program_value(ts, n.1, stmts)
        }
    }
}

/// A statement that parses from `i` starts every statement list that parsing from `i` yields.
proof fn lemma_value_after_statement(ts: Seq<Token>, start: int, i: int, done: Seq<Statement>, st: Statement)
    requires
        0 <= i <= ts.len(),
        !(token_in(ts, i).kind is EOF),
        next_outcome(ts, i).0,
        i < next_outcome(ts, i).1 <= ts.len(),
        stmt_value(ts, i, st),
        forall|tail: Seq<Statement>|
            program_value(ts, i, tail) ==> #[trigger] program_value(ts, start, done + tail),
    ensures
        forall|tail: Seq<Statement>|
            program_value(ts, next_outcome(ts, i).1, tail) ==> #[trigger] program_value(ts, start, done.push(st) + tail),
{
    assert forall|tail: Seq<Statement>| program_value(ts, next_outcome(ts, i).1, tail) implies #[trigger] program_value(
        ts,
        start,
        done.push(st) + tail,
    ) by {
        let whole = seq![st] + tail;
        assert(whole.drop_first() =~= tail);
        assert(whole[0] == st);
        assert(program_value(ts, i, whole));
        assert(program_value(ts, start, done + whole));
        assert(done + whole =~= done.push(st) + tail);
    }
}

/// A statement that fails to parse from `i` adds nothing to what parsing from `i` yields.
proof fn lemma_value_after_failure(ts: Seq<Token>, start: int, i: int, done: Seq<Statement>)
    requires
        0 <= i <= ts.len(),
        !(token_in(ts, i).kind is EOF),
        !next_outcome(ts, i).0,
        i < next_outcome(ts, i).1 <= ts.len(),
        forall|tail: Seq<Statement>|
            program_value(ts, i, tail) ==> #[trigger] program_value(ts, start, done + tail),
    ensures
        forall|tail: Seq<Statement>|
            program_value(ts, next_outcome(ts, i).1, tail) ==> #[trigger] program_value(ts, start, done + tail),
{
    assert forall|tail: Seq<Statement>| program_value(ts, next_outcome(ts, i).1, tail) implies #[trigger] program_value(
        ts,
        start,
        done + tail,
    ) by {
        assert(program_value(ts, i, tail));
    }
}

pub struct Parser {
    pub program_data: ProgramData,
    pub position: usize,
    pub file_name: String,
}

impl Parser {
    pub open spec fn len(&self) -> int {
        self.program_data.tokens@.len() as int
    }

    pub open spec fn wf(&self) -> bool {
        self.position <= self.program_data.tokens@.len()
    }

    /// The end-of-file token that reading past the last token gives.
    pub open spec fn end_token(&self) -> Token {
        end_token_of(self.program_data.tokens@)
    }

    /// The token at `i`; past the end, the end-of-file token.
    pub open spec fn token_at(&self, i: int) -> Token {
        token_in(self.program_data.tokens@, i)
    }

    pub open spec fn kind_at(&self, i: int) -> TokenType {
        token_in(self.program_data.tokens@, i).kind
    }

    pub open spec fn punct_at(&self, i: int, p: Punctuations) -> bool {
        self.kind_at(i) == TokenType::Punctuation(p)
    }

    pub open spec fn stops_at(&self, i: int) -> bool {
        stops_in(self.program_data.tokens@, i)
    }

    pub open spec fn next_stop(&self, i: int) -> int {
        next_stop_in(self.program_data.tokens@, i)
    }

    /// Where recovering from an error at `i` resumes: just past the next `;`, or at the
    /// end of the tokens when none follows.
    pub open spec fn resume_after(&self, i: int) -> int {
        let j = self.next_stop(i);
        if self.punct_at(j, Punctuations::Semicolon) {
            j + 1
        } else {
            j
        }
    }

    /// One step forward, but never past the end.
    pub open spec fn step(&self, i: int) -> int {
        if i < self.len() {
            i + 1
        } else {
            i
        }
    }

    /// What every routine keeps: the data but the errors, the file name; errors only grow
    /// and the position only moves forward.
    pub open spec fn keeps(&self, old: &Parser) -> bool {
        &&& same_but_errors(self.program_data, old.program_data)
        &&& self.file_name == old.file_name
        &&& extends(self.program_data.errors@, old.program_data.errors@)
        &&& old.position <= self.position <= self.program_data.tokens@.len()
    }

    /// Progress: a routine started before the end moves past its first token.
    pub open spec fn moved_on(&self, old: &Parser) -> bool {
        old.position < old.len() ==> self.position > old.position
    }

    pub proof fn lemma_next_stop(&self, i: int)
        requires
            0 <= i <= self.len(),
        ensures
            i <= self.next_stop(i) <= self.len(),
            self.next_stop(i) == self.len() || self.stops_at(self.next_stop(i)),
            self.next_stop(i) < self.len() ==> self.stops_at(self.next_stop(i)),
            forall|k: int| i <= k < self.next_stop(i) ==> !self.stops_at(k),
        decreases self.len() - i,
    {
        if i < self.len() && !self.stops_at(i) {
            self.lemma_next_stop(i + 1);
        }
    }

    pub proof fn lemma_resume(&self, i: int)
        requires
            0 <= i <= self.len(),
        ensures
            i <= self.resume_after(i) <= self.len(),
            i < self.len() && !self.stops_at(i) ==> self.resume_after(i) > i,
            i < self.len() && self.punct_at(i, Punctuations::Semicolon) ==> self.resume_after(i) == i + 1,
    {
        self.lemma_next_stop(i);
    }

    /// A parser at the first token of `program_data`.
    pub fn new(program_data: ProgramData, file_name: &str) -> (r: Self)
        ensures
            r.program_data == program_data,
            r.position == 0,
            r.file_name@ == file_name@,
            r.wf(),
    {
        Parser { program_data, position: 0, file_name: file_name.to_owned() }
    }

    pub fn advance_position(&mut self)
        requires
            old(self).wf(),
        ensures
            final(self).program_data == old(self).program_data,
            final(self).file_name == old(self).file_name,
            final(self).position == old(self).step(old(self).position as int),
            final(self).wf(),
    {
        if self.position < self.program_data.tokens.len() {
            self.position = self.position + 1;
        }
    }

    /// A copy of the token at the current position; past the end, the end-of-file token.
    pub fn current_token(&self) -> (r: Token)
        requires
            self.wf(),
        ensures
            self.kind_at(self.position as int).is_lexical() ==> r == self.token_at(self.position as int),
            r.kind.is_lexical() <==> self.kind_at(self.position as int).is_lexical(),
            r.kind.spec_debug_text() == self.kind_at(self.position as int).spec_debug_text(),
            r.kind.spec_type_string() == self.kind_at(self.position as int).spec_type_string(),
            r.kind is EOF <==> self.kind_at(self.position as int) is EOF,
            r.start_pos == self.token_at(self.position as int).start_pos,
            r.end_pos == self.token_at(self.position as int).end_pos,
            r.line == self.token_at(self.position as int).line,
            r.col == self.token_at(self.position as int).col,
    {
        let n = self.program_data.tokens.len();
        if self.position < n {
            self.program_data.tokens[self.position].duplicate()
        } else if n > 0 {
            let t = &self.program_data.tokens[n - 1];
            Token { kind: TokenType::EOF, line: t.line, col: t.col, start_pos: t.end_pos, end_pos: t.end_pos }
        } else {
            Token { kind: TokenType::EOF, line: 0, col: 0, start_pos: 0, end_pos: 0 }
        }
    }

    /// Whether the current token is the punctuation `p`.
    pub fn at_punct(&self, p: Punctuations) -> (r: bool)
        requires
            self.wf(),
        ensures
            r == self.punct_at(self.position as int, p),
    {
        if self.position < self.program_data.tokens.len() {
            match &self.program_data.tokens[self.position].kind {
                TokenType::Punctuation(q) => *q == p,
                _ => false,
            }
        } else {
            false
        }
    }

    /// Moves to the next `;`; without one, to the end of the tokens.
    pub fn skip_until_semicolon(&mut self)
        requires
            old(self).wf(),
        ensures
            final(self).program_data == old(self).program_data,
            final(self).file_name == old(self).file_name,
            final(self).position == old(self).next_stop(old(self).position as int),
            final(self).wf(),
    {
        let ghost start = self.position as int;
        while self.position < self.program_data.tokens.len()
            invariant
                self.wf(),
                self.program_data == old(self).program_data,
                self.file_name == old(self).file_name,
                self.next_stop(self.position as int) == old(self).next_stop(start),
            ensures
                self.wf(),
                self.program_data == old(self).program_data,
                self.file_name == old(self).file_name,
                self.next_stop(self.position as int) == old(self).next_stop(start),
                self.next_stop(self.position as int) == self.position as int,
            decreases self.program_data.tokens@.len() - self.position,
        {
            let stop = match &self.program_data.tokens[self.position].kind {
                TokenType::Punctuation(Punctuations::Semicolon) => true,
                _ => false,
            };
            if stop {
                break;
            }
            self.position = self.position + 1;
        }
    }

    /// Skips the rest of the current statement.
    pub fn skip_statement(&mut self)
        requires
            old(self).wf(),
        ensures
            final(self).program_data == old(self).program_data,
            final(self).file_name == old(self).file_name,
            final(self).position == old(self).resume_after(old(self).position as int),
            final(self).wf(),
    {
        self.skip_until_semicolon();
        if self.at_punct(Punctuations::Semicolon) {
            self.advance_position();
        }
    }

    /// Records `error` and skips the rest of the current statement.
    pub fn handle_error(&mut self, error: &str)
        requires
            old(self).wf(),
        ensures
            same_but_errors(final(self).program_data, old(self).program_data),
            final(self).file_name == old(self).file_name,
            appended(final(self).program_data.errors@, old(self).program_data.errors@, error@),
            final(self).position == old(self).resume_after(old(self).position as int),
            final(self).keeps(old(self)),
    {
        self.program_data.errors.push(error.to_owned());
        proof {
            self.lemma_next_stop(self.position as int);
        }
        self.skip_statement();
    }

    /// Consumes the punctuation `p`, or records an invalid-token error and skips the statement.
    pub fn expect_token(&mut self, p: Punctuations) -> (r: Result<(), ()>)
        requires
            old(self).wf(),
        ensures
            final(self).keeps(old(self)),
            r is Ok <==> old(self).punct_at(old(self).position as int, p),
            r is Ok ==> final(self).program_data == old(self).program_data && final(self).position
                == old(self).position + 1,
            r is Err ==> appended(
                final(self).program_data.errors@,
                old(self).program_data.errors@,
                message(
                    ErrorKind::InvalidToken,
                    seq![
                        TokenType::Punctuation(p).spec_debug_text(),
                        old(self).kind_at(old(self).position as int).spec_debug_text(),
                    ],
                ),
            ) && final(self).position == old(self).resume_after(old(self).position as int),
    {
        if self.at_punct(p) {
            self.advance_position();
            return Ok(());
        }
        let found = self.current_token();
        let expected = TokenType::Punctuation(p).debug_text();
        let msg = message2(ErrorKind::InvalidToken, expected, found.kind.debug_text());
        self.handle_error(msg.as_str());
        Err(())
    }

    /// A string literal read as an array of its character codes.
    pub fn parse_array_init_string(&mut self) -> (r: Option<Expression>)
        requires
            old(self).wf(),
        ensures
            final(self).keeps(old(self)),
            old(self).kind_at(old(self).position as int) matches TokenType::Literal(Literal::String(s))
                ==> ((r matches Some(e) && is_char_array(e, s@)) && final(self).program_data
                == old(self).program_data && final(self).position == old(self).position + 1),
            !(old(self).kind_at(old(self).position as int) matches TokenType::Literal(Literal::String(_))) ==> r is None
                && appended(
                final(self).program_data.errors@,
                old(self).program_data.errors@,
                message(ErrorKind::ExpectedToken, seq![debug_quoted("String literal"@)]),
            ) && final(self).position == old(self).resume_after(old(self).position as int),
    {
        let tok = self.current_token();
        let string = match tok.kind {
            TokenType::Literal(Literal::String(string)) => string,
            _ => {
                let expected = TokenType::Literal(Literal::StringEmpty).type_string();
                let msg = message1(ErrorKind::ExpectedToken, debug_quote(expected.as_str()));
                self.handle_error(msg.as_str());
                return None;
            },
        };
        self.advance_position();
        let cs = chars_of(string.as_str());
        let mut items: Vec<Expression> = Vec::new();
        let mut i: usize = 0;
        while i < cs.len()
            invariant
                i <= cs@.len(),
                cs@ == string@,
                items@.len() == i,
                forall|j: int| 0 <= j < i ==> items@[j] == Expression::Literal(Literal::Number((cs@[j] as u32) as i64)),
            decreases cs@.len() - i,
        {
            let code = cs[i] as u32;
            items.push(Expression::Literal(Literal::Number(code as i64)));
            i = i + 1;
        }
        Some(Expression::Literal(Literal::Array(ArrayLiteral { items, cg_items: Vec::new() })))
    }

    /// An array literal: `[` expressions separated by `,` `]`.
    pub fn parse_array_init(&mut self) -> (r: Option<Expression>)
        requires
            old(self).wf(),
        ensures
            final(self).keeps(old(self)),
            r is Some ==> final(self).position > old(self).position,
            old(self).punct_at(old(self).position as int, Punctuations::OpenSquareBracket) ==> final(self).position
                > old(self).position,
            r matches Some(e) ==> (e matches Expression::Literal(Literal::Array(a)) && a.items@.len() >= 1
                && a.cg_items@.len() == 0),
            !old(self).punct_at(old(self).position as int, Punctuations::OpenSquareBracket) ==> r is None,
            ({
                let ts = old(self).program_data.tokens@;
                let o = array_outcome(ts, old(self).position as int);
                &&& (r is Some) == o.0
                &&& final(self).position == o.1
                &&& errors_added(final(self).program_data.errors@, old(self).program_data.errors@, o.2)
                &&& r matches Some(e) ==> expr_value(ts, old(self).position as int, e)
            }),
        decreases old(self).len() - old(self).position, 0nat,
    {
        let ghost ts = self.program_data.tokens@;
        let ghost start = self.position as int;
        let ghost o = array_outcome(ts, start);
        if self.expect_token(Punctuations::OpenSquareBracket).is_err() {
            proof {
                lemma_errors_added_one(self.program_data.errors@, old(self).program_data.errors@, expect_msg(ts, start, Punctuations::OpenSquareBracket));
            }
            return None;
        }
        let mut items: Vec<Expression> = Vec::new();
        let ghost mut acc: Seq<Seq<char>> = seq![];
        proof {
            lemma_errors_added_none(self.program_data.errors@);
        }
        loop
            invariant_except_break
                o == ({
                    let rest = items_outcome(ts, self.position as int);
                    (rest.0, rest.1, acc + rest.2)
                }),
                errors_added(self.program_data.errors@, old(self).program_data.errors@, acc),
                forall|tail: Seq<Expression>|
                    items_value(ts, self.position as int, tail) ==> #[trigger] items_value(ts, start + 1, items@ + tail),
            invariant
                self.wf(),
                self.keeps(old(self)),
                self.position > old(self).position,
                ts == self.program_data.tokens@,
                start == old(self).position,
                start < ts.len(),
                o == array_outcome(ts, start),
            ensures
                self.wf(),
                self.keeps(old(self)),
                self.position > old(self).position,
                items@.len() >= 1,
                o.0 && self.position == o.1,
                errors_added(self.program_data.errors@, old(self).program_data.errors@, o.2),
                items_value(ts, start + 1, items@),
            decreases self.len() - self.position,
        {
            let ghost p = self.position as int;
            let ghost before = self.program_data.errors@;
            let ghost old_items = items@;
            let expr = self.parse_expr();
            let ghost eo = expr_outcome(ts, p);
            proof {
                lemma_errors_added_trans(old(self).program_data.errors@, before, self.program_data.errors@, acc, eo.2);
            }
            let e = match expr {
                Some(e) => e,
                None => {
                    let ghost mid = self.program_data.errors@;
                    let expected = Statements::ExpressionEmpty.type_string();
                    let msg = message1(ErrorKind::ExpectedToken, debug_quote(expected.as_str()));
                    self.handle_error(msg.as_str());
                    proof {
                        lemma_errors_added_one(self.program_data.errors@, mid, expected_expression_msg());
                        lemma_errors_added_trans(old(self).program_data.errors@, mid, self.program_data.errors@, acc + eo.2, seq![expected_expression_msg()]);
                        assert(acc + eo.2 + seq![expected_expression_msg()] =~= acc + eo.2.push(expected_expression_msg()));
                    }
                    return None;
                },
            };
            let ghost value = e;
            items.push(e);
            if self.at_punct(Punctuations::ClosedSquareBracket) {
                self.advance_position();
                proof {
                    assert(acc + eo.2 == o.2);
                    assert(items_value(ts, p, seq![value]));
                    assert(items_value(ts, start + 1, old_items + seq![value]));
                    assert(old_items + seq![value] =~= items@);
                }
                break;
            } else if self.at_punct(Punctuations::Comma) {
                self.advance_position();
                proof {
                    let q = self.position as int;
                    let rest = items_outcome(ts, q);
                    assert(acc + (eo.2 + rest.2) =~= acc + eo.2 + rest.2);
                    assert forall|tail: Seq<Expression>| items_value(ts, q, tail) implies #[trigger] items_value(ts, start + 1, items@ + tail) by {
                        let whole = seq![value] + tail;
                        assert(whole.drop_first() =~= tail);
                        assert(whole[0] == value);
                        assert(items_value(ts, p, whole));
                        assert(items_value(ts, start + 1, old_items + whole));
                        assert(old_items + whole =~= items@ + tail);
                    }
                }
                proof {
                    acc = acc + eo.2;
                }
            } else {
                let ghost mid = self.program_data.errors@;
                self.handle_error(ErrorKind::Unknown.template());
                proof {
                    lemma_errors_added_one(self.program_data.errors@, mid, ErrorKind::Unknown.spec_template());
                    lemma_errors_added_trans(old(self).program_data.errors@, mid, self.program_data.errors@, acc + eo.2, seq![ErrorKind::Unknown.spec_template()]);
                    assert(acc + eo.2 + seq![ErrorKind::Unknown.spec_template()] =~= acc + eo.2.push(ErrorKind::Unknown.spec_template()));
                }
                return None;
            }
        }
        Some(Expression::Literal(Literal::Array(ArrayLiteral { items, cg_items: Vec::new() })))
    }

    /// An expression: a number, a string (as an array of character codes), an array
    /// literal, a name, or a name indexed by `[` expression `]`.
    pub fn parse_expr(&mut self) -> (r: Option<Expression>)
        requires
            old(self).wf(),
        ensures
            final(self).keeps(old(self)),
            r is Some ==> final(self).position > old(self).position,
            starts_expression(old(self).kind_at(old(self).position as int)) ==> final(self).position
                > old(self).position,
            !starts_expression(old(self).kind_at(old(self).position as int)) ==> r is None && *final(self)
                == *old(self),
            old(self).kind_at(old(self).position as int) matches TokenType::Literal(Literal::Number(n))
                ==> (r == Some(Expression::Literal(Literal::Number(n))) && final(self).program_data
                == old(self).program_data && final(self).position == old(self).position + 1),
            old(self).kind_at(old(self).position as int) matches TokenType::Literal(Literal::String(s))
                ==> ((r matches Some(e) && is_char_array(e, s@)) && final(self).program_data
                == old(self).program_data && final(self).position == old(self).position + 1),
            ({
                let ts = old(self).program_data.tokens@;
                let o = expr_outcome(ts, old(self).position as int);
                &&& (r is Some) == o.0
                &&& final(self).position == o.1
                &&& errors_added(final(self).program_data.errors@, old(self).program_data.errors@, o.2)
                &&& r matches Some(e) ==> expr_value(ts, old(self).position as int, e)
            }),
        decreases old(self).len() - old(self).position, 1nat,
    {
        let ghost ts = self.program_data.tokens@;
        let ghost i = self.position as int;
        proof {
            lemma_errors_added_none(self.program_data.errors@);
        }
        let tok = self.current_token();
        match tok.kind {
            TokenType::Literal(Literal::String(_)) => self.parse_array_init_string(),
            TokenType::Literal(Literal::Number(n)) => {
                self.advance_position();
                Some(Expression::Literal(Literal::Number(n)))
            },
            TokenType::Punctuation(Punctuations::OpenSquareBracket) => self.parse_array_init(),
            TokenType::Identifier(Identifiers::Identifier(identifier)) => {
                self.advance_position();
                if self.at_punct(Punctuations::OpenSquareBracket) {
                    self.advance_position();
                    let ghost before = self.program_data.errors@;
                    let index = self.parse_expr();
                    let ghost io = expr_outcome(ts, i + 2);
                    match index {
                        None => {
                            let ghost mid = self.program_data.errors@;
                            let expected = Statements::ExpressionEmpty.type_string();
                            let msg = message1(ErrorKind::ExpectedStatement, debug_quote(expected.as_str()));
                            self.handle_error(msg.as_str());
                            proof {
                                let m = message(ErrorKind::ExpectedStatement, seq![debug_quoted("Expression"@)]);
                                lemma_errors_added_one(self.program_data.errors@, mid, m);
                                lemma_errors_added_trans(old(self).program_data.errors@, mid, self.program_data.errors@, io.2, seq![m]);
                                assert(io.2 + seq![m] =~= io.2.push(m));
                            }
                            None
                        },
                        Some(index) => {
                            let ghost mid = self.program_data.errors@;
                            if self.expect_token(Punctuations::ClosedSquareBracket).is_err() {
                                proof {
                                    let m = expect_msg(ts, io.1, Punctuations::ClosedSquareBracket);
                                    lemma_errors_added_one(self.program_data.errors@, mid, m);
                                    lemma_errors_added_trans(old(self).program_data.errors@, mid, self.program_data.errors@, io.2, seq![m]);
                                    assert(io.2 + seq![m] =~= io.2.push(m));
                                }
                                return None;
                            }
                            Some(Expression::ArrayIndex(ArrayIndex { identifier, index: Box::new(index) }))
                        },
                    }
                } else {
                    Some(Expression::Identifier(Identifiers::Identifier(identifier)))
                }
            },
            _ => None,
        }
    }

    /// Records `kind`'s message (it takes no argument) and skips the statement.
    fn fail(&mut self, kind: ErrorKind)
        requires
            old(self).wf(),
        ensures
            final(self).keeps(old(self)),
            appended(final(self).program_data.errors@, old(self).program_data.errors@, kind.spec_template()),
            final(self).position == old(self).resume_after(old(self).position as int),
    {
        self.handle_error(kind.template());
    }

    /// Records `kind`'s message with what was expected and what was found, both quoted,
    /// and skips the statement.
    fn fail_expected(&mut self, kind: ErrorKind, expected: String, found: String)
        requires
            old(self).wf(),
        ensures
            final(self).keeps(old(self)),
            appended(
                final(self).program_data.errors@,
                old(self).program_data.errors@,
                message(kind, seq![debug_quoted(expected@), debug_quoted(found@)]),
            ),
            final(self).position == old(self).resume_after(old(self).position as int),
    {
        let msg = message2(kind, debug_quote(expected.as_str()), debug_quote(found.as_str()));
        self.handle_error(msg.as_str());
    }

    /// Records `kind`'s message with what was expected, quoted, and skips the statement.
    fn fail_expected_one(&mut self, kind: ErrorKind, expected: String)
        requires
            old(self).wf(),
        ensures
            final(self).keeps(old(self)),
            appended(
                final(self).program_data.errors@,
                old(self).program_data.errors@,
                message(kind, seq![debug_quoted(expected@)]),
            ),
            final(self).position == old(self).resume_after(old(self).position as int),
    {
        let msg = message1(kind, debug_quote(expected.as_str()));
        self.handle_error(msg.as_str());
    }

    /// Records `msg` and skips the statement.
    fn fail_with(&mut self, msg: String)
        requires
            old(self).wf(),
        ensures
            final(self).keeps(old(self)),
            appended(final(self).program_data.errors@, old(self).program_data.errors@, msg@),
            final(self).position == old(self).resume_after(old(self).position as int),
    {
        self.handle_error(msg.as_str());
    }

    /// A variable declaration `<type> <name>;` or `<type> <name> = <expression>;`, with the
    /// current token at the name.
    pub fn parse_variable_declaration(&mut self, first_token: &Token, var_type: VariableType, var_name: &String) -> (r: Option<Statement>)
        requires
            old(self).wf(),
        ensures
            final(self).keeps(old(self)),
            !old(self).stops_at(old(self).position as int) ==> final(self).moved_on(old(self)),
            var_type is Void ==> r is None && appended(
                final(self).program_data.errors@,
                old(self).program_data.errors@,
                ErrorKind::VariableCannotBeVoid.spec_template(),
            ) && final(self).position == old(self).resume_after(old(self).position as int),
            r matches Some(s) ==> (s.statement_type matches Statements::VariableDeclaration(d) && d.name == *var_name
                && d.variable_type == var_type && starts_at(s, *first_token)),
            !(var_type is Void) && old(self).position < old(self).len() && old(self).punct_at(
                old(self).position + 1,
                Punctuations::Semicolon,
            ) ==> (r matches Some(s) && s.statement_type matches Statements::VariableDeclaration(d)
                && d.value is None) && final(self).program_data == old(self).program_data && final(self).position
                == old(self).position + 2,
            ({
                let ts = old(self).program_data.tokens@;
                let o = var_decl_outcome(ts, old(self).position as int, var_type);
                &&& (r is Some) == o.0
                &&& final(self).position == o.1
                &&& errors_added(final(self).program_data.errors@, old(self).program_data.errors@, o.2)
                &&& r matches Some(s) ==> var_decl_value(ts, old(self).position as int, var_type, *var_name, *first_token, s)
            }),
    {
        let ghost ts = self.program_data.tokens@;
        let ghost i = self.position as int;
        proof {
            lemma_errors_added_none(self.program_data.errors@);
        }
        let is_void = match var_type {
            VariableType::Void => true,
            _ => false,
        };
        if is_void {
            proof {
                self.lemma_resume(self.position as int);
            }
            self.fail(ErrorKind::VariableCannotBeVoid);
            proof {
                lemma_errors_added_one(self.program_data.errors@, old(self).program_data.errors@, ErrorKind::VariableCannotBeVoid.spec_template());
            }
            return None;
        }
        self.advance_position();
        let value_tkn = self.current_token();
        match value_tkn.kind {
            TokenType::Operator(_) => {
                self.advance_position();
                let ghost e = expr_outcome(ts, self.position as int);
                let value = match self.parse_expr() {
                    Some(v) => v,
                    None => {
                        let ghost mid = self.program_data.errors@;
                        self.fail_expected_one(ErrorKind::ExpectedToken, Statements::ExpressionEmpty.type_string());
                        proof {
                            lemma_errors_added_one(self.program_data.errors@, mid, expected_expression_msg());
                            lemma_errors_added_trans(old(self).program_data.errors@, mid, self.program_data.errors@, e.2, seq![expected_expression_msg()]);
                            assert(e.2 + seq![expected_expression_msg()] =~= e.2.push(expected_expression_msg()));
                        }
                        return None;
                    },
                };
                let semicolon_token = self.current_token();
                let ghost mid = self.program_data.errors@;
                if self.expect_token(Punctuations::Semicolon).is_err() {
                    proof {
                        let m = expect_msg(ts, e.1, Punctuations::Semicolon);
                        lemma_errors_added_one(self.program_data.errors@, mid, m);
                        lemma_errors_added_trans(old(self).program_data.errors@, mid, self.program_data.errors@, e.2, seq![m]);
                        assert(e.2 + seq![m] =~= e.2.push(m));
                    }
                    return None;
                }
                Some(
                    Statement::new(
                        first_token,
                        semicolon_token.end_pos,
                        Statements::VariableDeclaration(
                            VariableDeclaration { name: var_name.clone(), value: Some(value), variable_type: var_type },
                        ),
                    ),
                )
            },
            TokenType::Punctuation(Punctuations::Semicolon) => {
                let end_pos = value_tkn.end_pos;
                self.advance_position();
                Some(
                    Statement::new(
                        first_token,
                        end_pos,
                        Statements::VariableDeclaration(
                            VariableDeclaration { name: var_name.clone(), value: None, variable_type: var_type },
                        ),
                    ),
                )
            },
            _ => {
                self.fail(ErrorKind::Unknown);
                proof {
                    lemma_errors_added_one(self.program_data.errors@, old(self).program_data.errors@, ErrorKind::Unknown.spec_template());
                }
                None
            },
        }
    }

    /// `stack_offset(<name>)`.
    fn parse_stack_offset(&mut self, token: &Token) -> (r: Option<Statement>)
        requires
            old(self).wf(),
        ensures
            final(self).keeps(old(self)),
            final(self).moved_on(old(self)),
            r matches Some(s) ==> (s.statement_type matches Statements::Expression(
                Expression::BuiltInFunction(BuiltInFunctionsAst::StackOffset(name)),
            ) && old(self).kind_at(old(self).position + 2) == TokenType::Identifier(Identifiers::Identifier(name))
                && starts_at(s, *token)),
            ({
                let ts = old(self).program_data.tokens@;
                let o = stack_offset_outcome(ts, old(self).position as int);
                &&& (r is Some) == o.0
                &&& final(self).position == o.1
                &&& errors_added(final(self).program_data.errors@, old(self).program_data.errors@, o.2)
                &&& r matches Some(s) ==> stack_offset_value(ts, old(self).position as int, *token, s)
            }),
    {
        let ghost ts = self.program_data.tokens@;
        let ghost i = self.position as int;
        self.advance_position();
        if self.expect_token(Punctuations::OpenParenthesis).is_err() {
            proof {
                lemma_errors_added_one(self.program_data.errors@, old(self).program_data.errors@, expect_msg(ts, step_in(ts, i), Punctuations::OpenParenthesis));
            }
            return None;
        }
        let var_name_tkn = self.current_token();
        let var_name = match var_name_tkn.kind {
            TokenType::Identifier(Identifiers::Identifier(name)) => name,
            _ => {
                self.fail_expected(ErrorKind::InvalidToken, TokenType::IdentifierEmpty.type_string(), var_name_tkn.kind.type_string());
                proof {
                    lemma_errors_added_one(self.program_data.errors@, old(self).program_data.errors@, wanted_msg(ts, step_in(ts, i) + 1, TokenType::IdentifierEmpty.spec_type_string()));
                }
                return None;
            },
        };
        self.advance_position();
        let end_pos = self.current_token().end_pos;
        if self.expect_token(Punctuations::ClosedParenthesis).is_err() {
            proof {
                lemma_errors_added_one(self.program_data.errors@, old(self).program_data.errors@, expect_msg(ts, step_in(ts, i) + 2, Punctuations::ClosedParenthesis));
            }
            return None;
        }
        proof {
            lemma_errors_added_none(self.program_data.errors@);
        }
        Some(
            Statement::new(
                token,
                end_pos,
                Statements::Expression(Expression::BuiltInFunction(BuiltInFunctionsAst::StackOffset(var_name))),
            ),
        )
    }

    /// `bl(<function name>, <argument>, ...);`: a call; each argument is a literal or a name.
    fn parse_branch_linked(&mut self, token: &Token) -> (r: Option<Statement>)
        requires
            old(self).wf(),
        ensures
            final(self).keeps(old(self)),
            final(self).moved_on(old(self)),
            r matches Some(s) ==> (s.statement_type matches Statements::Expression(
                Expression::BuiltInFunction(BuiltInFunctionsAst::BranchLinked(bl)),
            ) && old(self).kind_at(old(self).position + 2) == TokenType::Identifier(
                Identifiers::Identifier(bl.function_name),
            ) && starts_at(s, *token)),
            ({
                let ts = old(self).program_data.tokens@;
                let o = call_outcome(ts, old(self).position as int);
                &&& (r is Some) == o.0
                &&& final(self).position == o.1
                &&& errors_added(final(self).program_data.errors@, old(self).program_data.errors@, o.2)
                &&& r matches Some(s) ==> call_value(ts, old(self).position as int, *token, s)
            }),
    {
        let ghost ts = self.program_data.tokens@;
        let ghost i = self.position as int;
        let ghost i1 = step_in(ts, i);
        let ghost lex = forall|k: int| 0 <= k < ts.len() ==> (#[trigger] ts[k]).kind.is_lexical();
        self.advance_position();
        if self.expect_token(Punctuations::OpenParenthesis).is_err() {
            proof {
                lemma_errors_added_one(self.program_data.errors@, old(self).program_data.errors@, expect_msg(ts, i1, Punctuations::OpenParenthesis));
            }
            return None;
        }
        let identifier_tkn = self.current_token();
        let identifier = match identifier_tkn.kind {
            TokenType::Identifier(Identifiers::Identifier(name)) => name,
            _ => {
                self.fail_expected(ErrorKind::InvalidToken, TokenType::IdentifierEmpty.type_string(), identifier_tkn.kind.type_string());
                proof {
                    lemma_errors_added_one(self.program_data.errors@, old(self).program_data.errors@, wanted_msg(ts, i1 + 1, TokenType::IdentifierEmpty.spec_type_string()));
                }
                return None;
            },
        };
        self.advance_position();
        let ghost after_name = self.position;
        let ghost a = call_args_outcome(ts, i1 + 2);
        let mut args: Vec<Expression> = Vec::new();
        loop
            invariant_except_break
                call_args_outcome(ts, self.position as int) == a,
                lex ==> forall|tail: Seq<Expression>|
                    call_args_value(ts, self.position as int, tail) ==> #[trigger] call_args_value(ts, i1 + 2, args@ + tail),
            invariant
                self.wf(),
                self.keeps(old(self)),
                self.position >= after_name,
                after_name > old(self).position,
                after_name == i1 + 2,
                ts == self.program_data.tokens@,
                self.program_data == old(self).program_data,
                lex == forall|k: int| 0 <= k < ts.len() ==> (#[trigger] ts[k]).kind.is_lexical(),
                old(self).kind_at(old(self).position + 2) == TokenType::Identifier(Identifiers::Identifier(identifier)),
                a == call_args_outcome(ts, i1 + 2),
                i == old(self).position,
                i1 == step_in(ts, i),
                punct_in(ts, i1, Punctuations::OpenParenthesis),
                token_in(ts, i1 + 1).kind matches TokenType::Identifier(Identifiers::Identifier(_)),
            ensures
                a.0,
                self.position == a.1 + 1,
                lex ==> call_args_value(ts, i1 + 2, args@),
            decreases self.len() - self.position,
        {
            let ghost j = self.position as int;
            let ghost old_args = args@;
            let tok = self.current_token();
            match tok.kind {
                TokenType::Punctuation(Punctuations::ClosedParenthesis) => {
                    self.advance_position();
                    proof {
                        if lex {
                            assert(call_args_value(ts, j, seq![]));
                            assert(old_args + seq![] =~= old_args);
                        }
                    }
                    break;
                },
                TokenType::Punctuation(Punctuations::Comma) => {
                    self.advance_position();
                    let expr_tkn = self.current_token();
                    match expr_tkn.kind {
                        TokenType::Literal(literal) => args.push(Expression::Literal(literal)),
                        TokenType::Identifier(identifier) => args.push(Expression::Identifier(identifier)),
                        _ => {
                            self.fail_expected(
                                ErrorKind::InvalidToken,
                                Statements::ExpressionEmpty.type_string(),
                                expr_tkn.kind.type_string(),
                            );
                            proof {
                                lemma_errors_added_one(self.program_data.errors@, old(self).program_data.errors@, wanted_msg(ts, j + 1, "Expression"@));
                            }
                            return None;
                        },
                    }
                    self.advance_position();
                    proof {
                        if lex {
                            let e = args@.last();
                            assert(ts[j + 1].kind.is_lexical());
                            assert forall|tail: Seq<Expression>| call_args_value(ts, j + 2, tail) implies #[trigger] call_args_value(ts, i1 + 2, args@ + tail) by {
                                let whole = seq![e] + tail;
                                assert(whole.drop_first() =~= tail);
                                assert(call_args_value(ts, j, whole));
                                assert(old_args + whole =~= args@ + tail);
                            }
                        }
                    }
                },
                _ => {
                    self.fail(ErrorKind::Unknown);
                    proof {
                        lemma_errors_added_one(self.program_data.errors@, old(self).program_data.errors@, ErrorKind::Unknown.spec_template());
                    }
                    return None;
                },
            }
        }
        let end_pos = self.current_token().end_pos;
        if self.expect_token(Punctuations::Semicolon).is_err() {
            proof {
                lemma_errors_added_one(self.program_data.errors@, old(self).program_data.errors@, expect_msg(ts, a.1 + 1, Punctuations::Semicolon));
            }
            return None;
        }
        proof {
            lemma_errors_added_none(self.program_data.errors@);
        }
        Some(
            Statement::new(
                token,
                end_pos,
                Statements::Expression(
                    Expression::BuiltInFunction(BuiltInFunctionsAst::BranchLinked(BranchLinkedAst { args, function_name: identifier })),
                ),
            ),
        )
    }

    /// `<name> = <expression>;` or `<name>[<index>] = <expression>;`, with the current token at
    /// the name.
    fn parse_assignment(&mut self, token: &Token) -> (r: Option<Statement>)
        requires
            old(self).wf(),
            old(self).kind_at(old(self).position as int) matches TokenType::Identifier(Identifiers::Identifier(_)),
        ensures
            final(self).keeps(old(self)),
            final(self).moved_on(old(self)),
            r matches Some(s) ==> (s.statement_type is Assignment && starts_at(s, *token)),
            ({
                let ts = old(self).program_data.tokens@;
                let o = assignment_outcome(ts, old(self).position as int);
                &&& (r is Some) == o.0
                &&& final(self).position == o.1
                &&& errors_added(final(self).program_data.errors@, old(self).program_data.errors@, o.2)
                &&& r matches Some(s) ==> assignment_value(ts, old(self).position as int, *token, s)
            }),
    {
        let ghost ts = self.program_data.tokens@;
        let ghost i = self.position as int;
        let ghost t = expr_outcome(ts, i);
        let identifier_expr = match self.parse_expr() {
            Some(e) => e,
            None => {
                let ghost mid = self.program_data.errors@;
                self.fail(ErrorKind::Unknown);
                proof {
                    let m = ErrorKind::Unknown.spec_template();
                    lemma_errors_added_one(self.program_data.errors@, mid, m);
                    lemma_errors_added_trans(old(self).program_data.errors@, mid, self.program_data.errors@, t.2, seq![m]);
                    assert(t.2 + seq![m] =~= t.2.push(m));
                }
                return None;
            },
        };
        let ghost after_target = self.program_data.errors@;
        let tok = self.current_token();
        match tok.kind {
            TokenType::Operator(_) => {
                self.advance_position();
                let ghost v = expr_outcome(ts, t.1 + 1);
                let assign_value = match self.parse_expr() {
                    Some(e) => e,
                    None => {
                        let ghost mid = self.program_data.errors@;
                        self.fail_expected_one(ErrorKind::ExpectedStatement, Statements::ExpressionEmpty.type_string());
                        proof {
                            let m = message(ErrorKind::ExpectedStatement, seq![debug_quoted("Expression"@)]);
                            lemma_errors_added_one(self.program_data.errors@, mid, m);
                            lemma_errors_added_trans(old(self).program_data.errors@, after_target, mid, t.2, v.2);
                            lemma_errors_added_trans(old(self).program_data.errors@, mid, self.program_data.errors@, t.2 + v.2, seq![m]);
                            assert(t.2 + v.2 + seq![m] =~= t.2 + v.2.push(m));
                        }
                        return None;
                    },
                };
                let end_pos = self.current_token().end_pos;
                let ghost mid = self.program_data.errors@;
                proof {
                    lemma_errors_added_trans(old(self).program_data.errors@, after_target, mid, t.2, v.2);
                }
                if self.expect_token(Punctuations::Semicolon).is_err() {
                    proof {
                        let m = expect_msg(ts, v.1, Punctuations::Semicolon);
                        lemma_errors_added_one(self.program_data.errors@, mid, m);
                        lemma_errors_added_trans(old(self).program_data.errors@, mid, self.program_data.errors@, t.2 + v.2, seq![m]);
                        assert(t.2 + v.2 + seq![m] =~= t.2 + v.2.push(m));
                    }
                    return None;
                }
                Some(
                    Statement::new(
                        token,
                        end_pos,
                        Statements::Assignment(Assignment { identifier: identifier_expr, value: assign_value }),
                    ),
                )
            },
            _ => {
                self.fail(ErrorKind::Unknown);
                proof {
                    let m = ErrorKind::Unknown.spec_template();
                    lemma_errors_added_one(self.program_data.errors@, after_target, m);
                    lemma_errors_added_trans(old(self).program_data.errors@, after_target, self.program_data.errors@, t.2, seq![m]);
                    assert(t.2 + seq![m] =~= t.2.push(m));
                }
                None
            },
        }
    }

    /// An expression inside `compare(..)`: a literal, a name, or a built-in function call
    /// (after which one more token is skipped).
    pub fn handle_expr(&mut self) -> (r: Option<Expression>)
        requires
            old(self).wf(),
        ensures
            final(self).keeps(old(self)),
            old(self).kind_at(old(self).position as int) matches TokenType::Literal(lit) ==> (!(lit is Array) ==> (
            r == Some(Expression::Literal(lit)) && final(self).program_data == old(self).program_data
                && final(self).position == old(self).position + 1)),
            old(self).kind_at(old(self).position as int) matches TokenType::Identifier(Identifiers::Identifier(name))
                ==> (r == Some(Expression::Identifier(Identifiers::Identifier(name))) && final(self).program_data
                == old(self).program_data && final(self).position == old(self).position + 1),
            !(old(self).kind_at(old(self).position as int) is Literal) && !(old(self).kind_at(
                old(self).position as int,
            ) is BuiltInFunction) && !(old(self).kind_at(old(self).position as int) matches TokenType::Identifier(
                Identifiers::Identifier(_),
            )) ==> r is None && *final(self) == *old(self),
            ({
                let ts = old(self).program_data.tokens@;
                let o = handle_outcome(ts, old(self).position as int);
                &&& (r is Some) == o.0
                &&& final(self).position == o.1
                &&& errors_added(final(self).program_data.errors@, old(self).program_data.errors@, o.2)
            }),
            all_lexical(old(self).program_data.tokens@) ==> (r matches Some(e) ==> handle_value(old(self).program_data.tokens@, old(self).position as int, e)),
        decreases old(self).len() - old(self).position, 5nat,
    {
        proof {
            lemma_errors_added_none(self.program_data.errors@);
        }
        let tok = self.current_token();
        match tok.kind {
            TokenType::Literal(literal) => {
                self.advance_position();
                Some(Expression::Literal(literal))
            },
            TokenType::BuiltInFunction(_) => {
                let parsed = self.parse_next();
                match parsed {
                    Some(statement) => match statement.statement_type {
                        Statements::Expression(expr) => {
                            self.advance_position();
                            Some(expr)
                        },
                        _ => None,
                    },
                    None => None,
                }
            },
            TokenType::Identifier(Identifiers::Identifier(identifier)) => {
                self.advance_position();
                Some(Expression::Identifier(Identifiers::Identifier(identifier)))
            },
            _ => None,
        }
    }

    /// Statements up to the matching `}`, which is consumed; stops early at the end-of-file
    /// token, which is left for the caller.
    #[verifier::rlimit(100)]
    #[verifier::spinoff_prover]
    pub fn parse_braces_body(&mut self) -> (r: Vec<Statement>)
        requires
            old(self).wf(),
        ensures
            final(self).keeps(old(self)),
            old(self).punct_at(old(self).position as int, Punctuations::ClosedBraces) ==> r@.len() == 0
                && final(self).program_data == old(self).program_data && final(self).position == old(self).position
                + 1,
            ({
                let ts = old(self).program_data.tokens@;
                let o = braces_outcome(ts, old(self).position as int);
                &&& final(self).position == o.1
                &&& errors_added(final(self).program_data.errors@, old(self).program_data.errors@, o.2)
            }),
            all_lexical(old(self).program_data.tokens@) ==> braces_value(old(self).program_data.tokens@, old(self).position as int, r@),
        decreases old(self).len() - old(self).position, 4nat,
    {
        let ghost ts = self.program_data.tokens@;
        let ghost start = self.position as int;
        let ghost o = braces_outcome(ts, start);
        let ghost mut acc: Seq<Seq<char>> = seq![];
        proof {
            lemma_errors_added_none(self.program_data.errors@);
        }
        let mut body: Vec<Statement> = Vec::new();
        loop
            invariant_except_break
                old(self).punct_at(old(self).position as int, Punctuations::ClosedBraces) ==> body@.len() == 0
                    && self.program_data == old(self).program_data && self.position == old(self).position,
                o == ({
                    let rest = braces_outcome(ts, self.position as int);
                    (true, rest.1, acc + rest.2)
                }),
                errors_added(self.program_data.errors@, old(self).program_data.errors@, acc),
                all_lexical(ts) ==> forall|tail: Seq<Statement>|
                    braces_value(ts, self.position as int, tail) ==> #[trigger] braces_value(ts, start, body@ + tail),
            invariant
                self.wf(),
                self.keeps(old(self)),
                ts == self.program_data.tokens@,
                start == old(self).position,
                o == braces_outcome(ts, start),
            ensures
                self.wf(),
                self.keeps(old(self)),
                old(self).punct_at(old(self).position as int, Punctuations::ClosedBraces) ==> body@.len() == 0
                    && self.program_data == old(self).program_data && self.position == old(self).position + 1,
                self.position == o.1,
                errors_added(self.program_data.errors@, old(self).program_data.errors@, o.2),
                all_lexical(ts) ==> braces_value(ts, start, body@),
            decreases self.len() - self.position,
        {
            let ghost p = self.position as int;
            let ghost old_body = body@;
            if self.at_punct(Punctuations::ClosedBraces) {
                self.advance_position();
                proof {
                    assert(acc + seq![] =~= acc);
                    if all_lexical(ts) {
                        assert(braces_value(ts, p, seq![]));
                        assert(braces_value(ts, start, old_body + seq![]));
                        assert(old_body + seq![] =~= body@);
                    }
                }
                break;
            }
            let tok = self.current_token();
            let at_eof = match tok.kind {
                TokenType::EOF => true,
                _ => false,
            };
            if at_eof {
                proof {
                    assert(acc + seq![] =~= acc);
                    if all_lexical(ts) {
                        assert(braces_value(ts, p, seq![]));
                        assert(braces_value(ts, start, old_body + seq![]));
                        assert(old_body + seq![] =~= body@);
                    }
                }
                break;
            }
            let ghost before = self.program_data.errors@;
            let parsed = self.parse_next();
            proof {
                let n = next_outcome(ts, p);
                lemma_errors_added_trans(old(self).program_data.errors@, before, self.program_data.errors@, acc, n.2);
                let rest = braces_outcome(ts, self.position as int);
                assert(acc + (n.2 + rest.2) =~= acc + n.2 + rest.2);
                acc = acc + n.2;
            }
            let ghost n = next_outcome(ts, p);
            if let Some(statement) = parsed {
                let ghost st = statement;
                body.push(statement);
                proof {
                    if all_lexical(ts) {
                        assert forall|tail: Seq<Statement>| braces_value(ts, self.position as int, tail) implies #[trigger] braces_value(ts, start, body@ + tail) by {
                            let whole = seq![st] + tail;
                            assert(whole.drop_first() =~= tail);
                            assert(whole[0] == st);
                            assert(braces_value(ts, p, whole));
                            assert(braces_value(ts, start, old_body + whole));
                            assert(old_body + whole =~= body@ + tail);
                        }
                    }
                }
            } else {
                proof {
                    if all_lexical(ts) {
                        assert forall|tail: Seq<Statement>| braces_value(ts, self.position as int, tail) implies #[trigger] braces_value(ts, start, body@ + tail) by {
                            assert(braces_value(ts, p, tail));
                        }
                    }
                }
            }
        }
        body
    }

    /// `format("<text>", <argument>, ...)`: each argument is a literal or a built-in
    /// function call.
    #[verifier::rlimit(40)]
    pub fn parse_format_built_in_function(&mut self, first_token: &Token) -> (r: Option<Statement>)
        requires
            old(self).wf(),
        ensures
            final(self).keeps(old(self)),
            final(self).moved_on(old(self)),
            r matches Some(s) ==> (s.statement_type matches Statements::Expression(
                Expression::BuiltInFunction(BuiltInFunctionsAst::Format(f)),
            ) && starts_at(s, *first_token) && old(self).kind_at(old(self).position + 2) == TokenType::Literal(
                Literal::String(f.string),
            )),
            ({
                let ts = old(self).program_data.tokens@;
                let o = format_outcome(ts, old(self).position as int);
                &&& (r is Some) == o.0
                &&& final(self).position == o.1
                &&& errors_added(final(self).program_data.errors@, old(self).program_data.errors@, o.2)
            }),
            all_lexical(old(self).program_data.tokens@) ==> (r matches Some(s) ==> (starts_at(s, *first_token) && s.end_pos == token_in(old(self).program_data.tokens@, format_outcome(old(self).program_data.tokens@, old(self).position as int).1).end_pos && format_type(old(self).program_data.tokens@, old(self).position as int, s.statement_type))),
        decreases old(self).len() - old(self).position, 2nat,
    {
        let ghost ts = self.program_data.tokens@;
        let ghost i = self.position as int;
        let ghost i1 = step_in(ts, i);
        let ghost o = format_outcome(ts, i);
        self.advance_position();
        if self.expect_token(Punctuations::OpenParenthesis).is_err() {
            proof {
                lemma_errors_added_one(self.program_data.errors@, old(self).program_data.errors@, expect_msg(ts, i1, Punctuations::OpenParenthesis));
            }
            return None;
        }
        let format_string_tkn = self.current_token();
        let string_literal = match format_string_tkn.kind {
            TokenType::Literal(Literal::String(string)) => string,
            _ => {
                self.fail_expected(ErrorKind::InvalidToken, Literal::StringEmpty.type_string(), format_string_tkn.kind.type_string());
                proof {
                    lemma_errors_added_one(self.program_data.errors@, old(self).program_data.errors@, wanted_msg(ts, i1 + 1, "String literal"@));
                }
                return None;
            },
        };
        self.advance_position();
        let ghost after_string = self.position;
        let ghost mut acc: Seq<Seq<char>> = seq![];
        proof {
            lemma_errors_added_none(self.program_data.errors@);
        }
        let mut args: Vec<Expression> = Vec::new();
        loop
            invariant_except_break
                o == ({
                    let rest = format_args_outcome(ts, self.position as int);
                    (rest.0, rest.1, acc + rest.2)
                }),
                errors_added(self.program_data.errors@, old(self).program_data.errors@, acc),
                all_lexical(ts) ==> forall|tail: Seq<Expression>|
                    format_args_value(ts, self.position as int, tail) ==> #[trigger] format_args_value(ts, i1 + 2, args@ + tail),
            invariant
                self.wf(),
                self.keeps(old(self)),
                self.position >= after_string,
                after_string > old(self).position,
                old(self).kind_at(old(self).position + 2) == TokenType::Literal(Literal::String(string_literal)),
                ts == self.program_data.tokens@,
                i == old(self).position,
                o == format_outcome(ts, i),
                i1 == step_in(ts, i),
                after_string == i1 + 2,
                token_in(ts, i1 + 1).kind == TokenType::Literal(Literal::String(string_literal)),
            ensures
                self.wf(),
                self.keeps(old(self)),
                o.0,
                self.position == o.1,
                errors_added(self.program_data.errors@, old(self).program_data.errors@, o.2),
                all_lexical(ts) ==> format_args_value(ts, i1 + 2, args@),
            decreases self.len() - self.position,
        {
            let ghost j = self.position as int;
            let ghost old_args = args@;
            let tok = self.current_token();
            match tok.kind {
                TokenType::Punctuation(Punctuations::Comma) => {
                    self.advance_position();
                    let arg_token = self.current_token();
                    match arg_token.kind {
                        TokenType::Literal(literal) => {
                            args.push(Expression::Literal(literal));
                            self.advance_position();
                            proof {
                                if all_lexical(ts) {
                                    let e = args@.last();
                                    assert(ts[j + 1].kind.is_lexical());
                                    assert forall|tail: Seq<Expression>| format_args_value(ts, j + 2, tail) implies #[trigger] format_args_value(ts, i1 + 2, args@ + tail) by {
                                        let whole = seq![e] + tail;
                                        assert(whole.drop_first() =~= tail);
                                        assert(format_args_value(ts, j, whole));
                                        assert(format_args_value(ts, i1 + 2, old_args + whole));
                                        assert(old_args + whole =~= args@ + tail);
                                    }
                                }
                            }
                        },
                        TokenType::BuiltInFunction(_) => {
                            let ghost before = self.program_data.errors@;
                            let parsed = self.parse_next();
                            let ghost n = next_outcome(ts, j + 1);
                            proof {
                                lemma_errors_added_trans(old(self).program_data.errors@, before, self.program_data.errors@, acc, n.2);
                            }
                            match parsed {
                                Some(parsed) => match parsed.statement_type {
                                    Statements::Expression(expression) => {
                                        let ghost e = expression;
                                        args.push(expression);
                                        proof {
                                            if all_lexical(ts) {
                                                assert(next_type(ts, j + 1, Statements::Expression(e)));
                                                assert forall|tail: Seq<Expression>| format_args_value(ts, self.position as int, tail) implies #[trigger] format_args_value(ts, i1 + 2, args@ + tail) by {
                                                    let whole = seq![e] + tail;
                                                    assert(whole.drop_first() =~= tail);
                                                    assert(format_args_value(ts, j, whole));
                                                    assert(format_args_value(ts, i1 + 2, old_args + whole));
                                                    assert(old_args + whole =~= args@ + tail);
                                                }
                                            }
                                            let rest = format_args_outcome(ts, self.position as int);
                                            assert(acc + (n.2 + rest.2) =~= acc + n.2 + rest.2);
                                            acc = acc + n.2;
                                        }
                                    },
                                    other => {
                                        assert(other is Compare);
                                        assert(!yields_expression(token_in(ts, j + 1).kind));
                                        let ghost mid = self.program_data.errors@;
                                        self.fail_expected(
                                            ErrorKind::InvalidToken,
                                            Statements::ExpressionEmpty.type_string(),
                                            other.type_string(),
                                        );
                                        proof {
                                            let m = message(ErrorKind::InvalidToken, seq![debug_quoted("Expression"@), debug_quoted("Compare function"@)]);
                                            lemma_errors_added_one(self.program_data.errors@, mid, m);
                                            lemma_errors_added_trans(old(self).program_data.errors@, mid, self.program_data.errors@, acc + n.2, seq![m]);
                                            assert(acc + n.2 + seq![m] =~= acc + n.2.push(m));
                                            assert(n.0);
                                            assert(punct_in(ts, j, Punctuations::Comma));
                                            assert(token_in(ts, j + 1).kind is BuiltInFunction);
                                            assert(format_args_outcome(ts, j) == (false, resume_in(ts, n.1), n.2.push(m)));
                                            assert(self.position == resume_in(ts, n.1));
                                        }
                                        return None;
                                    },
                                },
                                None => {
                                    proof {
                                        assert(punct_in(ts, j, Punctuations::Comma));
                                        assert(token_in(ts, j + 1).kind is BuiltInFunction);
                                        assert(!n.0);
                                        assert(format_args_outcome(ts, j) == (false, n.1, n.2));
                                    }
                                    return None;
                                },
                            }
                        },
                        _ => {
                            let ghost mid = self.program_data.errors@;
                            self.fail_expected(
                                ErrorKind::InvalidToken,
                                Statements::ExpressionEmpty.type_string(),
                                arg_token.kind.type_string(),
                            );
                            proof {
                                let m = wanted_msg(ts, j + 1, "Expression"@);
                                lemma_errors_added_one(self.program_data.errors@, mid, m);
                                lemma_errors_added_trans(old(self).program_data.errors@, mid, self.program_data.errors@, acc, seq![m]);
                            }
                            return None;
                        },
                    }
                },
                TokenType::Punctuation(Punctuations::ClosedParenthesis) => {
                    self.advance_position();
                    proof {
                        assert(acc + seq![] =~= acc);
                        if all_lexical(ts) {
                            assert(format_args_value(ts, j, seq![]));
                            assert(format_args_value(ts, i1 + 2, old_args + seq![]));
                            assert(old_args + seq![] =~= args@);
                        }
                    }
                    break;
                },
                _ => {
                    let ghost mid = self.program_data.errors@;
                    let expected = TokenType::Punctuation(Punctuations::ClosedParenthesis).debug_text();
                    self.fail_with(message1(ErrorKind::InvalidToken, expected));
                    proof {
                        let m = message(ErrorKind::InvalidToken, seq![TokenType::Punctuation(Punctuations::ClosedParenthesis).spec_debug_text()]);
                        lemma_errors_added_one(self.program_data.errors@, mid, m);
                        lemma_errors_added_trans(old(self).program_data.errors@, mid, self.program_data.errors@, acc, seq![m]);
                    }
                    return None;
                },
            }
        }
        let end_pos = self.current_token().end_pos;
        Some(
            Statement::new(
                first_token,
                end_pos,
                Statements::Expression(
                    Expression::BuiltInFunction(BuiltInFunctionsAst::Format(Format { string: string_literal, args_provided: args })),
                ),
            ),
        )
    }

    /// `asm("<code>");` or `asm(format(..));`.
    fn parse_assembly(&mut self, token: &Token) -> (r: Option<Statement>)
        requires
            old(self).wf(),
            token.kind == old(self).kind_at(old(self).position as int),
        ensures
            final(self).keeps(old(self)),
            final(self).moved_on(old(self)),
            r matches Some(s) ==> (s.statement_type matches Statements::Expression(
                Expression::BuiltInFunction(BuiltInFunctionsAst::Assembly(_)),
            ) && starts_at(s, *token)),
            ({
                let ts = old(self).program_data.tokens@;
                let o = assembly_outcome(ts, old(self).position as int);
                &&& (r is Some) == o.0
                &&& final(self).position == o.1
                &&& errors_added(final(self).program_data.errors@, old(self).program_data.errors@, o.2)
            }),
            all_lexical(old(self).program_data.tokens@) ==> (r matches Some(s) ==> (starts_at(s, *token) && s.end_pos == token_in(old(self).program_data.tokens@, assembly_outcome(old(self).program_data.tokens@, old(self).position as int).1).end_pos && assembly_type(old(self).program_data.tokens@, old(self).position as int, s.statement_type))),
        decreases old(self).len() - old(self).position, 2nat,
    {
        let ghost ts = self.program_data.tokens@;
        let ghost i = self.position as int;
        let ghost i1 = step_in(ts, i);
        let ghost e0 = self.program_data.errors@;
        self.advance_position();
        if self.expect_token(Punctuations::OpenParenthesis).is_err() {
            proof {
                lemma_errors_added_one(self.program_data.errors@, e0, expect_msg(ts, i1, Punctuations::OpenParenthesis));
            }
            return None;
        }
        let ghost code_outcome: (bool, int, Seq<Seq<char>>) = if token_in(ts, i1 + 1).kind matches TokenType::Literal(Literal::String(_)) {
            (true, i1 + 2, seq![])
        } else if token_in(ts, i1 + 1).kind == TokenType::BuiltInFunction(BuiltInFunctions::Format) {
            next_outcome(ts, i1 + 1)
        } else {
            (false, resume_in(ts, i1 + 1), seq![wanted_msg(ts, i, "Expression"@)])
        };
        let cur = self.current_token();
        let asm_code = match cur.kind {
            TokenType::Literal(Literal::String(code)) => {
                self.advance_position();
                proof {
                    lemma_errors_added_none(e0);
                }
                Expression::Literal(Literal::String(code))
            },
            TokenType::BuiltInFunction(BuiltInFunctions::Format) => match self.parse_next() {
                Some(parsed) => match parsed.statement_type {
                    Statements::Expression(Expression::BuiltInFunction(BuiltInFunctionsAst::Format(format))) => {
                        Expression::BuiltInFunction(BuiltInFunctionsAst::Format(format))
                    },
                    _ => return None,
                },
                None => return None,
            },
            _ => {
                self.fail_expected(ErrorKind::InvalidToken, Statements::ExpressionEmpty.type_string(), token.kind.type_string());
                proof {
                    lemma_errors_added_one(self.program_data.errors@, e0, wanted_msg(ts, i, "Expression"@));
                }
                return None;
            },
        };
        let ghost mid = self.program_data.errors@;
        if self.expect_token(Punctuations::ClosedParenthesis).is_err() {
            proof {
                let m = expect_msg(ts, code_outcome.1, Punctuations::ClosedParenthesis);
                lemma_errors_added_one(self.program_data.errors@, mid, m);
                lemma_errors_added_trans(e0, mid, self.program_data.errors@, code_outcome.2, seq![m]);
                assert(code_outcome.2 + seq![m] =~= code_outcome.2.push(m));
            }
            return None;
        }
        if self.expect_token(Punctuations::Semicolon).is_err() {
            proof {
                let m = expect_msg(ts, code_outcome.1 + 1, Punctuations::Semicolon);
                lemma_errors_added_one(self.program_data.errors@, mid, m);
                lemma_errors_added_trans(e0, mid, self.program_data.errors@, code_outcome.2, seq![m]);
                assert(code_outcome.2 + seq![m] =~= code_outcome.2.push(m));
            }
            return None;
        }
        let end_pos = self.current_token().end_pos;
        Some(
            Statement::new(
                token,
                end_pos,
                Statements::Expression(Expression::BuiltInFunction(BuiltInFunctionsAst::Assembly(Box::new(asm_code)))),
            ),
        )
    }

    /// `compare(<expr>, <expr>) { .eq { .. } .ne { .. } }`.
    #[verifier::rlimit(80)]
    fn parse_compare(&mut self, token: &Token) -> (r: Option<Statement>)
        requires
            old(self).wf(),
        ensures
            final(self).keeps(old(self)),
            final(self).moved_on(old(self)),
            r matches Some(s) ==> (s.statement_type is Compare && starts_at(s, *token)),
            ({
                let ts = old(self).program_data.tokens@;
                let o = compare_outcome(ts, old(self).position as int);
                &&& (r is Some) == o.0
                &&& final(self).position == o.1
                &&& errors_added(final(self).program_data.errors@, old(self).program_data.errors@, o.2)
            }),
            all_lexical(old(self).program_data.tokens@) ==> (r matches Some(s) ==> (starts_at(s, *token) && s.end_pos == token_in(old(self).program_data.tokens@, compare_outcome(old(self).program_data.tokens@, old(self).position as int).1 - 1).end_pos && compare_type(old(self).program_data.tokens@, old(self).position as int, s.statement_type))),
        decreases old(self).len() - old(self).position, 2nat,
    {
        let ghost ts = self.program_data.tokens@;
        let ghost i = self.position as int;
        let ghost i1 = step_in(ts, i);
        let ghost o = compare_outcome(ts, i);
        let ghost e0 = self.program_data.errors@;
        self.advance_position();
        if self.expect_token(Punctuations::OpenParenthesis).is_err() {
            proof {
                lemma_errors_added_one(self.program_data.errors@, e0, expect_msg(ts, i1, Punctuations::OpenParenthesis));
            }
            return None;
        }
        let ghost h1 = handle_outcome(ts, i1 + 1);
        let first = match self.handle_expr() {
            Some(e) => e,
            None => {
                let ghost mid = self.program_data.errors@;
                self.fail_expected_one(ErrorKind::ExpectedToken, Statements::ExpressionEmpty.type_string());
                proof {
                    lemma_errors_added_one(self.program_data.errors@, mid, operand_msg());
                    lemma_errors_added_trans(e0, mid, self.program_data.errors@, h1.2, seq![operand_msg()]);
                    assert(h1.2 + seq![operand_msg()] =~= h1.2.push(operand_msg()));
                }
                return None;
            },
        };
        let ghost after_first = self.program_data.errors@;
        if self.expect_token(Punctuations::Comma).is_err() {
            proof {
                let m = expect_msg(ts, h1.1, Punctuations::Comma);
                lemma_errors_added_one(self.program_data.errors@, after_first, m);
                lemma_errors_added_trans(e0, after_first, self.program_data.errors@, h1.2, seq![m]);
                assert(h1.2 + seq![m] =~= h1.2.push(m));
            }
            return None;
        }
        let ghost h2 = handle_outcome(ts, h1.1 + 1);
        let second = match self.handle_expr() {
            Some(e) => e,
            None => {
                let ghost mid = self.program_data.errors@;
                self.fail_expected_one(ErrorKind::ExpectedToken, Statements::ExpressionEmpty.type_string());
                proof {
                    lemma_errors_added_trans(e0, after_first, mid, h1.2, h2.2);
                    lemma_errors_added_one(self.program_data.errors@, mid, operand_msg());
                    lemma_errors_added_trans(e0, mid, self.program_data.errors@, h1.2 + h2.2, seq![operand_msg()]);
                    assert(h1.2 + h2.2 + seq![operand_msg()] =~= h1.2 + h2.2.push(operand_msg()));
                }
                return None;
            },
        };
        let ghost after_second = self.program_data.errors@;
        proof {
            lemma_errors_added_trans(e0, after_first, after_second, h1.2, h2.2);
        }
        if self.expect_token(Punctuations::ClosedParenthesis).is_err() {
            proof {
                let m = expect_msg(ts, h2.1, Punctuations::ClosedParenthesis);
                lemma_errors_added_one(self.program_data.errors@, after_second, m);
                lemma_errors_added_trans(e0, after_second, self.program_data.errors@, h1.2 + h2.2, seq![m]);
                assert(h1.2 + h2.2 + seq![m] =~= h1.2 + h2.2.push(m));
            }
            return None;
        }
        if self.expect_token(Punctuations::OpenBraces).is_err() {
            proof {
                let m = expect_msg(ts, h2.1 + 1, Punctuations::OpenBraces);
                lemma_errors_added_one(self.program_data.errors@, after_second, m);
                lemma_errors_added_trans(e0, after_second, self.program_data.errors@, h1.2 + h2.2, seq![m]);
                assert(h1.2 + h2.2 + seq![m] =~= h1.2 + h2.2.push(m));
            }
            return None;
        }
        let ghost after_open = self.position;
        let ghost mut acc: Seq<Seq<char>> = h1.2 + h2.2;
        let mut conditions: Vec<CmpCondition> = Vec::new();
        let mut end_pos: usize = 0;
        loop
            invariant_except_break
                o == ({
                    let rest = branches_outcome(ts, self.position as int);
                    (rest.0, rest.1, acc + rest.2)
                }),
                errors_added(self.program_data.errors@, e0, acc),
                all_lexical(ts) ==> forall|tail: Seq<CmpCondition>|
                    branches_value(ts, self.position as int, tail) ==> #[trigger] branches_value(ts, h2.1 + 2, conditions@ + tail),
            invariant
                self.wf(),
                self.keeps(old(self)),
                self.position >= after_open,
                after_open > old(self).position,
                ts == self.program_data.tokens@,
                e0 == old(self).program_data.errors@,
                i == old(self).position,
                o == compare_outcome(ts, i),
                after_open == h2.1 + 2,
            ensures
                self.wf(),
                self.keeps(old(self)),
                o.0,
                self.position == o.1,
                errors_added(self.program_data.errors@, e0, o.2),
                all_lexical(ts) ==> branches_value(ts, h2.1 + 2, conditions@),
                end_pos == token_in(ts, o.1 - 1).end_pos,
            decreases self.len() - self.position,
        {
            let ghost j = self.position as int;
            let ghost old_conds = conditions@;
            let tok = self.current_token();
            match tok.kind {
                TokenType::Punctuation(Punctuations::Dot) => {
                    self.advance_position();
                    let cond_tok = self.current_token();
                    let branch_kind = CmpCondition::from_token(&cond_tok);
                    self.advance_position();
                    let ghost mid = self.program_data.errors@;
                    let mut condition = match branch_kind {
                        Some(c) => c,
                        None => {
                            self.fail_expected_one(ErrorKind::ExpectedToken, Statements::CompareEmpty.type_string());
                            proof {
                                let m = message(ErrorKind::ExpectedToken, seq![debug_quoted("Compare function"@)]);
                                lemma_errors_added_one(self.program_data.errors@, mid, m);
                                lemma_errors_added_trans(e0, mid, self.program_data.errors@, acc, seq![m]);
                            }
                            return None;
                        },
                    };
                    if self.expect_token(Punctuations::OpenBraces).is_err() {
                        proof {
                            let m = expect_msg(ts, j + 2, Punctuations::OpenBraces);
                            lemma_errors_added_one(self.program_data.errors@, mid, m);
                            lemma_errors_added_trans(e0, mid, self.program_data.errors@, acc, seq![m]);
                        }
                        return None;
                    }
                    let body = self.parse_braces_body();
                    proof {
                        let b = braces_outcome(ts, j + 3);
                        lemma_errors_added_trans(e0, mid, self.program_data.errors@, acc, b.2);
                        let rest = branches_outcome(ts, self.position as int);
                        assert(acc + (b.2 + rest.2) =~= acc + b.2 + rest.2);
                        acc = acc + b.2;
                    }
                    condition.set_body(body);
                    let ghost c = condition;
                    conditions.push(condition);
                    proof {
                        if all_lexical(ts) {
                            assert(cond_tok == token_in(ts, j + 1)) by {
                                assert(ts[j + 1].kind.is_lexical());
                            }
                            assert forall|tail: Seq<CmpCondition>| branches_value(ts, self.position as int, tail) implies #[trigger] branches_value(ts, h2.1 + 2, conditions@ + tail) by {
                                let whole = seq![c] + tail;
                                assert(whole.drop_first() =~= tail);
                                assert(whole[0] == c);
                                assert(branches_value(ts, j, whole));
                                assert(branches_value(ts, h2.1 + 2, old_conds + whole));
                                assert(old_conds + whole =~= conditions@ + tail);
                            }
                        }
                    }
                },
                TokenType::Punctuation(Punctuations::ClosedBraces) => {
                    end_pos = tok.end_pos;
                    self.advance_position();
                    proof {
                        assert(acc + seq![] =~= acc);
                        if all_lexical(ts) {
                            assert(branches_value(ts, j, seq![]));
                            assert(branches_value(ts, h2.1 + 2, old_conds + seq![]));
                            assert(old_conds + seq![] =~= conditions@);
                        }
                    }
                    break;
                },
                _ => {
                    let ghost mid = self.program_data.errors@;
                    self.fail(ErrorKind::Unknown);
                    proof {
                        let m = ErrorKind::Unknown.spec_template();
                        lemma_errors_added_one(self.program_data.errors@, mid, m);
                        lemma_errors_added_trans(e0, mid, self.program_data.errors@, acc, seq![m]);
                        assert(!punct_in(ts, j, Punctuations::Dot) && !punct_in(ts, j, Punctuations::ClosedBraces));
                        assert(branches_outcome(ts, j) == (false, resume_in(ts, j), seq![m]));
                    }
                    return None;
                },
            }
        }
        Some(Statement::new(token, end_pos, Statements::Compare(Compare { conditions, expressions: [first, second] })))
    }

    /// A statement that starts with a type: an array or plain variable declaration, or, after
    /// `:`, a function declaration.
    #[verifier::rlimit(100)]
    fn parse_typed_statement(&mut self, token: &Token, var_type: VariableType) -> (r: Option<Statement>)
        requires
            old(self).wf(),
        ensures
            final(self).keeps(old(self)),
            final(self).moved_on(old(self)),
            r matches Some(s) ==> ((s.statement_type is VariableDeclaration || s.statement_type is FunctionDeclaration)
                && starts_at(s, *token)),
            ({
                let ts = old(self).program_data.tokens@;
                let o = typed_outcome(ts, old(self).position as int, var_type);
                &&& (r is Some) == o.0
                &&& final(self).position == o.1
                &&& errors_added(final(self).program_data.errors@, old(self).program_data.errors@, o.2)
            }),
            all_lexical(old(self).program_data.tokens@) ==> (r matches Some(s) ==> (starts_at(s, *token) && typed_type(old(self).program_data.tokens@, old(self).position as int, var_type, s.statement_type) && s.end_pos == (if !(var_type is Array) && punct_in(old(self).program_data.tokens@, step_in(old(self).program_data.tokens@, old(self).position as int), Punctuations::Colon) { typed_outcome(old(self).program_data.tokens@, old(self).position as int, var_type).1 - 1 } else { token_in(old(self).program_data.tokens@, typed_outcome(old(self).program_data.tokens@, old(self).position as int, var_type).1 - 1).end_pos as int }))),
        decreases old(self).len() - old(self).position, 2nat,
    {
        let is_array = match &var_type {
            VariableType::Array(_) => true,
            _ => false,
        };
        if is_array {
            self.advance_position();
            if self.expect_token(Punctuations::OpenSquareBracket).is_err() {
                return None;
            }
            let var_type_tkn = self.current_token();
            let arr_var_type = match var_type_tkn.kind {
                TokenType::Keyword(Keywords::VariableType(t)) => t,
                _ => {
                    self.fail_expected(ErrorKind::InvalidToken, Keywords::VariableTypeEmpty.type_string(), var_type_tkn.kind.type_string());
                    return None;
                },
            };
            self.advance_position();
            if self.expect_token(Punctuations::Comma).is_err() {
                return None;
            }
            let item_count_tkn = self.current_token();
            let item_count = match item_count_tkn.kind {
                TokenType::Literal(Literal::Number(n)) => n,
                _ => {
                    self.fail_expected(ErrorKind::InvalidToken, Literal::NumberEmpty.type_string(), item_count_tkn.kind.type_string());
                    return None;
                },
            };
            self.advance_position();
            if self.expect_token(Punctuations::ClosedSquareBracket).is_err() {
                return None;
            }
            let var_name_tkn = self.current_token();
            let var_name = match var_name_tkn.kind {
                TokenType::Identifier(Identifiers::Identifier(name)) => name,
                _ => {
                    self.fail_expected(ErrorKind::InvalidToken, TokenType::IdentifierEmpty.type_string(), var_name_tkn.kind.type_string());
                    return None;
                },
            };
            let array_type = VariableType::Array(ArrayType { item_count: item_count as usize, variable_type: Box::new(arr_var_type) });
            return self.parse_variable_declaration(token, array_type, &var_name);
        }
        self.advance_position();
        let punc_tkn = self.current_token();
        match punc_tkn.kind {
            TokenType::Punctuation(Punctuations::Colon) => self.parse_function_declaration(token, var_type),
            TokenType::Punctuation(_) => {
                let expected = TokenType::Punctuation(Punctuations::Colon).debug_text();
                self.fail_with(message2(ErrorKind::InvalidToken, expected, punc_tkn.kind.debug_text()));
                None
            },
            TokenType::Identifier(Identifiers::Identifier(var_name)) => self.parse_variable_declaration(token, var_type, &var_name),
            TokenType::Identifier(Identifiers::IdentifierEmpty) => {
                self.fail_expected(ErrorKind::InvalidToken, TokenType::IdentifierEmpty.type_string(), Identifiers::IdentifierEmpty.type_string());
                None
            },
            _ => {
                self.fail(ErrorKind::Unknown);
                None
            },
        }
    }

    /// A function declaration `<type> : <name>(<arguments>) { <body> }`, with the current
    /// token at the `:`. Each argument is `<type> <name>`, passed on the stack, or
    /// `<type> <name> : [stack]` or `<type> <name> : [reg(<register>)]`.
    /// One parameter `<type> <name>`, `<type> <name> : [stack]` or
    /// `<type> <name> : [reg(<register>)]`, followed by `,` (consumed) or `)` (not consumed);
    /// `stack_mem_allocated` bytes of stack parameters are taken before it. Gives the
    /// parameter and the stack bytes taken after it.
    fn parse_param(&mut self, stack_mem_allocated: usize) -> (r: Option<(FunctionArg, usize)>)
        requires
            old(self).wf(),
            stack_mem_allocated <= usize::MAX - 15,
        ensures
            final(self).keeps(old(self)),
            ({
                let ts = old(self).program_data.tokens@;
                let st = param_step(ts, old(self).position as int, stack_mem_allocated as nat);
                &&& (r is Some) == st.0
                &&& final(self).position == st.1
                &&& errors_added(final(self).program_data.errors@, old(self).program_data.errors@, st.3)
                &&& r is Some ==> final(self).program_data == old(self).program_data
                &&& r matches Some((arg, m2)) ==> {
                    &&& m2 == st.2
                    &&& m2 <= usize::MAX - 15
                    &&& (arg.memory_location is Stack ==> arg.memory_location->Stack_0 == stack_mem_allocated
                        && arg.arg_var_type.size_fits() && m2 == stack_mem_allocated + arg.arg_var_type.spec_size())
                    &&& (!(arg.memory_location is Stack) ==> m2 == stack_mem_allocated)
                    &&& all_lexical(ts) ==> param_value(ts, old(self).position as int, stack_mem_allocated as nat, arg)
                }
            }),
    {
        let ghost ts = self.program_data.tokens@;
        let ghost j = self.position as int;
        let ghost e0 = self.program_data.errors@;
        let tok = self.current_token();
        let var_type = match tok.kind {
            TokenType::Keyword(Keywords::VariableType(var_type)) => var_type,
            _ => {
                self.fail(ErrorKind::Unknown);
                proof {
                    lemma_errors_added_one(self.program_data.errors@, e0, ErrorKind::Unknown.spec_template());
                }
                return None;
            },
        };
        self.advance_position();
        let arg_name_tkn = self.current_token();
        let arg_name = match arg_name_tkn.kind {
            TokenType::Identifier(Identifiers::Identifier(name)) => name,
            _ => {
                self.fail_expected(ErrorKind::InvalidToken, TokenType::IdentifierEmpty.type_string(), arg_name_tkn.kind.type_string());
                proof {
                    lemma_errors_added_one(self.program_data.errors@, e0, wanted_msg(ts, j + 1, "Identifier"@));
                }
                return None;
            },
        };
        self.advance_position();
        if !self.at_punct(Punctuations::Colon) {
            if !var_type.fits_in_memory() {
                self.fail(ErrorKind::Unknown);
                proof {
                    lemma_errors_added_one(self.program_data.errors@, e0, ErrorKind::Unknown.spec_template());
                }
                return None;
            }
            let size = var_type.get_variable_size();
            if size > usize::MAX - 15 - stack_mem_allocated {
                self.fail(ErrorKind::Unknown);
                proof {
                    lemma_errors_added_one(self.program_data.errors@, e0, ErrorKind::Unknown.spec_template());
                }
                return None;
            }
            proof {
                lemma_errors_added_none(e0);
                if all_lexical(ts) {
                    assert(ts[j].kind.is_lexical());
                    assert(ts[j + 1].kind.is_lexical());
                }
            }
            let arg = FunctionArg { arg_var_type: var_type, arg_name, memory_location: MemoryLocationsAst::Stack(stack_mem_allocated) };
            return Some((arg, stack_mem_allocated + size));
        }
        self.advance_position();
        if self.expect_token(Punctuations::OpenSquareBracket).is_err() {
            proof {
                lemma_errors_added_one(self.program_data.errors@, e0, expect_msg(ts, j + 3, Punctuations::OpenSquareBracket));
            }
            return None;
        }
        let memory_loc_tkn = self.current_token();
        let memory_location = match memory_loc_tkn.kind {
            TokenType::MemoryLocation(MemoryLocations::Stack) => {
                self.advance_position();
                if !var_type.fits_in_memory() {
                    self.fail(ErrorKind::Unknown);
                    proof {
                        lemma_errors_added_one(self.program_data.errors@, e0, ErrorKind::Unknown.spec_template());
                    }
                    return None;
                }
                let size = var_type.get_variable_size();
                if size > usize::MAX - 15 - stack_mem_allocated {
                    self.fail(ErrorKind::Unknown);
                    proof {
                        lemma_errors_added_one(self.program_data.errors@, e0, ErrorKind::Unknown.spec_template());
                    }
                    return None;
                }
                MemoryLocationsAst::Stack(stack_mem_allocated)
            },
            TokenType::MemoryLocation(MemoryLocations::Register) => {
                self.advance_position();
                if self.expect_token(Punctuations::OpenParenthesis).is_err() {
                    proof {
                        lemma_errors_added_one(self.program_data.errors@, e0, expect_msg(ts, j + 5, Punctuations::OpenParenthesis));
                    }
                    return None;
                }
                let arg_reg_tkn = self.current_token();
                let arg_register = match arg_reg_tkn.kind {
                    TokenType::Identifier(Identifiers::Identifier(reg)) => reg,
                    _ => {
                        self.fail_expected(ErrorKind::InvalidToken, TokenType::IdentifierEmpty.type_string(), arg_reg_tkn.kind.type_string());
                        proof {
                            lemma_errors_added_one(self.program_data.errors@, e0, wanted_msg(ts, j + 6, "Identifier"@));
                        }
                        return None;
                    },
                };
                self.advance_position();
                if self.expect_token(Punctuations::ClosedParenthesis).is_err() {
                    proof {
                        lemma_errors_added_one(self.program_data.errors@, e0, expect_msg(ts, j + 7, Punctuations::ClosedParenthesis));
                    }
                    return None;
                }
                proof {
                    if all_lexical(ts) {
                        assert(ts[j + 6].kind.is_lexical());
                    }
                }
                MemoryLocationsAst::Register(arg_register)
            },
            _ => {
                self.fail_expected(ErrorKind::InvalidToken, TokenType::MemoryLocationEmpty.type_string(), memory_loc_tkn.kind.type_string());
                proof {
                    lemma_errors_added_one(self.program_data.errors@, e0, wanted_msg(ts, j + 4, "Memory Location"@));
                }
                return None;
            },
        };
        let ghost e = location_end(ts, j + 3);
        if self.expect_token(Punctuations::ClosedSquareBracket).is_err() {
            proof {
                lemma_errors_added_one(self.program_data.errors@, e0, expect_msg(ts, e, Punctuations::ClosedSquareBracket));
            }
            return None;
        }
        let next_tkn = self.current_token();
        match next_tkn.kind {
            TokenType::Punctuation(Punctuations::Comma) => {
                self.advance_position();
            },
            TokenType::Punctuation(Punctuations::ClosedParenthesis) => {},
            _ => {
                let expected = TokenType::Punctuation(Punctuations::ClosedParenthesis).debug_text();
                self.fail_with(message2(ErrorKind::InvalidToken, expected, next_tkn.kind.debug_text()));
                proof {
                    lemma_errors_added_one(self.program_data.errors@, e0, expect_msg(ts, e + 1, Punctuations::ClosedParenthesis));
                }
                return None;
            },
        }
        let on_stack = match memory_location {
            MemoryLocationsAst::Stack(_) => true,
            _ => false,
        };
        let size = if on_stack { var_type.get_variable_size() } else { 0 };
        proof {
            lemma_errors_added_none(e0);
            if all_lexical(ts) {
                assert(ts[j].kind.is_lexical());
                assert(ts[j + 1].kind.is_lexical());
            }
        }
        let arg = FunctionArg { arg_var_type: var_type, arg_name, memory_location };
        Some((arg, stack_mem_allocated + size))
    }

    #[verifier::rlimit(100)]
    pub fn parse_function_declaration(&mut self, first_token: &Token, func_return_type: VariableType) -> (r: Option<Statement>)
        requires
            old(self).wf(),
        ensures
            final(self).keeps(old(self)),
            final(self).moved_on(old(self)),
            r matches Some(s) ==> (s.statement_type matches Statements::FunctionDeclaration(d) && starts_at(s, *first_token)
                && d.return_type == func_return_type && old(self).kind_at(old(self).position + 1) == TokenType::Identifier(
                Identifiers::Identifier(d.name),
            ) && stack_args_packed(d.args@) && d.args_stack_mem_allocated == spec_align(stack_args_size(d.args@), 16)),
            ({
                let ts = old(self).program_data.tokens@;
                let o = function_outcome(ts, old(self).position as int);
                &&& (r is Some) == o.0
                &&& final(self).position == o.1
                &&& errors_added(final(self).program_data.errors@, old(self).program_data.errors@, o.2)
            }),
            all_lexical(old(self).program_data.tokens@) ==> (r matches Some(s) ==> (starts_at(s, *first_token) && s.end_pos == function_outcome(old(self).program_data.tokens@, old(self).position as int).1 - 1 && function_type(old(self).program_data.tokens@, old(self).position as int, func_return_type, s.statement_type))),
        decreases old(self).len() - old(self).position, 2nat,
    {
        let ghost ts = self.program_data.tokens@;
        let ghost i = self.position as int;
        let ghost i1 = step_in(ts, i);
        let ghost e0 = self.program_data.errors@;
        self.advance_position();
        let func_name_tkn = self.current_token();
        let found = func_name_tkn.kind.type_string();
        let func_name = match func_name_tkn.kind {
            TokenType::Identifier(Identifiers::Identifier(name)) => name,
            _ => String::new(),
        };
        proof {
            reveal_strlit("");
        }
        assert(""@ =~= Seq::<char>::empty());
        if str_eq(func_name.as_str(), "") {
            self.fail_expected(ErrorKind::InvalidToken, TokenType::IdentifierEmpty.type_string(), found);
            proof {
                lemma_errors_added_one(self.program_data.errors@, e0, wanted_msg(ts, i1, "Identifier"@));
            }
            return None;
        }
        proof {
            if func_name@.len() == 0 {
                assert(func_name@ =~= ""@);
            }
        }
        assert(func_name@.len() > 0);
        assert(func_name_tkn.kind matches TokenType::Identifier(Identifiers::Identifier(name)) && name == func_name);
        assert(func_name_tkn.kind.is_lexical());
        assert(func_name_tkn == token_in(ts, i1));
        assert(token_in(ts, i1).kind matches TokenType::Identifier(Identifiers::Identifier(name)) && name@.len() > 0);
        assert(i1 < ts.len());
        self.advance_position();
        assert(self.position == i1 + 1);
        if self.expect_token(Punctuations::OpenParenthesis).is_err() {
            proof {
                lemma_errors_added_one(self.program_data.errors@, e0, expect_msg(ts, i1 + 1, Punctuations::OpenParenthesis));
            }
            return None;
        }
        let ghost after_open = self.position;
        let ghost a = params_outcome(ts, i1 + 2, 0);
        let mut args: Vec<FunctionArg> = Vec::new();
        let mut stack_mem_allocated: usize = 0;
        loop
            invariant_except_break
                params_outcome(ts, self.position as int, stack_mem_allocated as nat) == a,
                all_lexical(ts) ==> forall|tail: Seq<FunctionArg>|
                    params_value(ts, self.position as int, stack_mem_allocated as nat, tail) ==> #[trigger] params_value(ts, i1 + 2, 0, args@ + tail),
            invariant
                self.wf(),
                self.keeps(old(self)),
                self.position >= after_open,
                after_open > old(self).position + 1,
                after_open == i1 + 2,
                i == old(self).position,
                i1 == step_in(ts, i),
                e0 == old(self).program_data.errors@,
                token_in(ts, i1).kind matches TokenType::Identifier(Identifiers::Identifier(name)) && name@.len() > 0,
                punct_in(ts, i1 + 1, Punctuations::OpenParenthesis),
                ts == self.program_data.tokens@,
                self.program_data == old(self).program_data,
                a == params_outcome(ts, i1 + 2, 0),
                old(self).kind_at(old(self).position + 1) == TokenType::Identifier(Identifiers::Identifier(func_name)),
                stack_args_packed(args@),
                stack_mem_allocated == stack_args_size(args@),
                stack_mem_allocated <= usize::MAX - 15,
            ensures
                a.0,
                self.position == a.1,
                a.2.len() == 0,
                all_lexical(ts) ==> params_value(ts, i1 + 2, 0, args@),
                self.wf(),
                self.keeps(old(self)),
                self.program_data == old(self).program_data,
                self.position >= after_open,
                stack_args_packed(args@),
                stack_mem_allocated == stack_args_size(args@),
                stack_mem_allocated <= usize::MAX - 15,
            decreases self.len() - self.position,
        {
            let ghost j = self.position as int;
            let ghost m = stack_mem_allocated as nat;
            let ghost old_args = args@;
            if self.at_punct(Punctuations::ClosedParenthesis) {
                proof {
                    if all_lexical(ts) {
                        assert(params_value(ts, j, m, seq![]));
                        assert(params_value(ts, i1 + 2, 0, old_args + seq![]));
                        assert(old_args + seq![] =~= args@);
                    }
                }
                break;
            }
            let (arg, next_mem) = match self.parse_param(stack_mem_allocated) {
                Some(parsed) => parsed,
                None => {
                    return None;
                },
            };
            proof {
                lemma_push_arg(args@, arg);
            }
            let ghost pushed = arg;
            args.push(arg);
            stack_mem_allocated = next_mem;
            proof {
                if all_lexical(ts) {
                    assert forall|tail: Seq<FunctionArg>| params_value(ts, self.position as int, stack_mem_allocated as nat, tail) implies #[trigger] params_value(ts, i1 + 2, 0, args@ + tail) by {
                        let whole = seq![pushed] + tail;
                        assert(whole.drop_first() =~= tail);
                        assert(whole[0] == pushed);
                        assert(params_value(ts, j, m, whole));
                        assert(params_value(ts, i1 + 2, 0, old_args + whole));
                        assert(old_args + whole =~= args@ + tail);
                    }
                }
            }
        }
        self.advance_position();
        if self.expect_token(Punctuations::OpenBraces).is_err() {
            proof {
                lemma_errors_added_one(self.program_data.errors@, e0, expect_msg(ts, a.1 + 1, Punctuations::OpenBraces));
                assert(a.2.push(expect_msg(ts, a.1 + 1, Punctuations::OpenBraces)) =~= seq![expect_msg(ts, a.1 + 1, Punctuations::OpenBraces)]);
            }
            return None;
        }
        let body = self.parse_braces_body();
        proof {
            assert(a.2 + braces_outcome(ts, a.1 + 2).2 =~= braces_outcome(ts, a.1 + 2).2);
        }
        proof {
            vstd::arithmetic::div_mod::lemma_fundamental_div_mod(stack_mem_allocated as int, 16);
        }
        let args_stack_mem_allocated = align_memory(stack_mem_allocated, 16);
        Some(
            Statement::new(
                first_token,
                self.position - 1,
                Statements::FunctionDeclaration(
                    FunctionDeclaration { args, name: func_name, return_type: func_return_type, args_stack_mem_allocated, body },
                ),
            ),
        )
    }

    /// The next statement. At the end-of-file token, or past the last token, nothing, and
    /// nothing changes; a token that starts no statement records an error.
    #[verifier::rlimit(100)]
    #[verifier::spinoff_prover]
    pub fn parse_next(&mut self) -> (r: Option<Statement>)
        requires
            old(self).wf(),
        ensures
            final(self).keeps(old(self)),
            !(old(self).kind_at(old(self).position as int) is EOF) ==> final(self).moved_on(old(self)),
            old(self).kind_at(old(self).position as int) is EOF ==> r is None && final(self).program_data
                == old(self).program_data && final(self).position == old(self).position,
            r matches Some(s) ==> (leads_to(old(self).kind_at(old(self).position as int), s.statement_type)
                && starts_at(s, old(self).token_at(old(self).position as int))),
            !starts_statement(old(self).kind_at(old(self).position as int)) ==> r is None && appended(
                final(self).program_data.errors@,
                old(self).program_data.errors@,
                ErrorKind::Unknown.spec_template(),
            ) && final(self).position == old(self).resume_after(old(self).position as int),
            ({
                let ts = old(self).program_data.tokens@;
                let o = next_outcome(ts, old(self).position as int);
                &&& (r is Some) == o.0
                &&& final(self).position == o.1
                &&& errors_added(final(self).program_data.errors@, old(self).program_data.errors@, o.2)
            }),
            all_lexical(old(self).program_data.tokens@) ==> (r matches Some(s) ==> stmt_value(old(self).program_data.tokens@, old(self).position as int, s)),
        decreases old(self).len() - old(self).position, 3nat,
    {
        proof {
            self.lemma_resume(self.position as int);
        }
        let ghost ts = self.program_data.tokens@;
        let ghost i = self.position as int;
        let token = self.current_token();
        if let TokenType::EOF = token.kind {
            proof {
                lemma_errors_added_none(self.program_data.errors@);
            }
            return None;
        }
        match &token.kind {
            TokenType::BuiltInFunction(BuiltInFunctions::Format) => {
                let r = self.parse_format_built_in_function(&token);
                proof {
                    lemma_end_format(ts, i);
                    if all_lexical(ts) && r is Some {
                        lemma_stmt_value(ts, i, r->0);
                    }
                }
                r
            },
            TokenType::BuiltInFunction(BuiltInFunctions::StackOffset) => {
                let r = self.parse_stack_offset(&token);
                proof {
                    if all_lexical(ts) && r is Some {
                        lemma_stmt_value(ts, i, r->0);
                    }
                }
                r
            },
            TokenType::BuiltInFunction(BuiltInFunctions::Assembly) => {
                let r = self.parse_assembly(&token);
                proof {
                    lemma_end_assembly(ts, i);
                    if all_lexical(ts) && r is Some {
                        lemma_stmt_value(ts, i, r->0);
                    }
                }
                r
            },
            TokenType::BuiltInFunction(BuiltInFunctions::Compare) => {
                let r = self.parse_compare(&token);
                proof {
                    lemma_end_compare(ts, i);
                    if all_lexical(ts) && r is Some {
                        lemma_stmt_value(ts, i, r->0);
                    }
                }
                r
            },
            TokenType::BuiltInFunction(BuiltInFunctions::BranchLinked) => {
                let r = self.parse_branch_linked(&token);
                proof {
                    lemma_end_call(ts, i);
                    if all_lexical(ts) && r is Some {
                        lemma_stmt_value(ts, i, r->0);
                    }
                }
                r
            },
            TokenType::Keyword(Keywords::VariableType(var_type)) => {
                let var_type = var_type.duplicate();
                let r = self.parse_typed_statement(&token, var_type);
                proof {
                    lemma_end_typed(ts, i, var_type);
                    if all_lexical(ts) && r is Some {
                        lemma_stmt_value(ts, i, r->0);
                    }
                }
                r
            },
            TokenType::Identifier(Identifiers::Identifier(_)) => {
                let r = self.parse_assignment(&token);
                proof {
                    lemma_end_assignment(ts, i);
                    if all_lexical(ts) && r is Some {
                        lemma_stmt_value(ts, i, r->0);
                    }
                }
                r
            },
            _ => {
                self.fail(ErrorKind::Unknown);
                proof {
                    lemma_errors_added_one(self.program_data.errors@, old(self).program_data.errors@, ErrorKind::Unknown.spec_template());
                }
                None
            },
        }
    }

    /// Parses statements up to the end-of-file token, appending them to the program's
    /// statements.
    #[verifier::rlimit(100)]
    #[verifier::spinoff_prover]
    pub fn parse_all(&mut self)
        requires
            old(self).wf(),
        ensures
            final(self).wf(),
            final(self).file_name == old(self).file_name,
            final(self).program_data.tokens == old(self).program_data.tokens,
            final(self).program_data.scopes == old(self).program_data.scopes,
            final(self).program_data.functions == old(self).program_data.functions,
            final(self).program_data.source_codes == old(self).program_data.source_codes,
            final(self).program_data.source_code == old(self).program_data.source_code,
            extends(final(self).program_data.errors@, old(self).program_data.errors@),
            ({
                let before = old(self).program_data.statements@;
                let after = final(self).program_data.statements@;
                &&& after.len() >= before.len()
                &&& forall|i: int| 0 <= i < before.len() ==> after[i] == before[i]
            }),
            final(self).kind_at(final(self).position as int) is EOF,
            errors_added(
                final(self).program_data.errors@,
                old(self).program_data.errors@,
                program_errors(old(self).program_data.tokens@, old(self).position as int),
            ),
            all_lexical(old(self).program_data.tokens@) ==> program_value(
                old(self).program_data.tokens@,
                old(self).position as int,
                final(self).program_data.statements@.subrange(
                    old(self).program_data.statements@.len() as int,
                    final(self).program_data.statements@.len() as int,
                ),
            ),
    {
        let ghost before = self.program_data.statements@;
        let ghost ts = self.program_data.tokens@;
        let ghost start = self.position as int;
        let ghost mut acc: Seq<Seq<char>> = seq![];
        proof {
            lemma_errors_added_none(self.program_data.errors@);
            assert(self.program_data.statements@.subrange(before.len() as int, before.len() as int) =~= Seq::<Statement>::empty());
            assert forall|tail: Seq<Statement>| program_value(ts, start, tail) implies #[trigger] program_value(
                ts,
                start,
                self.program_data.statements@.subrange(before.len() as int, self.program_data.statements@.len() as int) + tail,
            ) by {
                assert(Seq::<Statement>::empty() + tail =~= tail);
            }
        }
        loop
            invariant
                self.wf(),
                self.file_name == old(self).file_name,
                self.program_data.tokens == old(self).program_data.tokens,
                self.program_data.scopes == old(self).program_data.scopes,
                self.program_data.functions == old(self).program_data.functions,
                self.program_data.source_codes == old(self).program_data.source_codes,
                self.program_data.source_code == old(self).program_data.source_code,
                extends(self.program_data.errors@, old(self).program_data.errors@),
                before == old(self).program_data.statements@,
                self.program_data.statements@.len() >= before.len(),
                forall|i: int| 0 <= i < before.len() ==> self.program_data.statements@[i] == before[i],
                ts == self.program_data.tokens@,
                start == old(self).position,
                start <= self.position,
                program_errors(ts, start) == acc + program_errors(ts, self.position as int),
                errors_added(self.program_data.errors@, old(self).program_data.errors@, acc),
                all_lexical(ts) ==> forall|tail: Seq<Statement>|
                    program_value(ts, self.position as int, tail) ==> #[trigger] program_value(
                        ts,
                        start,
                        self.program_data.statements@.subrange(before.len() as int, self.program_data.statements@.len() as int)
                            + tail,
                    ),
            ensures
                self.wf(),
                self.file_name == old(self).file_name,
                self.program_data.tokens == old(self).program_data.tokens,
                self.program_data.scopes == old(self).program_data.scopes,
                self.program_data.functions == old(self).program_data.functions,
                self.program_data.source_codes == old(self).program_data.source_codes,
                self.program_data.source_code == old(self).program_data.source_code,
                extends(self.program_data.errors@, old(self).program_data.errors@),
                self.program_data.statements@.len() >= before.len(),
                forall|i: int| 0 <= i < before.len() ==> self.program_data.statements@[i] == before[i],
                self.kind_at(self.position as int) is EOF,
                errors_added(self.program_data.errors@, old(self).program_data.errors@, program_errors(ts, start)),
                all_lexical(ts) ==> program_value(
                    ts,
                    start,
                    self.program_data.statements@.subrange(before.len() as int, self.program_data.statements@.len() as int),
                ),
            decreases self.len() - self.position,
        {
            let ghost p = self.position as int;
            let ghost errs = self.program_data.errors@;
            let ghost done = self.program_data.statements@.subrange(before.len() as int, self.program_data.statements@.len() as int);
            let tok = self.current_token();
            let at_eof = match tok.kind {
                TokenType::EOF => true,
                _ => false,
            };
            if at_eof {
                proof {
                    assert(program_errors(ts, p) =~= seq![]);
                    assert(acc + seq![] =~= acc);
                    if all_lexical(ts) {
                        assert(program_value(ts, p, seq![]));
                        assert(done + seq![] =~= done);
                    }
                }
                break;
            }
            proof {
                assert(p < self.len());
            }
            let parsed = self.parse_next();
            let ghost n = next_outcome(ts, p);
            proof {
                lemma_errors_added_trans(old(self).program_data.errors@, errs, self.program_data.errors@, acc, n.2);
                assert(acc + (n.2 + program_errors(ts, self.position as int)) =~= acc + n.2 + program_errors(ts, self.position as int));
                acc = acc + n.2;
            }
            if let Some(statement) = parsed {
                let ghost st = statement;
                self.program_data.statements.push(statement);
                proof {
                    let now = self.program_data.statements@.subrange(before.len() as int, self.program_data.statements@.len() as int);
                    assert(now =~= done.push(st));
                    if all_lexical(ts) {
                        lemma_value_after_statement(ts, start, p, done, st);
                    }
                }
            } else {
                proof {
                    if all_lexical(ts) {
                        lemma_value_after_failure(ts, start, p, done);
                    }
                }
            }
        }
    }
}

} // verus!

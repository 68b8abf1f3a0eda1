//! The syntax tree built by the parser, and the lowered statements handed to code generation.
use vstd::prelude::*;
use crate::text::{debug_quote, debug_quoted, i64_to_string, int_decimal, nat_decimal, push_str, str_eq, usize_to_string};
use crate::datatypes::token::{Identifiers, Token, TokenType};
use crate::datatypes::semantic_analysis::{cg_expression, item_valid, lemma_items_valid, lowers_alike};
use crate::datatypes::program_data::ProgramData;

verus! {

#[derive(Debug, PartialEq)]
pub struct Statement {
    pub col: usize,
    pub line: usize,
    pub start_pos: usize,
    pub end_pos: usize,
    pub statement_type: Statements,
}

#[derive(Debug, PartialEq)]
pub struct Function {
    pub return_type: VariableType,
    pub args: Vec<FunctionArg>,
    pub first_scope: usize,
    pub arg_stack_mem_allocated: usize,
    pub stack_mem_allocated: usize,
}

impl Statement {
    /// A statement that starts where `token` starts and ends at `end_pos`.
    pub fn new(token: &Token, end_pos: usize, statement_type: Statements) -> (r: Self)
        ensures
            r.col == token.col,
            r.line == token.line,
            r.start_pos == token.start_pos,
            r.end_pos == end_pos,
            r.statement_type == statement_type,
    {
        Statement { col: token.col, line: token.line, start_pos: token.start_pos, end_pos, statement_type }
    }
}

#[derive(Debug, PartialEq)]
pub enum AstIdentifiers {
    StackVariableIdentifier(String),
    FunctionArgIdentifier(String),
}

#[derive(Debug, PartialEq)]
pub struct FunctionArg {
    pub arg_var_type: VariableType,
    pub arg_name: String,
    pub memory_location: MemoryLocationsAst,
}

impl MemoryLocationsAst {
    /// A copy of this location.
    pub fn duplicate(&self) -> (r: Self)
        ensures
            r == *self,
    {
        match self {
            MemoryLocationsAst::Stack(o) => MemoryLocationsAst::Stack(*o),
            MemoryLocationsAst::Register(reg) => MemoryLocationsAst::Register(reg.clone()),
        }
    }
}

impl FunctionArg {
    /// A copy of this argument.
    pub fn duplicate(&self) -> (r: Self)
        ensures
            r == *self,
    {
        FunctionArg {
            arg_var_type: self.arg_var_type.duplicate(),
            arg_name: self.arg_name.clone(),
            memory_location: self.memory_location.duplicate(),
        }
    }
}

#[derive(Debug, PartialEq)]
pub struct FunctionDeclaration {
    pub args: Vec<FunctionArg>,
    pub name: String,
    pub return_type: VariableType,
    pub body: Vec<Statement>,
    pub args_stack_mem_allocated: usize,
}

#[derive(Debug, PartialEq)]
pub struct Assignment {
    pub identifier: Expression,
    pub value: Expression,
}

#[derive(Debug, PartialEq)]
pub enum Statements {
    Assignment(Assignment),
    VariableDeclaration(VariableDeclaration),
    FunctionDeclaration(FunctionDeclaration),
    Compare(Compare),
    StackFramePop,
    Expression(Expression),
    /// Only used to name the kind in error messages.
    AssignmentEmpty,
    VariableDeclarationEmpty,
    FunctionDeclarationEmpty,
    CompareEmpty,
    ExpressionEmpty,
}

#[derive(Debug, PartialEq)]
pub enum BuiltInFunctionsAst {
    Assembly(Box<Expression>),
    Format(Format),
    StackOffset(String),
    BranchLinked(BranchLinkedAst),
    /// Only used to name the kind in error messages.
    AssemblyEmpty,
    FormatEmpty,
    StackOffsetEmpty,
    BranchLinkedEmpty,
}

#[derive(Debug, PartialEq)]
pub struct Compare {
    pub expressions: [Expression; 2],
    pub conditions: Vec<CmpCondition>,
}

#[derive(Debug, PartialEq)]
pub enum MemoryLocationsAst {
    Stack(usize),
    Register(String),
}

#[derive(Debug, PartialEq)]
pub struct BranchLinkedAst {
    pub args: Vec<Expression>,
    pub function_name: String,
}

#[derive(Debug, PartialEq)]
pub struct Format {
    pub string: String,
    pub args_provided: Vec<Expression>,
}

#[derive(Debug, PartialEq)]
pub struct VariableDeclaration {
    pub name: String,
    pub variable_type: VariableType,
    pub value: Option<Expression>,
}

#[derive(Debug, PartialEq)]
pub struct ArrayIndex {
    pub identifier: String,
    pub index: Box<Expression>,
}

#[derive(Debug, PartialEq)]
pub enum Expression {
    ArrayIndex(ArrayIndex),
    Literal(Literal),
    Identifier(Identifiers),
    Register(String),
    BuiltInFunction(BuiltInFunctionsAst),
}

#[derive(Debug, PartialEq)]
pub struct ArrayLiteral {
    pub items: Vec<Expression>,
    pub cg_items: Vec<CgExpression>,
}

#[derive(Debug, PartialEq)]
pub enum Literal {
    String(String),
    Number(i64),
    Array(ArrayLiteral),
    /// Only used to name the kind in error messages.
    StringEmpty,
    NumberEmpty,
    ArrayEmpty,
}

#[derive(Debug, PartialEq)]
pub struct ArrayType {
    pub item_count: usize,
    pub variable_type: Box<VariableType>,
}

#[derive(Debug, PartialEq)]
pub enum VariableType {
    I8,
    I16,
    I32,
    I64,
    U8,
    U16,
    U32,
    U64,
    Void,
    Array(ArrayType),
    ArrayEmpty,
}

// Lowered statements, ready for code generation.
#[derive(Debug, PartialEq)]
pub struct CgStatement {
    pub statement_type: CgStatementType,
}

#[derive(Debug, PartialEq)]
pub enum CgStatementType {
    Compare(CgCompare),
    VariableAssignment(CgVariableAssignment),
    BuiltInFunction(CgBuiltInFunctions),
}

#[derive(Debug, PartialEq)]
pub struct CgCompare {
    pub conditions: Vec<CmpCondition>,
    pub expressions: [CgExpression; 2],
    pub new_exit_label: String,
}

#[derive(Debug, PartialEq)]
pub enum CgBuiltInFunctions {
    Assembly(String),
    BranchLinked(CgBranchLinked),
    Branch(CgBranch),
}

#[derive(Debug, PartialEq)]
pub struct CgBranch {
    pub branch_name: String,
}

#[derive(Debug, PartialEq)]
pub struct CgBranchLinked {
    pub function_name: String,
    pub args: Vec<CgExpression>,
}

#[derive(Debug, PartialEq)]
pub enum CgExpression {
    Identifier(CgIdentifiers),
    Literal(Literal),
}

#[derive(Debug, PartialEq)]
pub enum CgIdentifiers {
    StackVariableData(StackVariableData),
    ArrayVariableData(ArrayVariableData),
}

#[derive(Debug, PartialEq)]
pub struct StackVariableData {
    pub offset: usize,
    pub variable_type: VariableType,
}

#[derive(Debug, PartialEq)]
pub struct ArrayVariableData {
    pub arr_index: Box<CgExpression>,
    pub variable_type: VariableType,
    pub offset: usize,
}

#[derive(Debug, PartialEq)]
pub struct CgVariableAssignment {
    pub assign_value: CgExpression,
    pub assign_type: CgVariableAssignmentType,
    pub variable_type: VariableType,
}

#[derive(Debug, PartialEq)]
pub enum CgVariableAssignmentType {
    CompileTimeStackOffset(usize),
    ArrayItem(ArrayVariableData),
    Register(String),
}

#[derive(Debug, PartialEq, Eq, Clone, Copy, Structural)]
pub enum CmpConditionType {
    Equal,
    NotEqual,
}

#[derive(Debug, PartialEq)]
pub struct CmpCondition {
    pub condition_type: CmpConditionType,
    pub body: Vec<Statement>,
    pub scope: usize,
}

// ---------------------------------------------------------------------------
// Literals
// ---------------------------------------------------------------------------

impl Literal {
    /// Whether `to_string` can render the literal: strings and numbers.
    pub open spec fn is_printable(&self) -> bool {
        self is String || self is Number
    }

    pub open spec fn spec_to_string(&self) -> Seq<char> {
        match self {
            Literal::String(s) => s@,
            Literal::Number(n) => int_decimal(*n as int),
            _ => seq![],
        }
    }

    /// The text of a string literal, or the decimal digits of a number literal.
    pub fn to_string(&self) -> (r: String)
        requires
            self.is_printable(),
        ensures
            r@ == self.spec_to_string(),
    {
        match self {
            Literal::String(s) => s.clone(),
            Literal::Number(n) => i64_to_string(*n),
            _ => String::new(),
        }
    }

    pub open spec fn spec_type_string(&self) -> Seq<char> {
        match self {
            Literal::String(_) => "String literal"@,
            Literal::Number(_) => "Number literal"@,
            Literal::Array(_) => "Array literal"@,
            Literal::StringEmpty => "String literal"@,
            Literal::NumberEmpty => "Number literal"@,
            Literal::ArrayEmpty => "Array literal"@,
        }
    }

    pub fn type_string(&self) -> (r: String)
        ensures
            r@ == self.spec_type_string(),
    {
        match self {
            Literal::String(_) => "String literal".to_owned(),
            Literal::Number(_) => "Number literal".to_owned(),
            Literal::Array(_) => "Array literal".to_owned(),
            Literal::StringEmpty => "String literal".to_owned(),
            Literal::NumberEmpty => "Number literal".to_owned(),
            Literal::ArrayEmpty => "Array literal".to_owned(),
        }
    }

    /// The literal as `{:?}` prints it; an array literal's items are abbreviated.
    pub open spec fn spec_debug_text(&self) -> Seq<char> {
        match self {
            Literal::String(s) => "String("@ + debug_quoted(s@) + ")"@,
            Literal::Number(n) => "Number("@ + int_decimal(*n as int) + ")"@,
            Literal::Array(_) => "Array(ArrayLiteral { .. })"@,
            Literal::StringEmpty => "StringEmpty"@,
            Literal::NumberEmpty => "NumberEmpty"@,
            Literal::ArrayEmpty => "ArrayEmpty"@,
        }
    }

    pub fn debug_text(&self) -> (r: String)
        ensures
            r@ == self.spec_debug_text(),
    {
        match self {
            Literal::String(s) => {
                let mut r = "String(".to_owned();
                let q = debug_quote(s.as_str());
                push_str(&mut r, q.as_str());
                push_str(&mut r, ")");
                r
            },
            Literal::Number(n) => {
                let mut r = "Number(".to_owned();
                let d = i64_to_string(*n);
                push_str(&mut r, d.as_str());
                push_str(&mut r, ")");
                r
            },
            Literal::Array(_) => "Array(ArrayLiteral { .. })".to_owned(),
            Literal::StringEmpty => "StringEmpty".to_owned(),
            Literal::NumberEmpty => "NumberEmpty".to_owned(),
            Literal::ArrayEmpty => "ArrayEmpty".to_owned(),
        }
    }
}

// ---------------------------------------------------------------------------
// Variable types
// ---------------------------------------------------------------------------

impl ArrayType {
    /// The placeholder array type the tokenizer attaches to the `array` keyword.
    pub fn none() -> (r: Self)
        ensures
            r.item_count == 0,
            *r.variable_type == VariableType::Void,
    {
        ArrayType { item_count: 0, variable_type: Box::new(VariableType::Void) }
    }
}

impl VariableType {
    /// One of the eight integer types.
    pub open spec fn is_number(&self) -> bool {
        self is I8 || self is I16 || self is I32 || self is I64 || self is U8 || self is U16
            || self is U32 || self is U64
    }

    pub fn is_number_type(&self) -> (r: bool)
        ensures
            r == self.is_number(),
    {
        match self {
            VariableType::I8 | VariableType::I16 | VariableType::I32 | VariableType::I64
            | VariableType::U8 | VariableType::U16 | VariableType::U32 | VariableType::U64 => true,
            _ => false,
        }
    }

    /// Size in bytes: 1, 2, 4 or 8 for integers, item count times item size for arrays,
    /// 0 for `void`.
    pub open spec fn spec_size(&self) -> nat
        decreases self,
    {
        match self {
            VariableType::I8 => 1,
            VariableType::I16 => 2,
            VariableType::I32 => 4,
            VariableType::I64 => 8,
            VariableType::U8 => 1,
            VariableType::U16 => 2,
            VariableType::U32 => 4,
            VariableType::U64 => 8,
            VariableType::Array(arr) => (arr.item_count as nat) * arr.variable_type.spec_size(),
            VariableType::Void => 0,
            VariableType::ArrayEmpty => 0,
        }
    }

    /// The size, and the size of every nested item type, fits in `usize`.
    pub open spec fn size_fits(&self) -> bool
        decreases self,
    {
        match self {
            VariableType::Array(arr) => arr.variable_type.size_fits() && arr.item_count
                * arr.variable_type.spec_size() <= usize::MAX,
            _ => true,
        }
    }

    /// Size in bytes of a value of this type.
    pub fn get_variable_size(&self) -> (r: usize)
        requires
            self.size_fits(),
        ensures
            r == self.spec_size(),
        decreases self,
    {
        match self {
            VariableType::I8 => 1,
            VariableType::I16 => 2,
            VariableType::I32 => 4,
            VariableType::I64 => 8,
            VariableType::U8 => 1,
            VariableType::U16 => 2,
            VariableType::U32 => 4,
            VariableType::U64 => 8,
            VariableType::Array(arr) => arr.item_count * arr.variable_type.get_variable_size(),
            VariableType::Void => 0,
            VariableType::ArrayEmpty => 0,
        }
    }

    /// The size in bytes, or `None` when it, or the size of a nested item type, does not
    /// fit in `usize`.
    pub fn checked_size(&self) -> (r: Option<usize>)
        ensures
            r is Some <==> self.size_fits(),
            r matches Some(n) ==> n == self.spec_size(),
        decreases self,
    {
        match self {
            VariableType::Array(arr) => match arr.variable_type.checked_size() {
                Some(item) => arr.item_count.checked_mul(item),
                None => None,
            },
            _ => Some(self.get_variable_size()),
        }
    }

    /// A copy of this type.
    pub fn duplicate(&self) -> (r: Self)
        ensures
            r == *self,
        decreases self,
    {
        match self {
            VariableType::I8 => VariableType::I8,
            VariableType::I16 => VariableType::I16,
            VariableType::I32 => VariableType::I32,
            VariableType::I64 => VariableType::I64,
            VariableType::U8 => VariableType::U8,
            VariableType::U16 => VariableType::U16,
            VariableType::U32 => VariableType::U32,
            VariableType::U64 => VariableType::U64,
            VariableType::Void => VariableType::Void,
            VariableType::Array(arr) => VariableType::Array(
                ArrayType { item_count: arr.item_count, variable_type: Box::new(arr.variable_type.duplicate()) },
            ),
            VariableType::ArrayEmpty => VariableType::ArrayEmpty,
        }
    }

    /// Whether the size of this type can be computed without overflow.
    pub fn fits_in_memory(&self) -> (r: bool)
        ensures
            r == self.size_fits(),
        decreases self,
    {
        match self {
            VariableType::Array(arr) => {
                if !arr.variable_type.fits_in_memory() {
                    return false;
                }
                let item = arr.variable_type.get_variable_size();
                arr.item_count.checked_mul(item).is_some()
            },
            _ => true,
        }
    }

    pub open spec fn spec_type_string(&self) -> Seq<char>
        decreases self,
    {
        match self {
            VariableType::I8 => "i8"@,
            VariableType::I16 => "i16"@,
            VariableType::I32 => "i32"@,
            VariableType::I64 => "i64"@,
            VariableType::U8 => "u8"@,
            VariableType::U16 => "u16"@,
            VariableType::U32 => "u32"@,
            VariableType::U64 => "u64"@,
            VariableType::Void => "void"@,
            VariableType::Array(child) => "array["@ + child.variable_type.spec_type_string() + ", "@
                + nat_decimal(child.item_count as nat) + "]"@,
            VariableType::ArrayEmpty => "array"@,
        }
    }

    /// The type as written in source: `i8` ... `u64`, `void`, `array[<item type>, <count>]`.
    pub fn type_string(&self) -> (r: String)
        ensures
            r@ == self.spec_type_string(),
        decreases self,
    {
        match self {
            VariableType::I8 => "i8".to_owned(),
            VariableType::I16 => "i16".to_owned(),
            VariableType::I32 => "i32".to_owned(),
            VariableType::I64 => "i64".to_owned(),
            VariableType::U8 => "u8".to_owned(),
            VariableType::U16 => "u16".to_owned(),
            VariableType::U32 => "u32".to_owned(),
            VariableType::U64 => "u64".to_owned(),
            VariableType::Void => "void".to_owned(),
            VariableType::Array(child) => {
                let mut s = "array[".to_owned();
                let inner = child.variable_type.type_string();
                push_str(&mut s, inner.as_str());
                push_str(&mut s, ", ");
                let count = usize_to_string(child.item_count);
                push_str(&mut s, count.as_str());
                push_str(&mut s, "]");
                s
            },
            VariableType::ArrayEmpty => "array".to_owned(),
        }
    }

    /// The type as `{:?}` prints it.
    pub open spec fn spec_debug_text(&self) -> Seq<char>
        decreases self,
    {
        match self {
            VariableType::I8 => "I8"@,
            VariableType::I16 => "I16"@,
            VariableType::I32 => "I32"@,
            VariableType::I64 => "I64"@,
            VariableType::U8 => "U8"@,
            VariableType::U16 => "U16"@,
            VariableType::U32 => "U32"@,
            VariableType::U64 => "U64"@,
            VariableType::Void => "Void"@,
            VariableType::Array(child) => "Array(ArrayType { item_count: "@ + nat_decimal(
                child.item_count as nat,
            ) + ", variable_type: "@ + child.variable_type.spec_debug_text() + " })"@,
            VariableType::ArrayEmpty => "ArrayEmpty"@,
        }
    }

    pub fn debug_text(&self) -> (r: String)
        ensures
            r@ == self.spec_debug_text(),
        decreases self,
    {
        match self {
            VariableType::I8 => "I8".to_owned(),
            VariableType::I16 => "I16".to_owned(),
            VariableType::I32 => "I32".to_owned(),
            VariableType::I64 => "I64".to_owned(),
            VariableType::U8 => "U8".to_owned(),
            VariableType::U16 => "U16".to_owned(),
            VariableType::U32 => "U32".to_owned(),
            VariableType::U64 => "U64".to_owned(),
            VariableType::Void => "Void".to_owned(),
            VariableType::Array(child) => {
                let mut s = "Array(ArrayType { item_count: ".to_owned();
                let count = usize_to_string(child.item_count);
                push_str(&mut s, count.as_str());
                push_str(&mut s, ", variable_type: ");
                let inner = child.variable_type.debug_text();
                push_str(&mut s, inner.as_str());
                push_str(&mut s, " })");
                s
            },
            VariableType::ArrayEmpty => "ArrayEmpty".to_owned(),
        }
    }
}

// ---------------------------------------------------------------------------
// Compare conditions
// ---------------------------------------------------------------------------

impl CmpCondition {
    pub fn new(condition_type: CmpConditionType) -> (r: Self)
        ensures
            r.condition_type == condition_type,
            r.body@.len() == 0,
            r.scope == 0,
    {
        CmpCondition { condition_type, body: Vec::new(), scope: 0 }
    }

    pub fn set_body(&mut self, body: Vec<Statement>)
        ensures
            final(self).body == body,
            final(self).condition_type == old(self).condition_type,
            final(self).scope == old(self).scope,
    {
        self.body = body;
    }

    pub open spec fn spec_to_string(&self) -> Seq<char> {
        match self.condition_type {
            CmpConditionType::Equal => "eq"@,
            CmpConditionType::NotEqual => "ne"@,
        }
    }

    /// The ARM64 condition-code suffix: `eq` or `ne`.
    pub fn to_string(&self) -> (r: String)
        ensures
            r@ == self.spec_to_string(),
    {
        match self.condition_type {
            CmpConditionType::Equal => "eq".to_owned(),
            CmpConditionType::NotEqual => "ne".to_owned(),
        }
    }

    /// The condition an identifier token names: `eq` or `ne`.
    pub open spec fn spec_condition_of(kind: TokenType) -> Option<CmpConditionType> {
        match kind {
            TokenType::Identifier(Identifiers::Identifier(name)) => if name@ == "eq"@ {
                Some(CmpConditionType::Equal)
            } else if name@ == "ne"@ {
                Some(CmpConditionType::NotEqual)
            } else {
                None
            },
            _ => None,
        }
    }

    pub fn from_token(input: &Token) -> (r: Option<Self>)
        ensures
            r is Some <==> Self::spec_condition_of(input.kind) is Some,
            r matches Some(c) ==> c.condition_type == Self::spec_condition_of(input.kind)->0
                && c.body@.len() == 0 && c.scope == 0,
    {
        if let TokenType::Identifier(Identifiers::Identifier(identifier)) = &input.kind {
            if str_eq(identifier.as_str(), "eq") {
                return Some(CmpCondition::new(CmpConditionType::Equal));
            }
            if str_eq(identifier.as_str(), "ne") {
                return Some(CmpCondition::new(CmpConditionType::NotEqual));
            }
            return None;
        }
        None
    }
}

// ---------------------------------------------------------------------------
// Names of syntax kinds, as error messages show them.
// ---------------------------------------------------------------------------

impl Statements {
    pub open spec fn spec_type_string(&self) -> Seq<char> {
        match self {
            Statements::Assignment(_) => "Variable assignment"@,
            Statements::VariableDeclaration(_) => "Variable declaration"@,
            Statements::FunctionDeclaration(_) => "Function declaration"@,
            Statements::Compare(_) => "Compare function"@,
            Statements::StackFramePop => "Stack frame pop"@,
            Statements::Expression(expression) => expression.spec_type_string(),
            Statements::AssignmentEmpty => "Variable assignment"@,
            Statements::VariableDeclarationEmpty => "Variable declaration"@,
            Statements::FunctionDeclarationEmpty => "Function declaration"@,
            Statements::CompareEmpty => "Compare function"@,
            Statements::ExpressionEmpty => "Expression"@,
        }
    }

    pub fn type_string(&self) -> (r: String)
        ensures
            r@ == self.spec_type_string(),
    {
        match self {
            Statements::Assignment(_) => "Variable assignment".to_owned(),
            Statements::VariableDeclaration(_) => "Variable declaration".to_owned(),
            Statements::FunctionDeclaration(_) => "Function declaration".to_owned(),
            Statements::Compare(_) => "Compare function".to_owned(),
            Statements::StackFramePop => "Stack frame pop".to_owned(),
            Statements::Expression(expression) => expression.type_string(),
            Statements::AssignmentEmpty => "Variable assignment".to_owned(),
            Statements::VariableDeclarationEmpty => "Variable declaration".to_owned(),
            Statements::FunctionDeclarationEmpty => "Function declaration".to_owned(),
            Statements::CompareEmpty => "Compare function".to_owned(),
            Statements::ExpressionEmpty => "Expression".to_owned(),
        }
    }
}

impl BuiltInFunctionsAst {
    pub open spec fn spec_type_string(&self) -> Seq<char> {
        match self {
            BuiltInFunctionsAst::StackOffset(_) => "Built in function Stack Offset"@,
            BuiltInFunctionsAst::Format(_) => "Built in function Format"@,
            BuiltInFunctionsAst::Assembly(_) => "Built in function Assembly"@,
            BuiltInFunctionsAst::BranchLinked(_) => "Built in function Branch Linked"@,
            BuiltInFunctionsAst::StackOffsetEmpty => "Built in function Stack Offset"@,
            BuiltInFunctionsAst::FormatEmpty => "Built in function Format"@,
            BuiltInFunctionsAst::AssemblyEmpty => "Built in function Assembly"@,
            BuiltInFunctionsAst::BranchLinkedEmpty => "Built in function Branch Linked"@,
        }
    }

    pub fn type_string(&self) -> (r: String)
        ensures
            r@ == self.spec_type_string(),
    {
        match self {
            BuiltInFunctionsAst::StackOffset(_) => "Built in function Stack Offset".to_owned(),
            BuiltInFunctionsAst::Format(_) => "Built in function Format".to_owned(),
            BuiltInFunctionsAst::Assembly(_) => "Built in function Assembly".to_owned(),
            BuiltInFunctionsAst::BranchLinked(_) => "Built in function Branch Linked".to_owned(),
            BuiltInFunctionsAst::StackOffsetEmpty => "Built in function Stack Offset".to_owned(),
            BuiltInFunctionsAst::FormatEmpty => "Built in function Format".to_owned(),
            BuiltInFunctionsAst::AssemblyEmpty => "Built in function Assembly".to_owned(),
            BuiltInFunctionsAst::BranchLinkedEmpty => "Built in function Branch Linked".to_owned(),
        }
    }
}

impl Expression {
    pub open spec fn spec_type_string(&self) -> Seq<char>
        decreases self,
    {
        match self {
            Expression::ArrayIndex(array_index) => "ArrayIndex["@
                + array_index.index.spec_type_string() + "]"@,
            Expression::Register(register) => "Register["@ + register@ + "]"@,
            Expression::Literal(literal) => literal.spec_type_string(),
            Expression::Identifier(identifier) => identifier.spec_type_string(),
            Expression::BuiltInFunction(f) => f.spec_type_string(),
        }
    }

    pub fn type_string(&self) -> (r: String)
        ensures
            r@ == self.spec_type_string(),
        decreases self,
    {
        match self {
            Expression::ArrayIndex(array_index) => {
                let mut s = "ArrayIndex[".to_owned();
                let inner = array_index.index.type_string();
                push_str(&mut s, inner.as_str());
                push_str(&mut s, "]");
                s
            },
            Expression::Register(register) => {
                let mut s = "Register[".to_owned();
                push_str(&mut s, register.as_str());
                push_str(&mut s, "]");
                s
            },
            Expression::Literal(literal) => literal.type_string(),
            Expression::Identifier(identifier) => identifier.type_string(),
            Expression::BuiltInFunction(f) => f.type_string(),
        }
    }
}


// ---------------------------------------------------------------------------
// Deep equality: equality with every list compared item by item.
// ---------------------------------------------------------------------------

/// The two expressions are equal, every list in them item by item.
pub open spec fn same_expr(a: Expression, b: Expression) -> bool
    decreases a, 2nat,
{
    match (a, b) {
        (Expression::ArrayIndex(x), Expression::ArrayIndex(y)) => x.identifier == y.identifier && same_expr(*x.index, *y.index),
        (Expression::Literal(x), Expression::Literal(y)) => same_literal(x, y),
        (Expression::Identifier(x), Expression::Identifier(y)) => x == y,
        (Expression::Register(x), Expression::Register(y)) => x == y,
        (Expression::BuiltInFunction(f), Expression::BuiltInFunction(g)) => match (f, g) {
            (BuiltInFunctionsAst::Assembly(x), BuiltInFunctionsAst::Assembly(y)) => same_expr(*x, *y),
            (BuiltInFunctionsAst::Format(x), BuiltInFunctionsAst::Format(y)) => {
                proof {
                    broadcast use vstd::std_specs::vec::axiom_vec_decreases_to_view;
                    assert(decreases_to!(x.args_provided => x.args_provided@));
                }
                x.string == y.string && same_exprs(x.args_provided@, y.args_provided@)
            },
            (BuiltInFunctionsAst::StackOffset(x), BuiltInFunctionsAst::StackOffset(y)) => x == y,
            (BuiltInFunctionsAst::BranchLinked(x), BuiltInFunctionsAst::BranchLinked(y)) => {
                proof {
                    broadcast use vstd::std_specs::vec::axiom_vec_decreases_to_view;
                    assert(decreases_to!(x.args => x.args@));
                }
                x.function_name == y.function_name && same_exprs(x.args@, y.args@)
            },
            (BuiltInFunctionsAst::AssemblyEmpty, BuiltInFunctionsAst::AssemblyEmpty) => true,
            (BuiltInFunctionsAst::FormatEmpty, BuiltInFunctionsAst::FormatEmpty) => true,
            (BuiltInFunctionsAst::StackOffsetEmpty, BuiltInFunctionsAst::StackOffsetEmpty) => true,
            (BuiltInFunctionsAst::BranchLinkedEmpty, BuiltInFunctionsAst::BranchLinkedEmpty) => true,
            _ => false,
        },
        _ => false,
    }
}

/// The two literals are equal, an array literal's items and lowered items item by item.
pub open spec fn same_literal(a: Literal, b: Literal) -> bool
    decreases a, 2nat,
{
    match (a, b) {
        (Literal::Array(x), Literal::Array(y)) => {
            proof {
                broadcast use vstd::std_specs::vec::axiom_vec_decreases_to_view;
                assert(decreases_to!(x.items => x.items@));
                assert(decreases_to!(x.cg_items => x.cg_items@));
            }
            same_exprs(x.items@, y.items@) && same_cgs(x.cg_items@, y.cg_items@)
        },
        (Literal::Array(_), _) => false,
        (_, Literal::Array(_)) => false,
        _ => a == b,
    }
}

/// The two sequences of expressions are equal item by item.
pub open spec fn same_exprs(a: Seq<Expression>, b: Seq<Expression>) -> bool
    decreases a, 1nat,
{
    if a.len() == 0 {
        b.len() == 0
    } else {
        proof {
            assert(decreases_to!(a => a[0]));
            assert(decreases_to!(a => a.subrange(1, a.len() as int)));
        }
        b.len() > 0 && same_expr(a[0], b[0]) && same_exprs(a.subrange(1, a.len() as int), b.subrange(1, b.len() as int))
    }
}

/// The two lowered expressions are equal, every list in them item by item.
pub open spec fn same_cg(a: CgExpression, b: CgExpression) -> bool
    decreases a, 2nat,
{
    match (a, b) {
        (CgExpression::Identifier(CgIdentifiers::StackVariableData(x)), CgExpression::Identifier(CgIdentifiers::StackVariableData(y))) => x == y,
        (CgExpression::Identifier(CgIdentifiers::ArrayVariableData(x)), CgExpression::Identifier(CgIdentifiers::ArrayVariableData(y))) => {
            x.variable_type == y.variable_type && x.offset == y.offset && same_cg(*x.arr_index, *y.arr_index)
        },
        (CgExpression::Literal(x), CgExpression::Literal(y)) => same_literal(x, y),
        _ => false,
    }
}

/// The two sequences of lowered expressions are equal item by item.
pub open spec fn same_cgs(a: Seq<CgExpression>, b: Seq<CgExpression>) -> bool
    decreases a, 1nat,
{
    if a.len() == 0 {
        b.len() == 0
    } else {
        proof {
            assert(decreases_to!(a => a[0]));
            assert(decreases_to!(a => a.subrange(1, a.len() as int)));
        }
        b.len() > 0 && same_cg(a[0], b[0]) && same_cgs(a.subrange(1, a.len() as int), b.subrange(1, b.len() as int))
    }
}

/// The two statements are equal, every list in them item by item.
pub open spec fn same_stmt(a: Statement, b: Statement) -> bool
    decreases a, 3nat,
{
    &&& a.col == b.col
    &&& a.line == b.line
    &&& a.start_pos == b.start_pos
    &&& a.end_pos == b.end_pos
    &&& same_kind(a.statement_type, b.statement_type)
}

/// The two statement kinds are equal, every list in them item by item.
pub open spec fn same_kind(a: Statements, b: Statements) -> bool
    decreases a, 2nat,
{
    match (a, b) {
        (Statements::Assignment(x), Statements::Assignment(y)) => same_expr(x.identifier, y.identifier) && same_expr(x.value, y.value),
        (Statements::VariableDeclaration(x), Statements::VariableDeclaration(y)) => {
            &&& x.name == y.name
            &&& x.variable_type == y.variable_type
            &&& match (x.value, y.value) {
                (Some(u), Some(v)) => same_expr(u, v),
                (None, None) => true,
                _ => false,
            }
        },
        (Statements::FunctionDeclaration(x), Statements::FunctionDeclaration(y)) => {
            proof {
                broadcast use vstd::std_specs::vec::axiom_vec_decreases_to_view;
                assert(decreases_to!(x.body => x.body@));
            }
            &&& x.name == y.name
            &&& x.args@ == y.args@
            &&& x.return_type == y.return_type
            &&& x.args_stack_mem_allocated == y.args_stack_mem_allocated
            &&& same_stmts(x.body@, y.body@)
        },
        (Statements::Compare(x), Statements::Compare(y)) => {
            proof {
                broadcast use vstd::std_specs::vec::axiom_vec_decreases_to_view;
                assert(decreases_to!(x.conditions => x.conditions@));
            }
            &&& same_expr(x.expressions[0], y.expressions[0])
            &&& same_expr(x.expressions[1], y.expressions[1])
            &&& same_conditions(x.conditions@, y.conditions@)
        },
        (Statements::Expression(x), Statements::Expression(y)) => same_expr(x, y),
        (Statements::StackFramePop, Statements::StackFramePop) => true,
        (Statements::AssignmentEmpty, Statements::AssignmentEmpty) => true,
        (Statements::VariableDeclarationEmpty, Statements::VariableDeclarationEmpty) => true,
        (Statements::FunctionDeclarationEmpty, Statements::FunctionDeclarationEmpty) => true,
        (Statements::CompareEmpty, Statements::CompareEmpty) => true,
        (Statements::ExpressionEmpty, Statements::ExpressionEmpty) => true,
        _ => false,
    }
}

/// The two sequences of statements are equal item by item.
pub open spec fn same_stmts(a: Seq<Statement>, b: Seq<Statement>) -> bool
    decreases a, 1nat,
{
    if a.len() == 0 {
        b.len() == 0
    } else {
        proof {
            assert(decreases_to!(a => a[0]));
            assert(decreases_to!(a => a.subrange(1, a.len() as int)));
        }
        b.len() > 0 && same_stmt(a[0], b[0]) && same_stmts(a.subrange(1, a.len() as int), b.subrange(1, b.len() as int))
    }
}

/// The two sequences of compare conditions are equal item by item, bodies included.
pub open spec fn same_conditions(a: Seq<CmpCondition>, b: Seq<CmpCondition>) -> bool
    decreases a, 1nat,
{
    if a.len() == 0 {
        b.len() == 0
    } else {
        proof {
            broadcast use vstd::std_specs::vec::axiom_vec_decreases_to_view;
            assert(decreases_to!(a => a[0]));
            assert(decreases_to!(a[0].body => a[0].body@));
            assert(decreases_to!(a => a.subrange(1, a.len() as int)));
        }
        &&& b.len() > 0
        &&& a[0].condition_type == b[0].condition_type
        &&& a[0].scope == b[0].scope
        &&& same_stmts(a[0].body@, b[0].body@)
        &&& same_conditions(a.subrange(1, a.len() as int), b.subrange(1, b.len() as int))
    }
}

/// Deep equality of expressions is reflexive.
pub proof fn lemma_same_expr_refl(a: Expression)
    ensures
        same_expr(a, a),
    decreases a, 2nat,
{
    match a {
        Expression::ArrayIndex(x) => lemma_same_expr_refl(*x.index),
        Expression::Literal(l) => lemma_same_literal_refl(l),
        Expression::BuiltInFunction(f) => match f {
            BuiltInFunctionsAst::Assembly(x) => lemma_same_expr_refl(*x),
            BuiltInFunctionsAst::Format(x) => {
                broadcast use vstd::std_specs::vec::axiom_vec_decreases_to_view;
                assert(decreases_to!(x.args_provided => x.args_provided@));
                lemma_same_exprs_refl(x.args_provided@);
            },
            BuiltInFunctionsAst::BranchLinked(x) => {
                broadcast use vstd::std_specs::vec::axiom_vec_decreases_to_view;
                assert(decreases_to!(x.args => x.args@));
                lemma_same_exprs_refl(x.args@);
            },
            _ => {},
        },
        _ => {},
    }
}

/// Deep equality of literals is reflexive.
pub proof fn lemma_same_literal_refl(a: Literal)
    ensures
        same_literal(a, a),
    decreases a, 2nat,
{
    if let Literal::Array(x) = a {
        broadcast use vstd::std_specs::vec::axiom_vec_decreases_to_view;
        assert(decreases_to!(x.items => x.items@));
        assert(decreases_to!(x.cg_items => x.cg_items@));
        lemma_same_exprs_refl(x.items@);
        lemma_same_cgs_refl(x.cg_items@);
    }
}

/// Deep equality of expression sequences is reflexive.
pub proof fn lemma_same_exprs_refl(a: Seq<Expression>)
    ensures
        same_exprs(a, a),
    decreases a, 1nat,
{
    if a.len() > 0 {
        assert(decreases_to!(a => a[0]));
        assert(decreases_to!(a => a.subrange(1, a.len() as int)));
        lemma_same_expr_refl(a[0]);
        lemma_same_exprs_refl(a.subrange(1, a.len() as int));
    }
}

/// Deep equality of lowered expressions is reflexive.
pub proof fn lemma_same_cg_refl(a: CgExpression)
    ensures
        same_cg(a, a),
    decreases a, 2nat,
{
    match a {
        CgExpression::Identifier(CgIdentifiers::ArrayVariableData(x)) => lemma_same_cg_refl(*x.arr_index),
        CgExpression::Literal(l) => lemma_same_literal_refl(l),
        _ => {},
    }
}

/// Deep equality of lowered expression sequences is reflexive.
pub proof fn lemma_same_cgs_refl(a: Seq<CgExpression>)
    ensures
        same_cgs(a, a),
    decreases a, 1nat,
{
    if a.len() > 0 {
        assert(decreases_to!(a => a[0]));
        assert(decreases_to!(a => a.subrange(1, a.len() as int)));
        lemma_same_cg_refl(a[0]);
        lemma_same_cgs_refl(a.subrange(1, a.len() as int));
    }
}

/// Deep equality of expressions is transitive.
pub proof fn lemma_same_expr_trans(a: Expression, b: Expression, c: Expression)
    requires
        same_expr(a, b),
        same_expr(b, c),
    ensures
        same_expr(a, c),
    decreases a, 2nat,
{
    match (a, b, c) {
        (Expression::ArrayIndex(x), Expression::ArrayIndex(y), Expression::ArrayIndex(z)) => {
            lemma_same_expr_trans(*x.index, *y.index, *z.index);
        },
        (Expression::Literal(x), Expression::Literal(y), Expression::Literal(z)) => {
            lemma_same_literal_trans(x, y, z);
        },
        (Expression::BuiltInFunction(f), Expression::BuiltInFunction(g), Expression::BuiltInFunction(h)) => match (f, g, h) {
            (BuiltInFunctionsAst::Assembly(x), BuiltInFunctionsAst::Assembly(y), BuiltInFunctionsAst::Assembly(z)) => {
                lemma_same_expr_trans(*x, *y, *z);
            },
            (BuiltInFunctionsAst::Format(x), BuiltInFunctionsAst::Format(y), BuiltInFunctionsAst::Format(z)) => {
                broadcast use vstd::std_specs::vec::axiom_vec_decreases_to_view;
                assert(decreases_to!(x.args_provided => x.args_provided@));
                lemma_same_exprs_trans(x.args_provided@, y.args_provided@, z.args_provided@);
            },
            (BuiltInFunctionsAst::BranchLinked(x), BuiltInFunctionsAst::BranchLinked(y), BuiltInFunctionsAst::BranchLinked(z)) => {
                broadcast use vstd::std_specs::vec::axiom_vec_decreases_to_view;
                assert(decreases_to!(x.args => x.args@));
                lemma_same_exprs_trans(x.args@, y.args@, z.args@);
            },
            _ => {},
        },
        _ => {},
    }
}

/// Deep equality of literals is transitive.
pub proof fn lemma_same_literal_trans(a: Literal, b: Literal, c: Literal)
    requires
        same_literal(a, b),
        same_literal(b, c),
    ensures
        same_literal(a, c),
    decreases a, 2nat,
{
    match (a, b, c) {
        (Literal::Array(x), Literal::Array(y), Literal::Array(z)) => {
            broadcast use vstd::std_specs::vec::axiom_vec_decreases_to_view;
            assert(decreases_to!(x.items => x.items@));
            assert(decreases_to!(x.cg_items => x.cg_items@));
            lemma_same_exprs_trans(x.items@, y.items@, z.items@);
            lemma_same_cgs_trans(x.cg_items@, y.cg_items@, z.cg_items@);
        },
        _ => {},
    }
}

/// Deep equality of expression sequences is transitive.
pub proof fn lemma_same_exprs_trans(a: Seq<Expression>, b: Seq<Expression>, c: Seq<Expression>)
    requires
        same_exprs(a, b),
        same_exprs(b, c),
    ensures
        same_exprs(a, c),
    decreases a, 1nat,
{
    if a.len() > 0 {
        assert(decreases_to!(a => a[0]));
        assert(decreases_to!(a => a.subrange(1, a.len() as int)));
        lemma_same_expr_trans(a[0], b[0], c[0]);
        lemma_same_exprs_trans(a.subrange(1, a.len() as int), b.subrange(1, b.len() as int), c.subrange(1, c.len() as int));
    }
}

/// Deep equality of lowered expressions is transitive.
pub proof fn lemma_same_cg_trans(a: CgExpression, b: CgExpression, c: CgExpression)
    requires
        same_cg(a, b),
        same_cg(b, c),
    ensures
        same_cg(a, c),
    decreases a, 2nat,
{
    match (a, b, c) {
        (
            CgExpression::Identifier(CgIdentifiers::ArrayVariableData(x)),
            CgExpression::Identifier(CgIdentifiers::ArrayVariableData(y)),
            CgExpression::Identifier(CgIdentifiers::ArrayVariableData(z)),
        ) => lemma_same_cg_trans(*x.arr_index, *y.arr_index, *z.arr_index),
        (CgExpression::Literal(x), CgExpression::Literal(y), CgExpression::Literal(z)) => lemma_same_literal_trans(x, y, z),
        _ => {},
    }
}

/// Deep equality of lowered expression sequences is transitive.
pub proof fn lemma_same_cgs_trans(a: Seq<CgExpression>, b: Seq<CgExpression>, c: Seq<CgExpression>)
    requires
        same_cgs(a, b),
        same_cgs(b, c),
    ensures
        same_cgs(a, c),
    decreases a, 1nat,
{
    if a.len() > 0 {
        assert(decreases_to!(a => a[0]));
        assert(decreases_to!(a => a.subrange(1, a.len() as int)));
        lemma_same_cg_trans(a[0], b[0], c[0]);
        lemma_same_cgs_trans(a.subrange(1, a.len() as int), b.subrange(1, b.len() as int), c.subrange(1, c.len() as int));
    }
}

/// Sequences of expressions are equal exactly when they are equal item by item.
pub proof fn lemma_same_exprs(a: Seq<Expression>, b: Seq<Expression>)
    ensures
        same_exprs(a, b) <==> (a.len() == b.len() && forall|k: int| 0 <= k < a.len() ==> same_expr(#[trigger] a[k], b[k])),
    decreases a.len(),
{
    if a.len() > 0 && b.len() > 0 {
        let (ra, rb) = (a.subrange(1, a.len() as int), b.subrange(1, b.len() as int));
        lemma_same_exprs(ra, rb);
        assert forall|k: int| 1 <= k < a.len() implies a[k] == ra[k - 1] by {}
        assert forall|k: int| 1 <= k < b.len() implies b[k] == rb[k - 1] by {}
    }
}

/// Sequences of lowered expressions are equal exactly when they are equal item by item.
pub proof fn lemma_same_cgs(a: Seq<CgExpression>, b: Seq<CgExpression>)
    ensures
        same_cgs(a, b) <==> (a.len() == b.len() && forall|k: int| 0 <= k < a.len() ==> same_cg(#[trigger] a[k], b[k])),
    decreases a.len(),
{
    if a.len() > 0 && b.len() > 0 {
        let (ra, rb) = (a.subrange(1, a.len() as int), b.subrange(1, b.len() as int));
        lemma_same_cgs(ra, rb);
        assert forall|k: int| 1 <= k < a.len() implies a[k] == ra[k - 1] by {}
        assert forall|k: int| 1 <= k < b.len() implies b[k] == rb[k - 1] by {}
    }
}

/// Sequences of statements are equal exactly when they are equal item by item.
pub proof fn lemma_same_stmts(a: Seq<Statement>, b: Seq<Statement>)
    ensures
        same_stmts(a, b) <==> (a.len() == b.len() && forall|k: int| 0 <= k < a.len() ==> same_stmt(#[trigger] a[k], b[k])),
    decreases a.len(),
{
    if a.len() > 0 && b.len() > 0 {
        let (ra, rb) = (a.subrange(1, a.len() as int), b.subrange(1, b.len() as int));
        lemma_same_stmts(ra, rb);
        assert forall|k: int| 1 <= k < a.len() implies a[k] == ra[k - 1] by {}
        assert forall|k: int| 1 <= k < b.len() implies b[k] == rb[k - 1] by {}
    }
}

/// Sequences of conditions are equal exactly when they are equal item by item.
pub proof fn lemma_same_conditions(a: Seq<CmpCondition>, b: Seq<CmpCondition>)
    ensures
        same_conditions(a, b) <==> (a.len() == b.len() && forall|k: int|
            0 <= k < a.len() ==> (#[trigger] a[k]).condition_type == b[k].condition_type && a[k].scope == b[k].scope
                && same_stmts(a[k].body@, b[k].body@)),
    decreases a.len(),
{
    if a.len() > 0 && b.len() > 0 {
        let (ra, rb) = (a.subrange(1, a.len() as int), b.subrange(1, b.len() as int));
        lemma_same_conditions(ra, rb);
        assert forall|k: int| 1 <= k < a.len() implies a[k] == ra[k - 1] by {}
        assert forall|k: int| 1 <= k < b.len() implies b[k] == rb[k - 1] by {}
    }
}

// ---------------------------------------------------------------------------
// Copies. Values holding vectors can be copied but not compared for equality here,
// so only the copies of vector-free values promise equality.
// ---------------------------------------------------------------------------

impl Literal {
    /// A copy of this literal.
    pub fn duplicate(&self) -> (r: Self)
        ensures
            !(self is Array) ==> r == *self,
            self is Array <==> r is Array,
            lowers_alike(Expression::Literal(r), Expression::Literal(*self)),
            same_literal(r, *self),
        decreases self, 0nat,
    {
        match self {
            Literal::String(s) => Literal::String(s.clone()),
            Literal::Number(n) => Literal::Number(*n),
            Literal::Array(arr) => {
                let items = duplicate_expressions(&arr.items);
                let cg_items = duplicate_cg_expressions(&arr.cg_items);
                proof {
                    lemma_same_exprs(items@, arr.items@);
                    lemma_same_cgs(cg_items@, arr.cg_items@);
                }
                let r = Literal::Array(ArrayLiteral { items, cg_items });
                assert forall|pd: ProgramData, s: int, t: VariableType|
                    #[trigger] item_valid(pd, s, Expression::Literal(r), t) == item_valid(pd, s, Expression::Literal(*self), t) by {
                    if let VariableType::Array(at) = t {
                        let it = *at.variable_type;
                        lemma_items_valid(pd, s, items@, it);
                        lemma_items_valid(pd, s, arr.items@, it);
                        assert forall|k: int| 0 <= k < items@.len() implies
                            item_valid(pd, s, #[trigger] items@[k], it) == item_valid(pd, s, arr.items@[k], it) by {
                            assert(lowers_alike(items@[k], arr.items@[k]));
                        }
                        if forall|k: int| 0 <= k < items@.len() ==> item_valid(pd, s, #[trigger] items@[k], it) {
                            assert forall|k: int| 0 <= k < arr.items@.len() implies item_valid(pd, s, #[trigger] arr.items@[k], it) by {
                                assert(item_valid(pd, s, items@[k], it));
                            }
                        }
                        if forall|k: int| 0 <= k < arr.items@.len() ==> item_valid(pd, s, #[trigger] arr.items@[k], it) {
                            assert forall|k: int| 0 <= k < items@.len() implies item_valid(pd, s, #[trigger] items@[k], it) by {
                                assert(item_valid(pd, s, arr.items@[k], it));
                            }
                        }
                    }
                }
                r
            },
            Literal::StringEmpty => Literal::StringEmpty,
            Literal::NumberEmpty => Literal::NumberEmpty,
            Literal::ArrayEmpty => Literal::ArrayEmpty,
        }
    }
}

/// Copies of the expressions of `v`, in order.
pub fn duplicate_expressions(v: &Vec<Expression>) -> (r: Vec<Expression>)
    ensures
        r@.len() == v@.len(),
        forall|k: int| 0 <= k < v@.len() ==> lowers_alike(#[trigger] r@[k], v@[k]),
        forall|k: int| 0 <= k < v@.len() ==> same_expr(#[trigger] r@[k], v@[k]),
    decreases v, 1nat,
{
    let mut r: Vec<Expression> = Vec::new();
    let mut i: usize = 0;
    while i < v.len()
        invariant
            i <= v@.len(),
            r@.len() == i,
            forall|k: int| 0 <= k < i ==> lowers_alike(#[trigger] r@[k], v@[k]),
            forall|k: int| 0 <= k < i ==> same_expr(#[trigger] r@[k], v@[k]),
        decreases v@.len() - i,
    {
        proof {
            broadcast use vstd::std_specs::vec::axiom_vec_index_decreases;
            assert(decreases_to!(v => v[i as int]));
        }
        r.push(v[i].duplicate());
        i = i + 1;
    }
    r
}

/// Copies of the lowered expressions of `v`, in order.
pub fn duplicate_cg_expressions(v: &Vec<CgExpression>) -> (r: Vec<CgExpression>)
    ensures
        r@.len() == v@.len(),
        forall|k: int| 0 <= k < v@.len() ==> v@[k].vec_free() ==> #[trigger] r@[k] == v@[k],
        forall|k: int| 0 <= k < v@.len() ==> same_cg(#[trigger] r@[k], v@[k]),
    decreases v, 1nat,
{
    let mut r: Vec<CgExpression> = Vec::new();
    let mut i: usize = 0;
    while i < v.len()
        invariant
            i <= v@.len(),
            r@.len() == i,
            forall|k: int| 0 <= k < i ==> v@[k].vec_free() ==> #[trigger] r@[k] == v@[k],
            forall|k: int| 0 <= k < i ==> same_cg(#[trigger] r@[k], v@[k]),
        decreases v@.len() - i,
    {
        proof {
            broadcast use vstd::std_specs::vec::axiom_vec_index_decreases;
            assert(decreases_to!(v => v[i as int]));
        }
        r.push(v[i].duplicate());
        i = i + 1;
    }
    r
}

impl Expression {
    /// The expression holds no list: no array literal, `format` or `bl` anywhere in it.
    pub open spec fn vec_free(self) -> bool
        decreases self,
    {
        match self {
            Expression::ArrayIndex(ai) => ai.index.vec_free(),
            Expression::Literal(l) => !(l is Array),
            Expression::Identifier(_) => true,
            Expression::Register(_) => true,
            Expression::BuiltInFunction(f) => match f {
                BuiltInFunctionsAst::Assembly(e) => e.vec_free(),
                BuiltInFunctionsAst::Format(_) => false,
                BuiltInFunctionsAst::BranchLinked(_) => false,
                _ => true,
            },
        }
    }

    /// A copy of this expression.
    pub fn duplicate(&self) -> (r: Self)
        ensures
            self is Literal ==> r is Literal,
            lowers_alike(r, *self),
            self.vec_free() ==> r == *self,
            same_expr(r, *self),
        decreases self, 0nat,
    {
        match self {
            Expression::ArrayIndex(ai) => {
                let index = ai.index.duplicate();
                let r = Expression::ArrayIndex(ArrayIndex { identifier: ai.identifier.clone(), index: Box::new(index) });
                assert forall|pd: ProgramData, s: int| (#[trigger] cg_expression(pd, s, r)) is Some == cg_expression(pd, s, *self) is Some by {
                    assert(cg_expression(pd, s, index) is Some == cg_expression(pd, s, *ai.index) is Some);
                }
                assert forall|pd: ProgramData, s: int, t: VariableType| #[trigger] item_valid(pd, s, r, t) == item_valid(pd, s, *self, t) by {
                    assert(cg_expression(pd, s, index) is Some == cg_expression(pd, s, *ai.index) is Some);
                }
                r
            },
            Expression::Literal(l) => Expression::Literal(l.duplicate()),
            Expression::Identifier(Identifiers::Identifier(name)) => Expression::Identifier(Identifiers::Identifier(name.clone())),
            Expression::Identifier(Identifiers::IdentifierEmpty) => Expression::Identifier(Identifiers::IdentifierEmpty),
            Expression::Register(reg) => Expression::Register(reg.clone()),
            Expression::BuiltInFunction(f) => Expression::BuiltInFunction(
                match f {
                    BuiltInFunctionsAst::Assembly(e) => BuiltInFunctionsAst::Assembly(Box::new(e.duplicate())),
                    BuiltInFunctionsAst::Format(fmt) => {
                        let args_provided = duplicate_expressions(&fmt.args_provided);
                        proof {
                            lemma_same_exprs(args_provided@, fmt.args_provided@);
                        }
                        BuiltInFunctionsAst::Format(Format { string: fmt.string.clone(), args_provided })
                    },
                    BuiltInFunctionsAst::StackOffset(name) => BuiltInFunctionsAst::StackOffset(name.clone()),
                    BuiltInFunctionsAst::BranchLinked(bl) => {
                        let args = duplicate_expressions(&bl.args);
                        proof {
                            lemma_same_exprs(args@, bl.args@);
                        }
                        BuiltInFunctionsAst::BranchLinked(BranchLinkedAst { args, function_name: bl.function_name.clone() })
                    },
                    BuiltInFunctionsAst::AssemblyEmpty => BuiltInFunctionsAst::AssemblyEmpty,
                    BuiltInFunctionsAst::FormatEmpty => BuiltInFunctionsAst::FormatEmpty,
                    BuiltInFunctionsAst::StackOffsetEmpty => BuiltInFunctionsAst::StackOffsetEmpty,
                    BuiltInFunctionsAst::BranchLinkedEmpty => BuiltInFunctionsAst::BranchLinkedEmpty,
                },
            ),
        }
    }
}

impl CgExpression {
    /// The lowered expression holds no array literal.
    pub open spec fn vec_free(self) -> bool
        decreases self,
    {
        match self {
            CgExpression::Identifier(CgIdentifiers::StackVariableData(_)) => true,
            CgExpression::Identifier(CgIdentifiers::ArrayVariableData(d)) => d.arr_index.vec_free(),
            CgExpression::Literal(l) => !(l is Array),
        }
    }

    /// A copy of this lowered expression.
    pub fn duplicate(&self) -> (r: Self)
        ensures
            self.vec_free() ==> r == *self,
            same_cg(r, *self),
        decreases self, 0nat,
    {
        match self {
            CgExpression::Identifier(CgIdentifiers::StackVariableData(d)) => CgExpression::Identifier(
                CgIdentifiers::StackVariableData(StackVariableData { offset: d.offset, variable_type: d.variable_type.duplicate() }),
            ),
            CgExpression::Identifier(CgIdentifiers::ArrayVariableData(d)) => CgExpression::Identifier(
                CgIdentifiers::ArrayVariableData(
                    ArrayVariableData {
                        arr_index: Box::new(d.arr_index.duplicate()),
                        variable_type: d.variable_type.duplicate(),
                        offset: d.offset,
                    },
                ),
            ),
            CgExpression::Literal(l) => CgExpression::Literal(l.duplicate()),
        }
    }
}


impl CmpCondition {
    /// A copy of this condition.
    pub fn duplicate(&self) -> (r: Self)
        ensures
            r.condition_type == self.condition_type,
            r.scope == self.scope,
            copies_of(r.body@, self.body@),
        decreases self,
    {
        CmpCondition { condition_type: self.condition_type, body: duplicate_statements(&self.body), scope: self.scope }
    }
}

/// Copies of the conditions of `v`, in order.
pub fn duplicate_conditions(v: &Vec<CmpCondition>) -> (r: Vec<CmpCondition>)
    ensures
        r@.len() == v@.len(),
        forall|i: int| 0 <= i < v@.len() ==> (#[trigger] r@[i]).condition_type == v@[i].condition_type
            && r@[i].scope == v@[i].scope && copies_of(r@[i].body@, v@[i].body@),
    decreases v,
{
    let mut r: Vec<CmpCondition> = Vec::new();
    let mut i: usize = 0;
    while i < v.len()
        invariant
            i <= v@.len(),
            r@.len() == i,
            forall|j: int| 0 <= j < i ==> (#[trigger] r@[j]).condition_type == v@[j].condition_type
                && r@[j].scope == v@[j].scope && copies_of(r@[j].body@, v@[j].body@),
        decreases v@.len() - i,
    {
        proof {
            broadcast use vstd::std_specs::vec::axiom_vec_index_decreases;
            assert(decreases_to!(v => v[i as int]));
        }
        r.push(v[i].duplicate());
        i = i + 1;
    }
    r
}

/// Copies of the arguments of `v`, in order.
pub fn duplicate_args(v: &Vec<FunctionArg>) -> (r: Vec<FunctionArg>)
    ensures
        r@ == v@,
{
    let mut r: Vec<FunctionArg> = Vec::new();
    let mut i: usize = 0;
    while i < v.len()
        invariant
            i <= v@.len(),
            r@ == v@.subrange(0, i as int),
        decreases v@.len() - i,
    {
        r.push(v[i].duplicate());
        i = i + 1;
    }
    r
}

/// `copies` are copies of the statements `orig`, one for one: each in the same place of the
/// source and of the same kind, and equal to it where the statement holds no list.
pub open spec fn copies_of(copies: Seq<Statement>, orig: Seq<Statement>) -> bool {
    &&& copies.len() == orig.len()
    &&& forall|k: int| 0 <= k < orig.len() ==> (#[trigger] copies[k]).same_shape(orig[k])
    &&& forall|k: int| 0 <= k < orig.len() ==> orig[k].statement_type.vec_free() ==> #[trigger] copies[k] == orig[k]
    &&& forall|k: int| 0 <= k < orig.len() ==> same_stmt(#[trigger] copies[k], orig[k])
}

/// Copies of the statements of `v`, in order.
pub fn duplicate_statements(v: &Vec<Statement>) -> (r: Vec<Statement>)
    ensures
        r@.len() == v@.len(),
        forall|i: int| 0 <= i < v@.len() ==> (#[trigger] r@[i]).same_shape(v@[i]),
        forall|i: int| 0 <= i < v@.len() ==> v@[i].statement_type.vec_free() ==> #[trigger] r@[i] == v@[i],
        forall|i: int| 0 <= i < v@.len() ==> same_stmt(#[trigger] r@[i], v@[i]),
    decreases v,
{
    let mut r: Vec<Statement> = Vec::new();
    let mut i: usize = 0;
    while i < v.len()
        invariant
            i <= v@.len(),
            r@.len() == i,
            forall|j: int| 0 <= j < i ==> (#[trigger] r@[j]).same_shape(v@[j]),
            forall|j: int| 0 <= j < i ==> v@[j].statement_type.vec_free() ==> #[trigger] r@[j] == v@[j],
            forall|j: int| 0 <= j < i ==> same_stmt(#[trigger] r@[j], v@[j]),
        decreases v@.len() - i,
    {
        proof {
            broadcast use vstd::std_specs::vec::axiom_vec_index_decreases;
            assert(decreases_to!(v => v[i as int]));
        }
        r.push(v[i].duplicate());
        i = i + 1;
    }
    r
}

impl Statement {
    /// Same place in the source and same kind of statement; a declaration keeps its name and
    /// type, a compare its conditions' kinds and scopes.
    pub open spec fn same_shape(&self, other: Statement) -> bool {
        &&& self.col == other.col
        &&& self.line == other.line
        &&& self.start_pos == other.start_pos
        &&& self.end_pos == other.end_pos
        &&& self.statement_type.same_shape(other.statement_type)
    }

    /// A copy of this statement.
    pub fn duplicate(&self) -> (r: Self)
        ensures
            r.same_shape(*self),
            self.statement_type.vec_free() ==> r == *self,
            same_stmt(r, *self),
        decreases self,
    {
        Statement {
            col: self.col,
            line: self.line,
            start_pos: self.start_pos,
            end_pos: self.end_pos,
            statement_type: self.statement_type.duplicate(),
        }
    }
}

impl Statements {
    pub open spec fn same_shape(&self, other: Statements) -> bool {
        match (self, other) {
            (Statements::VariableDeclaration(a), Statements::VariableDeclaration(b)) => a.name == b.name
                && a.variable_type == b.variable_type && (a.value is Some <==> b.value is Some),
            (Statements::FunctionDeclaration(a), Statements::FunctionDeclaration(b)) => a.name == b.name
                && a.args@ == b.args@ && a.return_type == b.return_type && a.args_stack_mem_allocated
                == b.args_stack_mem_allocated && a.body@.len() == b.body@.len(),
            (Statements::Compare(a), Statements::Compare(b)) => a.conditions@.len() == b.conditions@.len()
                && forall|i: int| 0 <= i < a.conditions@.len() ==> (#[trigger] a.conditions@[i]).condition_type
                    == b.conditions@[i].condition_type && a.conditions@[i].scope == b.conditions@[i].scope,
            (Statements::Assignment(_), Statements::Assignment(_)) => true,
            (Statements::Expression(_), Statements::Expression(_)) => true,
            (Statements::StackFramePop, Statements::StackFramePop) => true,
            (Statements::AssignmentEmpty, Statements::AssignmentEmpty) => true,
            (Statements::VariableDeclarationEmpty, Statements::VariableDeclarationEmpty) => true,
            (Statements::FunctionDeclarationEmpty, Statements::FunctionDeclarationEmpty) => true,
            (Statements::CompareEmpty, Statements::CompareEmpty) => true,
            (Statements::ExpressionEmpty, Statements::ExpressionEmpty) => true,
            _ => false,
        }
    }

    /// The statement holds no list: a declaration, an assignment or an expression whose
    /// expressions hold none, or a statement without expressions.
    pub open spec fn vec_free(self) -> bool {
        match self {
            Statements::Assignment(a) => a.identifier.vec_free() && a.value.vec_free(),
            Statements::VariableDeclaration(d) => d.value matches Some(v) ==> v.vec_free(),
            Statements::FunctionDeclaration(_) => false,
            Statements::Compare(_) => false,
            Statements::Expression(e) => e.vec_free(),
            _ => true,
        }
    }

    /// A copy of this statement kind.
    pub fn duplicate(&self) -> (r: Self)
        ensures
            r.same_shape(*self),
            self.vec_free() ==> r == *self,
            same_kind(r, *self),
        decreases self,
    {
        match self {
            Statements::Assignment(a) => Statements::Assignment(
                Assignment { identifier: a.identifier.duplicate(), value: a.value.duplicate() },
            ),
            Statements::VariableDeclaration(d) => Statements::VariableDeclaration(
                VariableDeclaration {
                    name: d.name.clone(),
                    variable_type: d.variable_type.duplicate(),
                    value: match &d.value {
                        Some(e) => Some(e.duplicate()),
                        None => None,
                    },
                },
            ),
            Statements::FunctionDeclaration(f) => {
                let body = duplicate_statements(&f.body);
                proof {
                    lemma_same_stmts(body@, f.body@);
                }
                Statements::FunctionDeclaration(
                    FunctionDeclaration {
                        args: duplicate_args(&f.args),
                        name: f.name.clone(),
                        return_type: f.return_type.duplicate(),
                        body,
                        args_stack_mem_allocated: f.args_stack_mem_allocated,
                    },
                )
            },
            Statements::Compare(c) => {
                let conditions = duplicate_conditions(&c.conditions);
                proof {
                    lemma_same_conditions(conditions@, c.conditions@);
                    assert forall|k: int| 0 <= k < c.conditions@.len() implies same_stmts(
                        #[trigger] conditions@[k].body@,
                        c.conditions@[k].body@,
                    ) by {
                        lemma_same_stmts(conditions@[k].body@, c.conditions@[k].body@);
                    }
                }
                Statements::Compare(
                    Compare { expressions: [c.expressions[0].duplicate(), c.expressions[1].duplicate()], conditions },
                )
            },
            Statements::StackFramePop => Statements::StackFramePop,
            Statements::Expression(e) => Statements::Expression(e.duplicate()),
            Statements::AssignmentEmpty => Statements::AssignmentEmpty,
            Statements::VariableDeclarationEmpty => Statements::VariableDeclarationEmpty,
            Statements::FunctionDeclarationEmpty => Statements::FunctionDeclarationEmpty,
            Statements::CompareEmpty => Statements::CompareEmpty,
            Statements::ExpressionEmpty => Statements::ExpressionEmpty,
        }
    }
}


impl VariableType {
    /// Whether the two types are the same.
    pub fn same_type(&self, other: &VariableType) -> (r: bool)
        ensures
            r == (*self == *other),
        decreases self,
    {
        match (self, other) {
            (VariableType::I8, VariableType::I8) => true,
            (VariableType::I16, VariableType::I16) => true,
            (VariableType::I32, VariableType::I32) => true,
            (VariableType::I64, VariableType::I64) => true,
            (VariableType::U8, VariableType::U8) => true,
            (VariableType::U16, VariableType::U16) => true,
            (VariableType::U32, VariableType::U32) => true,
            (VariableType::U64, VariableType::U64) => true,
            (VariableType::Void, VariableType::Void) => true,
            (VariableType::ArrayEmpty, VariableType::ArrayEmpty) => true,
            (VariableType::Array(a), VariableType::Array(b)) => a.item_count == b.item_count
                && a.variable_type.same_type(&b.variable_type),
            _ => false,
        }
    }
}

} // verus!

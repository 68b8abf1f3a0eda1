//! Tokens produced by the tokenizer and read by the parser.
use vstd::prelude::*;
use crate::text::{debug_quote, debug_quoted, push_str};
use crate::datatypes::ast_statements::{Literal, VariableType};

verus! {

/// A token together with where it stands in the source.
#[derive(Debug, PartialEq)]
pub struct Token {
    pub kind: TokenType,
    pub line: usize,
    pub col: usize,
    pub start_pos: usize,
    pub end_pos: usize,
}

#[derive(Debug, PartialEq)]
pub enum Keywords {
    VariableType(VariableType),
    /// Only used to name the kind in error messages.
    VariableTypeEmpty,
}

#[derive(Debug, PartialEq)]
pub enum Identifiers {
    Identifier(String),
    /// Only used to name the kind in error messages.
    IdentifierEmpty,
}

#[derive(Debug, PartialEq, Eq, Clone, Copy, Structural)]
pub enum MemoryLocations {
    Stack,
    Register,
}

#[derive(Debug, PartialEq)]
pub enum TokenType {
    EOF,
    Operator(Operators),
    Keyword(Keywords),
    Literal(Literal),
    Punctuation(Punctuations),
    BuiltInFunction(BuiltInFunctions),
    Identifier(Identifiers),
    MemoryLocation(MemoryLocations),
    OperatorEmpty,
    KeywordEmpty,
    LiteralEmpty,
    PunctuationEmpty,
    BuiltInFunctionEmpty,
    IdentifierEmpty,
    MemoryLocationEmpty,
}

#[derive(Debug, PartialEq, Eq, Clone, Copy, Structural)]
pub enum BuiltInFunctions {
    Loop,
    Compare,
    Assembly,
    Format,
    StackOffset,
    Branch,
    BranchLinked,
}

#[derive(Debug, PartialEq, Eq, Clone, Copy, Structural)]
pub enum Punctuations {
    Colon,
    OpenParenthesis,
    ClosedParenthesis,
    OpenBraces,
    ClosedBraces,
    OpenSquareBracket,
    ClosedSquareBracket,
    Dot,
    Comma,
    Semicolon,
}

#[derive(Debug, PartialEq, Eq, Clone, Copy, Structural)]
pub enum Operators {
    Assignment,
}

// ---------------------------------------------------------------------------
// Names of token kinds, as error messages show them.
// ---------------------------------------------------------------------------

impl Keywords {
    pub open spec fn spec_type_string(&self) -> Seq<char> {
        "VariableType keyword"@
    }

    pub fn type_string(&self) -> (r: String)
        ensures
            r@ == self.spec_type_string(),
    {
        "VariableType keyword".to_owned()
    }
}

impl Identifiers {
    pub open spec fn spec_type_string(&self) -> Seq<char> {
        "Identifier"@
    }

    pub fn type_string(&self) -> (r: String)
        ensures
            r@ == self.spec_type_string(),
    {
        "Identifier".to_owned()
    }
}

impl MemoryLocations {
    pub open spec fn spec_type_string(&self) -> Seq<char> {
        match self {
            MemoryLocations::Stack => "Stack memory location"@,
            MemoryLocations::Register => "Register memory location"@,
        }
    }

    pub fn type_string(&self) -> (r: String)
        ensures
            r@ == self.spec_type_string(),
    {
        match self {
            MemoryLocations::Stack => "Stack memory location".to_owned(),
            MemoryLocations::Register => "Register memory location".to_owned(),
        }
    }

    pub open spec fn spec_debug_text(&self) -> Seq<char> {
        match self {
            MemoryLocations::Stack => "Stack"@,
            MemoryLocations::Register => "Register"@,
        }
    }

    /// The variant's name, as `{:?}` prints it.
    pub fn debug_text(&self) -> (r: String)
        ensures
            r@ == self.spec_debug_text(),
    {
        match self {
            MemoryLocations::Stack => "Stack".to_owned(),
            MemoryLocations::Register => "Register".to_owned(),
        }
    }
}

impl BuiltInFunctions {
    pub open spec fn spec_type_string(&self) -> Seq<char> {
        match self {
            BuiltInFunctions::Loop => "Loop Built in function"@,
            BuiltInFunctions::Compare => "Compare Built in function"@,
            BuiltInFunctions::Assembly => "Assembly Built in function"@,
            BuiltInFunctions::Format => "Format Built in function"@,
            BuiltInFunctions::StackOffset => "StackOffset Built in function"@,
            BuiltInFunctions::Branch => "Branch Built in function"@,
            BuiltInFunctions::BranchLinked => "BranchLinked Built in function"@,
        }
    }

    pub fn type_string(&self) -> (r: String)
        ensures
            r@ == self.spec_type_string(),
    {
        match self {
            BuiltInFunctions::Loop => "Loop Built in function".to_owned(),
            BuiltInFunctions::Compare => "Compare Built in function".to_owned(),
            BuiltInFunctions::Assembly => "Assembly Built in function".to_owned(),
            BuiltInFunctions::Format => "Format Built in function".to_owned(),
            BuiltInFunctions::StackOffset => "StackOffset Built in function".to_owned(),
            BuiltInFunctions::Branch => "Branch Built in function".to_owned(),
            BuiltInFunctions::BranchLinked => "BranchLinked Built in function".to_owned(),
        }
    }

    pub open spec fn spec_debug_text(&self) -> Seq<char> {
        match self {
            BuiltInFunctions::Loop => "Loop"@,
            BuiltInFunctions::Compare => "Compare"@,
            BuiltInFunctions::Assembly => "Assembly"@,
            BuiltInFunctions::Format => "Format"@,
            BuiltInFunctions::StackOffset => "StackOffset"@,
            BuiltInFunctions::Branch => "Branch"@,
            BuiltInFunctions::BranchLinked => "BranchLinked"@,
        }
    }

    /// The variant's name, as `{:?}` prints it.
    pub fn debug_text(&self) -> (r: String)
        ensures
            r@ == self.spec_debug_text(),
    {
        match self {
            BuiltInFunctions::Loop => "Loop".to_owned(),
            BuiltInFunctions::Compare => "Compare".to_owned(),
            BuiltInFunctions::Assembly => "Assembly".to_owned(),
            BuiltInFunctions::Format => "Format".to_owned(),
            BuiltInFunctions::StackOffset => "StackOffset".to_owned(),
            BuiltInFunctions::Branch => "Branch".to_owned(),
            BuiltInFunctions::BranchLinked => "BranchLinked".to_owned(),
        }
    }
}

impl Punctuations {
    pub open spec fn spec_type_string(&self) -> Seq<char> {
        match self {
            Punctuations::Colon => "Colon punctuation"@,
            Punctuations::OpenParenthesis => "OpenParenthesis punctuation"@,
            Punctuations::ClosedParenthesis => "ClosedParenthesis punctuation"@,
            Punctuations::OpenBraces => "OpenBraces punctuation"@,
            Punctuations::ClosedBraces => "ClosedBraces punctuation"@,
            Punctuations::OpenSquareBracket => "OpenSquareBracket punctuation"@,
            Punctuations::ClosedSquareBracket => "ClosedSquareBracket punctuation"@,
            Punctuations::Dot => "Dot punctuation"@,
            Punctuations::Comma => "Comma punctuation"@,
            Punctuations::Semicolon => "Semicolon punctuation"@,
        }
    }

    pub fn type_string(&self) -> (r: String)
        ensures
            r@ == self.spec_type_string(),
    {
        match self {
            Punctuations::Colon => "Colon punctuation".to_owned(),
            Punctuations::OpenParenthesis => "OpenParenthesis punctuation".to_owned(),
            Punctuations::ClosedParenthesis => "ClosedParenthesis punctuation".to_owned(),
            Punctuations::OpenBraces => "OpenBraces punctuation".to_owned(),
            Punctuations::ClosedBraces => "ClosedBraces punctuation".to_owned(),
            Punctuations::OpenSquareBracket => "OpenSquareBracket punctuation".to_owned(),
            Punctuations::ClosedSquareBracket => "ClosedSquareBracket punctuation".to_owned(),
            Punctuations::Dot => "Dot punctuation".to_owned(),
            Punctuations::Comma => "Comma punctuation".to_owned(),
            Punctuations::Semicolon => "Semicolon punctuation".to_owned(),
        }
    }

    pub open spec fn spec_debug_text(&self) -> Seq<char> {
        match self {
            Punctuations::Colon => "Colon"@,
            Punctuations::OpenParenthesis => "OpenParenthesis"@,
            Punctuations::ClosedParenthesis => "ClosedParenthesis"@,
            Punctuations::OpenBraces => "OpenBraces"@,
            Punctuations::ClosedBraces => "ClosedBraces"@,
            Punctuations::OpenSquareBracket => "OpenSquareBracket"@,
            Punctuations::ClosedSquareBracket => "ClosedSquareBracket"@,
            Punctuations::Dot => "Dot"@,
            Punctuations::Comma => "Comma"@,
            Punctuations::Semicolon => "Semicolon"@,
        }
    }

    /// The variant's name, as `{:?}` prints it.
    pub fn debug_text(&self) -> (r: String)
        ensures
            r@ == self.spec_debug_text(),
    {
        match self {
            Punctuations::Colon => "Colon".to_owned(),
            Punctuations::OpenParenthesis => "OpenParenthesis".to_owned(),
            Punctuations::ClosedParenthesis => "ClosedParenthesis".to_owned(),
            Punctuations::OpenBraces => "OpenBraces".to_owned(),
            Punctuations::ClosedBraces => "ClosedBraces".to_owned(),
            Punctuations::OpenSquareBracket => "OpenSquareBracket".to_owned(),
            Punctuations::ClosedSquareBracket => "ClosedSquareBracket".to_owned(),
            Punctuations::Dot => "Dot".to_owned(),
            Punctuations::Comma => "Comma".to_owned(),
            Punctuations::Semicolon => "Semicolon".to_owned(),
        }
    }
}

impl Operators {
    pub open spec fn spec_type_string(&self) -> Seq<char> {
        "Assignment operator"@
    }

    pub fn type_string(&self) -> (r: String)
        ensures
            r@ == self.spec_type_string(),
    {
        "Assignment operator".to_owned()
    }
}

impl TokenType {
    pub open spec fn spec_type_string(&self) -> Seq<char> {
        match self {
            TokenType::EOF => "EOF"@,
            TokenType::Literal(literal) => literal.spec_type_string(),
            TokenType::Keyword(keyword) => keyword.spec_type_string(),
            TokenType::Operator(operator) => operator.spec_type_string(),
            TokenType::Punctuation(punctuation) => punctuation.spec_type_string(),
            TokenType::BuiltInFunction(func) => func.spec_type_string(),
            TokenType::Identifier(identifier) => identifier.spec_type_string(),
            TokenType::MemoryLocation(memory_location) => memory_location.spec_type_string(),
            TokenType::LiteralEmpty => "Literal"@,
            TokenType::KeywordEmpty => "Keyword"@,
            TokenType::OperatorEmpty => "Operator"@,
            TokenType::PunctuationEmpty => "Punctuation"@,
            TokenType::BuiltInFunctionEmpty => "Built in function"@,
            TokenType::IdentifierEmpty => "Identifier"@,
            TokenType::MemoryLocationEmpty => "Memory Location"@,
        }
    }

    pub fn type_string(&self) -> (r: String)
        ensures
            r@ == self.spec_type_string(),
    {
        match self {
            TokenType::EOF => "EOF".to_owned(),
            TokenType::Literal(literal) => literal.type_string(),
            TokenType::Keyword(keyword) => keyword.type_string(),
            TokenType::Operator(operator) => operator.type_string(),
            TokenType::Punctuation(punctuation) => punctuation.type_string(),
            TokenType::BuiltInFunction(func) => func.type_string(),
            TokenType::Identifier(identifier) => identifier.type_string(),
            TokenType::MemoryLocation(memory_location) => memory_location.type_string(),
            TokenType::LiteralEmpty => "Literal".to_owned(),
            TokenType::KeywordEmpty => "Keyword".to_owned(),
            TokenType::OperatorEmpty => "Operator".to_owned(),
            TokenType::PunctuationEmpty => "Punctuation".to_owned(),
            TokenType::BuiltInFunctionEmpty => "Built in function".to_owned(),
            TokenType::IdentifierEmpty => "Identifier".to_owned(),
            TokenType::MemoryLocationEmpty => "Memory Location".to_owned(),
        }
    }

    /// The kind as `{:?}` prints it (an array literal's items are abbreviated).
    pub open spec fn spec_debug_text(&self) -> Seq<char> {
        match self {
            TokenType::EOF => "EOF"@,
            TokenType::Operator(_) => "Operator(Assignment)"@,
            TokenType::Keyword(Keywords::VariableType(t)) => "Keyword(VariableType("@ + t.spec_debug_text() + "))"@,
            TokenType::Keyword(Keywords::VariableTypeEmpty) => "Keyword(VariableTypeEmpty)"@,
            TokenType::Literal(literal) => "Literal("@ + literal.spec_debug_text() + ")"@,
            TokenType::Punctuation(p) => "Punctuation("@ + p.spec_debug_text() + ")"@,
            TokenType::BuiltInFunction(f) => "BuiltInFunction("@ + f.spec_debug_text() + ")"@,
            TokenType::Identifier(Identifiers::Identifier(name)) => "Identifier(Identifier("@ + debug_quoted(name@) + "))"@,
            TokenType::Identifier(Identifiers::IdentifierEmpty) => "Identifier(IdentifierEmpty)"@,
            TokenType::MemoryLocation(m) => "MemoryLocation("@ + m.spec_debug_text() + ")"@,
            TokenType::OperatorEmpty => "OperatorEmpty"@,
            TokenType::KeywordEmpty => "KeywordEmpty"@,
            TokenType::LiteralEmpty => "LiteralEmpty"@,
            TokenType::PunctuationEmpty => "PunctuationEmpty"@,
            TokenType::BuiltInFunctionEmpty => "BuiltInFunctionEmpty"@,
            TokenType::IdentifierEmpty => "IdentifierEmpty"@,
            TokenType::MemoryLocationEmpty => "MemoryLocationEmpty"@,
        }
    }

    /// Renders the kind as `{:?}` does, for error messages.
    pub fn debug_text(&self) -> (r: String)
        ensures
            r@ == self.spec_debug_text(),
    {
        match self {
            TokenType::EOF => "EOF".to_owned(),
            TokenType::Operator(_) => "Operator(Assignment)".to_owned(),
            TokenType::Keyword(Keywords::VariableType(t)) => {
                let mut s = "Keyword(VariableType(".to_owned();
                let inner = t.debug_text();
                push_str(&mut s, inner.as_str());
                push_str(&mut s, "))");
                s
            },
            TokenType::Keyword(Keywords::VariableTypeEmpty) => "Keyword(VariableTypeEmpty)".to_owned(),
            TokenType::Literal(literal) => {
                let mut s = "Literal(".to_owned();
                let inner = literal.debug_text();
                push_str(&mut s, inner.as_str());
                push_str(&mut s, ")");
                s
            },
            TokenType::Punctuation(p) => {
                let mut s = "Punctuation(".to_owned();
                let inner = p.debug_text();
                push_str(&mut s, inner.as_str());
                push_str(&mut s, ")");
                s
            },
            TokenType::BuiltInFunction(f) => {
                let mut s = "BuiltInFunction(".to_owned();
                let inner = f.debug_text();
                push_str(&mut s, inner.as_str());
                push_str(&mut s, ")");
                s
            },
            TokenType::Identifier(Identifiers::Identifier(name)) => {
                let mut s = "Identifier(Identifier(".to_owned();
                let inner = debug_quote(name.as_str());
                push_str(&mut s, inner.as_str());
                push_str(&mut s, "))");
                s
            },
            TokenType::Identifier(Identifiers::IdentifierEmpty) => "Identifier(IdentifierEmpty)".to_owned(),
            TokenType::MemoryLocation(m) => {
                let mut s = "MemoryLocation(".to_owned();
                let inner = m.debug_text();
                push_str(&mut s, inner.as_str());
                push_str(&mut s, ")");
                s
            },
            TokenType::OperatorEmpty => "OperatorEmpty".to_owned(),
            TokenType::KeywordEmpty => "KeywordEmpty".to_owned(),
            TokenType::LiteralEmpty => "LiteralEmpty".to_owned(),
            TokenType::PunctuationEmpty => "PunctuationEmpty".to_owned(),
            TokenType::BuiltInFunctionEmpty => "BuiltInFunctionEmpty".to_owned(),
            TokenType::IdentifierEmpty => "IdentifierEmpty".to_owned(),
            TokenType::MemoryLocationEmpty => "MemoryLocationEmpty".to_owned(),
        }
    }
}


/// Every token is lexical, as the tokenizer makes them.
pub open spec fn all_lexical(ts: Seq<Token>) -> bool {
    forall|k: int| 0 <= k < ts.len() ==> (#[trigger] ts[k]).kind.is_lexical()
}

impl TokenType {
    /// Tokens carry no array literals; the tokenizer never makes one.
    pub open spec fn is_lexical(&self) -> bool {
        !(self matches TokenType::Literal(Literal::Array(_)))
    }

    /// A copy of this kind.
    pub fn duplicate(&self) -> (r: Self)
        ensures
            self.is_lexical() ==> r == *self,
            self.is_lexical() <==> r.is_lexical(),
            r.spec_debug_text() == self.spec_debug_text(),
            r.spec_type_string() == self.spec_type_string(),
            self is EOF <==> r is EOF,
    {
        match self {
            TokenType::EOF => TokenType::EOF,
            TokenType::Operator(o) => TokenType::Operator(*o),
            TokenType::Keyword(Keywords::VariableType(t)) => TokenType::Keyword(Keywords::VariableType(t.duplicate())),
            TokenType::Keyword(Keywords::VariableTypeEmpty) => TokenType::Keyword(Keywords::VariableTypeEmpty),
            TokenType::Literal(l) => TokenType::Literal(l.duplicate()),
            TokenType::Punctuation(p) => TokenType::Punctuation(*p),
            TokenType::BuiltInFunction(f) => TokenType::BuiltInFunction(*f),
            TokenType::Identifier(Identifiers::Identifier(name)) => TokenType::Identifier(Identifiers::Identifier(name.clone())),
            TokenType::Identifier(Identifiers::IdentifierEmpty) => TokenType::Identifier(Identifiers::IdentifierEmpty),
            TokenType::MemoryLocation(m) => TokenType::MemoryLocation(*m),
            TokenType::OperatorEmpty => TokenType::OperatorEmpty,
            TokenType::KeywordEmpty => TokenType::KeywordEmpty,
            TokenType::LiteralEmpty => TokenType::LiteralEmpty,
            TokenType::PunctuationEmpty => TokenType::PunctuationEmpty,
            TokenType::BuiltInFunctionEmpty => TokenType::BuiltInFunctionEmpty,
            TokenType::IdentifierEmpty => TokenType::IdentifierEmpty,
            TokenType::MemoryLocationEmpty => TokenType::MemoryLocationEmpty,
        }
    }
}

impl Token {
    /// A copy of this token.
    pub fn duplicate(&self) -> (r: Self)
        ensures
            self.kind.is_lexical() ==> r == *self,
            self.kind.is_lexical() <==> r.kind.is_lexical(),
            r.kind.spec_debug_text() == self.kind.spec_debug_text(),
            r.kind.spec_type_string() == self.kind.spec_type_string(),
            r.kind is EOF <==> self.kind is EOF,
            r.start_pos == self.start_pos,
            r.end_pos == self.end_pos,
            r.line == self.line,
            r.col == self.col,
    {
        Token { kind: self.kind.duplicate(), line: self.line, col: self.col, start_pos: self.start_pos, end_pos: self.end_pos }
    }
}

} // verus!

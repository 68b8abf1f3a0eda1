//! Splits source text into tokens.
use vstd::prelude::*;
use crate::datatypes::ast_statements::{ArrayType, Literal, VariableType};
use crate::datatypes::lexical::{
    adv_col, adv_line, all_digits, classify_word, comment_close, digits_value, is_white_space,
    is_whitespace_char, is_word_delimiter, kind_has_shape, lemma_adv_no_newline, lemma_adv_split,
    lemma_comment_close_bounds, lemma_lex_step_bounds, lemma_skip_ws_end_bounds, lex_run, LexTok, lemma_string_scan_bounds, lemma_word_end_bounds,
    lex_step, parse_i64_text, quoted_char, scan_close, scan_text, quoted_char_ok, single_char_kind, skip_ws_end, spec_parse_i64, step_col,
    step_line, string_scan, word_end, TokenShape, shape_lexical, lemma_run_lexical,
};
use crate::datatypes::program_data::ProgramData;
use crate::datatypes::token::{BuiltInFunctions, Identifiers, Keywords, MemoryLocations, Operators, Punctuations, Token, TokenType, all_lexical};
use crate::text::{chars_of, push_char, str_eq};

verus! {

pub struct Tokenizer {
    pub program_data: ProgramData,
    pub position: usize,
    pub col: usize,
    pub line: usize,
    /// The characters of `program_data.source_code`.
    pub source: Vec<char>,
}

impl Tokenizer {
    /// The cached characters match the source, and positions and counters stay in range.
    pub open spec fn wf(&self) -> bool {
        &&& self.source@ == self.program_data.source_code@
        &&& self.source@.len() < usize::MAX / 4
        &&& self.position <= self.source@.len()
        &&& self.col <= self.position + 1
        &&& self.line <= 2 * self.position + 1
    }

    pub open spec fn src(&self) -> Seq<char> {
        self.source@
    }

    /// A tokenizer at the start of `program_data.source_code`, at line 1, column 1.
    pub fn new(program_data: ProgramData) -> (r: Self)
        requires
            program_data.source_code@.len() < usize::MAX / 4,
        ensures
            r.wf(),
            r.program_data == program_data,
            r.position == 0,
            r.col == 1,
            r.line == 1,
    {
        let source = chars_of(program_data.source_code.as_str());
        Tokenizer { program_data, position: 0, col: 1, line: 1, source }
    }

    /// The character at the current position.
    pub fn current_char(&self) -> (r: char)
        requires
            self.position < self.source@.len(),
        ensures
            r == self.source@[self.position as int],
    {
        self.source[self.position]
    }

    /// The character `offset` places after the current position.
    pub fn char_at_offset(&self, offset: i32) -> (r: char)
        requires
            0 <= self.position + offset < self.source@.len(),
        ensures
            r == self.source@[self.position + offset],
    {
        let _n = self.source.len();
        if offset >= 0 {
            assert((offset as usize) as int == offset as int);
            self.source[self.position + (offset as usize)]
        } else {
            let back = (0i64 - (offset as i64)) as usize;
            self.source[self.position - back]
        }
    }

    /// Moves `num` characters forward, counting lines and columns.
    pub fn advance(&mut self, num: usize)
        requires
            old(self).wf(),
            old(self).position + num <= old(self).source@.len(),
        ensures
            final(self).wf(),
            final(self).program_data == old(self).program_data,
            final(self).source == old(self).source,
            final(self).position == old(self).position + num,
            final(self).line == adv_line(old(self).src(), old(self).position as int, num as nat, old(self).line as int),
            final(self).col == adv_col(old(self).src(), old(self).position as int, num as nat, old(self).col as int),
    {
        let mut new_position: usize = self.position;
        let mut new_col: usize = self.col;
        let mut new_line: usize = self.line;
        let mut i: usize = 0;
        while i < num
            invariant
                self.wf(),
                self.position + num <= self.source@.len(),
                i <= num,
                new_position == self.position + i,
                new_line == adv_line(self.src(), self.position as int, i as nat, self.line as int),
                new_col == adv_col(self.src(), self.position as int, i as nat, self.col as int),
                new_col <= new_position + 1,
                new_line <= 2 * new_position + 1,
            decreases num - i,
        {
            if self.source[self.position + i] == '\n' {
                new_col = 1;
                new_line = new_line + 1;
            } else {
                new_col = new_col + 1;
            }
            new_position = new_position + 1;
            i = i + 1;
        }
        self.position = new_position;
        self.col = new_col;
        self.line = new_line;
    }

    /// Skips spaces, but not newlines.
    pub fn skip_whitespace(&mut self)
        requires
            old(self).wf(),
        ensures
            final(self).wf(),
            final(self).program_data == old(self).program_data,
            final(self).source == old(self).source,
            final(self).position == skip_ws_end(old(self).src(), old(self).position as int),
            final(self).col == old(self).col + (final(self).position - old(self).position),
            final(self).line == old(self).line,
    {
        let ghost start = self.position as int;
        let ghost col0 = self.col;
        proof {
            lemma_skip_ws_end_bounds(self.src(), start);
        }
        while self.position < self.source.len() && is_whitespace_char(self.current_char())
            && self.current_char() != '\n'
            invariant
                self.wf(),
                self.program_data == old(self).program_data,
                self.source == old(self).source,
                start <= self.position <= skip_ws_end(self.src(), start),
                skip_ws_end(self.src(), self.position as int) == skip_ws_end(self.src(), start),
                self.col == col0 + (self.position - start),
                self.line == old(self).line,
            decreases self.source@.len() - self.position,
        {
            proof {
                lemma_skip_ws_end_bounds(self.src(), self.position + 1);
            }
            self.col = self.col + 1;
            self.position = self.position + 1;
        }
    }

    /// Reads one character of a quoted literal: `\n` and `\\` are escapes, any other escaped
    /// character reads as a space.
    pub fn parse_char(&mut self) -> (r: char)
        requires
            old(self).wf(),
            quoted_char_ok(old(self).src(), old(self).position as int),
        ensures
            final(self).wf(),
            final(self).program_data == old(self).program_data,
            final(self).source == old(self).source,
            (r, final(self).position as int) == quoted_char(old(self).src(), old(self).position as int),
            final(self).line == adv_line(old(self).src(), old(self).position as int,
                (final(self).position - old(self).position) as nat, old(self).line as int),
            final(self).col == adv_col(old(self).src(), old(self).position as int,
                (final(self).position - old(self).position) as nat, old(self).col as int),
    {
        let ghost p0 = self.position as int;
        let ghost line0 = self.line as int;
        let ghost col0 = self.col as int;
        if self.current_char() == '\\' {
            self.advance(1);
            let new_char = if self.current_char() == 'n' {
                '\n'
            } else if self.current_char() == '\\' {
                '\\'
            } else {
                ' '
            };
            self.advance(1);
            proof {
                lemma_adv_split(self.src(), p0, 1, 1, line0, col0);
            }
            new_char
        } else {
            let cur = self.current_char();
            self.advance(1);
            cur
        }
    }
}


/// Whether `c` ends a word.
pub fn is_word_delimiter_char(c: char) -> (r: bool)
    ensures
        r == is_word_delimiter(c),
{
    c == ';' || c == '(' || c == ')' || c == ',' || c == '[' || c == ']' || c == '{' || c == '}'
}

/// The kind of the token a single delimiter character forms.
pub fn single_char_token_kind(c: char) -> (r: TokenType)
    ensures
        r == single_char_kind(c),
{
    if c == ';' {
        TokenType::Punctuation(Punctuations::Semicolon)
    } else if c == '(' {
        TokenType::Punctuation(Punctuations::OpenParenthesis)
    } else if c == ')' {
        TokenType::Punctuation(Punctuations::ClosedParenthesis)
    } else if c == ',' {
        TokenType::Punctuation(Punctuations::Comma)
    } else if c == '[' {
        TokenType::Punctuation(Punctuations::OpenSquareBracket)
    } else if c == ']' {
        TokenType::Punctuation(Punctuations::ClosedSquareBracket)
    } else if c == '{' {
        TokenType::Punctuation(Punctuations::OpenBraces)
    } else if c == '}' {
        TokenType::Punctuation(Punctuations::ClosedBraces)
    } else {
        TokenType::Punctuation(Punctuations::Dot)
    }
}

/// The token kind a word stands for: a keyword, a built-in, a number, or an identifier.
pub fn classify(res: String) -> (r: TokenType)
    ensures
        kind_has_shape(r, classify_word(res@)),
{
    let w = res.as_str();
    if str_eq(w, "stack_offset") {
        TokenType::BuiltInFunction(BuiltInFunctions::StackOffset)
    } else if str_eq(w, ";") {
        TokenType::Punctuation(Punctuations::Semicolon)
    } else if str_eq(w, ":") {
        TokenType::Punctuation(Punctuations::Colon)
    } else if str_eq(w, "=") {
        TokenType::Operator(Operators::Assignment)
    } else if str_eq(w, "{") {
        TokenType::Punctuation(Punctuations::OpenBraces)
    } else if str_eq(w, "}") {
        TokenType::Punctuation(Punctuations::ClosedBraces)
    } else if str_eq(w, "(") {
        TokenType::Punctuation(Punctuations::OpenParenthesis)
    } else if str_eq(w, ")") {
        TokenType::Punctuation(Punctuations::ClosedParenthesis)
    } else if str_eq(w, "[") {
        TokenType::Punctuation(Punctuations::OpenSquareBracket)
    } else if str_eq(w, "]") {
        TokenType::Punctuation(Punctuations::ClosedSquareBracket)
    } else if str_eq(w, ",") {
        TokenType::Punctuation(Punctuations::Comma)
    } else if str_eq(w, ".") {
        TokenType::Punctuation(Punctuations::Dot)
    } else if str_eq(w, "cmp") {
        TokenType::BuiltInFunction(BuiltInFunctions::Compare)
    } else if str_eq(w, "bl") {
        TokenType::BuiltInFunction(BuiltInFunctions::BranchLinked)
    } else if str_eq(w, "stack") {
        TokenType::MemoryLocation(MemoryLocations::Stack)
    } else if str_eq(w, "reg") {
        TokenType::MemoryLocation(MemoryLocations::Register)
    } else if str_eq(w, "asm") {
        TokenType::BuiltInFunction(BuiltInFunctions::Assembly)
    } else if str_eq(w, "i64") {
        TokenType::Keyword(Keywords::VariableType(VariableType::I64))
    } else if str_eq(w, "i32") {
        TokenType::Keyword(Keywords::VariableType(VariableType::I32))
    } else if str_eq(w, "i16") {
        TokenType::Keyword(Keywords::VariableType(VariableType::I16))
    } else if str_eq(w, "i8") {
        TokenType::Keyword(Keywords::VariableType(VariableType::I8))
    } else if str_eq(w, "u64") {
        TokenType::Keyword(Keywords::VariableType(VariableType::U64))
    } else if str_eq(w, "u32") {
        TokenType::Keyword(Keywords::VariableType(VariableType::U32))
    } else if str_eq(w, "u16") {
        TokenType::Keyword(Keywords::VariableType(VariableType::U16))
    } else if str_eq(w, "u8") {
        TokenType::Keyword(Keywords::VariableType(VariableType::U8))
    } else if str_eq(w, "void") {
        TokenType::Keyword(Keywords::VariableType(VariableType::Void))
    } else if str_eq(w, "array") {
        TokenType::Keyword(Keywords::VariableType(VariableType::Array(ArrayType::none())))
    } else if str_eq(w, "format") {
        TokenType::BuiltInFunction(BuiltInFunctions::Format)
    } else if str_eq(w, "compare") {
        TokenType::BuiltInFunction(BuiltInFunctions::Compare)
    } else if str_eq(w, "loop") {
        TokenType::BuiltInFunction(BuiltInFunctions::Loop)
    } else {
        let cs = chars_of(w);
        match parse_i64_text(&cs) {
            Some(num) => TokenType::Literal(Literal::Number(num)),
            None => TokenType::Identifier(Identifiers::Identifier(res)),
        }
    }
}

impl Tokenizer {
    /// Reads the next token. Newlines and comments yield no token; at the end of the
    /// source every call yields an `EOF` token.
    pub fn next_token(&mut self) -> (r: Option<Token>)
        requires
            old(self).wf(),
            lex_step(old(self).src(), old(self).position as int).safe,
        ensures
            final(self).wf(),
            final(self).program_data == old(self).program_data,
            final(self).source == old(self).source,
            ({
                let step = lex_step(old(self).src(), old(self).position as int);
                &&& final(self).position == step.end
                &&& final(self).line == step_line(old(self).src(), old(self).position as int, old(self).line as int)
                &&& final(self).col == step_col(old(self).src(), old(self).position as int, old(self).col as int)
                &&& (r is Some <==> step.token is Some)
                &&& r matches Some(t) ==> {
                    &&& kind_has_shape(t.kind, step.shape())
                    &&& t.start_pos == step.start()
                    &&& t.end_pos == step.finish()
                    &&& t.line == final(self).line
                    &&& t.col == final(self).col
                }
            }),
    {
        let ghost src = self.src();
        let ghost pos0 = self.position as int;
        let ghost line0 = self.line as int;
        let ghost col0 = self.col as int;
        self.skip_whitespace();
        let p = self.position;
        proof {
            lemma_skip_ws_end_bounds(src, pos0);
            lemma_adv_no_newline(src, pos0, (p - pos0) as nat, line0, col0);
        }
        if self.source.len() <= self.position {
            return Some(Token { kind: TokenType::EOF, col: self.col, line: self.line, start_pos: p, end_pos: p });
        }
        let c = self.current_char();
        if c == '\n' || c == ';' || c == '(' || c == ')' || c == ',' || c == '[' || c == ']' || c == '{'
            || c == '}' || c == '.' {
            self.advance(1);
            proof {
                lemma_adv_split(src, pos0, (p - pos0) as nat, 1, line0, col0);
            }
            if c == '\n' {
                self.line = self.line + 1;
                self.col = 1;
                return None;
            }
            let kind = single_char_token_kind(c);
            return Some(Token { kind, col: self.col, line: self.line, start_pos: p, end_pos: self.position });
        }
        if c == '/' {
            if self.char_at_offset(1) == '/' {
                let ghost q = comment_close(src, p + 2)->0;
                proof {
                    lemma_comment_close_bounds(src, p + 2);
                }
                self.advance(2);
                proof {
                    lemma_adv_split(src, pos0, (p - pos0) as nat, 2, line0, col0);
                }
                while !(self.current_char() == '/' && self.char_at_offset(1) == '/')
                    invariant
                        self.wf(),
                        self.program_data == old(self).program_data,
                        self.source == old(self).source,
                        src == old(self).src(),
                        pos0 <= p + 2 <= self.position <= q,
                        q + 1 < src.len(),
                        comment_close(src, self.position as int) == Some(q),
                        self.line == adv_line(src, pos0, (self.position - pos0) as nat, line0),
                        self.col == adv_col(src, pos0, (self.position - pos0) as nat, col0),
                    decreases q - self.position,
                {
                    proof {
                        lemma_comment_close_bounds(src, self.position as int);
                    }
                    let ghost mid = self.position as int;
                    self.advance(1);
                    proof {
                        lemma_adv_split(src, pos0, (mid - pos0) as nat, 1, line0, col0);
                    }
                }
                let ghost mid = self.position as int;
                self.advance(2);
                proof {
                    lemma_adv_split(src, pos0, (mid - pos0) as nat, 2, line0, col0);
                }
                return None;
            }
            return Some(Token {
                kind: TokenType::Identifier(Identifiers::Identifier(String::new())),
                col: self.col,
                line: self.line,
                start_pos: p,
                end_pos: p,
            });
        }
        if c == '\'' {
            self.advance(1);
            proof {
                lemma_adv_split(src, pos0, (p - pos0) as nat, 1, line0, col0);
            }
            let ghost mid = self.position as int;
            let ch = self.parse_char();
            proof {
                lemma_adv_split(src, pos0, (mid - pos0) as nat, (self.position - mid) as nat, line0, col0);
            }
            let ghost mid2 = self.position as int;
            self.advance(1);
            proof {
                lemma_adv_split(src, pos0, (mid2 - pos0) as nat, 1, line0, col0);
            }
            let literal_res = ((ch as u32) % 256) as i64;
            return Some(Token {
                kind: TokenType::Literal(Literal::Number(literal_res)),
                col: self.col,
                line: self.line,
                start_pos: p,
                end_pos: self.position,
            });
        }
        if c == '"' {
            let ghost full = scan_text(src, p + 1);
            let ghost close = scan_close(src, p + 1);
            proof {
                lemma_string_scan_bounds(src, p + 1);
            }
            let mut text = String::new();
            self.advance(1);
            proof {
                lemma_adv_split(src, pos0, (p - pos0) as nat, 1, line0, col0);
            }
            while self.position < self.source.len() && self.current_char() != '"'
                invariant
                    self.wf(),
                    self.program_data == old(self).program_data,
                    self.source == old(self).source,
                    src == old(self).src(),
                    pos0 <= p + 1 <= self.position <= close,
                    close < src.len(),
                    string_scan(src, self.position as int) is Some,
                    scan_close(src, self.position as int) == close,
                    text@ + scan_text(src, self.position as int) == full,
                    self.line == adv_line(src, pos0, (self.position - pos0) as nat, line0),
                    self.col == adv_col(src, pos0, (self.position - pos0) as nat, col0),
                decreases close - self.position,
            {
                let ghost mid = self.position as int;
                let ghost rest = scan_text(src, mid);
                let ch = self.parse_char();
                proof {
                    lemma_adv_split(src, pos0, (mid - pos0) as nat, (self.position - mid) as nat, line0, col0);
                    lemma_string_scan_bounds(src, self.position as int);
                }
                push_char(&mut text, ch);
                assert(text@ + scan_text(src, self.position as int) == full) by {
                    assert(rest == seq![ch] + scan_text(src, self.position as int));
                                    }
            }
            assert(scan_text(src, self.position as int) == Seq::<char>::empty());
            assert(text@ == full);
            let ghost mid = self.position as int;
            self.advance(1);
            proof {
                lemma_adv_split(src, pos0, (mid - pos0) as nat, 1, line0, col0);
            }
            return Some(Token {
                kind: TokenType::Literal(Literal::String(text)),
                col: self.col,
                line: self.line,
                start_pos: p,
                end_pos: self.position,
            });
        }
        let mut res = String::new();
        proof {
            lemma_word_end_bounds(src, p as int);
        }
        while self.position < self.source.len() && !is_whitespace_char(self.current_char())
            && !is_word_delimiter_char(self.current_char())
            invariant
                self.wf(),
                self.program_data == old(self).program_data,
                self.source == old(self).source,
                src == old(self).src(),
                pos0 <= p <= self.position <= word_end(src, p as int),
                word_end(src, self.position as int) == word_end(src, p as int),
                res@ == src.subrange(p as int, self.position as int),
                self.line == adv_line(src, pos0, (self.position - pos0) as nat, line0),
                self.col == adv_col(src, pos0, (self.position - pos0) as nat, col0),
            decreases src.len() - self.position,
        {
            let cur = self.current_char();
            push_char(&mut res, cur);
            let ghost mid = self.position as int;
            self.advance(1);
            proof {
                lemma_adv_split(src, pos0, (mid - pos0) as nat, 1, line0, col0);
                lemma_word_end_bounds(src, self.position as int);
            }
            assert(res@ == src.subrange(p as int, self.position as int));
        }
        let kind = classify(res);
        Some(Token { kind, col: self.col, line: self.line, start_pos: p, end_pos: self.position })
    }
}


/// A token matches its lexical description.
pub open spec fn token_matches(t: Token, lt: LexTok) -> bool {
    &&& kind_has_shape(t.kind, lt.shape)
    &&& t.start_pos == lt.start
    &&& t.end_pos == lt.end
    &&& t.line == lt.line
    &&& t.col == lt.col
}

/// Tokens made to match lexical token shapes are lexical.
pub proof fn lemma_matched_lexical(before: Seq<Token>, after: Seq<Token>, run: Seq<LexTok>)
    requires
        after.len() == before.len() + run.len(),
        after.subrange(0, before.len() as int) == before,
        forall|i: int| 0 <= i < run.len() ==> token_matches(#[trigger] after[before.len() + i], run[i]),
        forall|k: int| 0 <= k < run.len() ==> shape_lexical(#[trigger] run[k].shape),
    ensures
        all_lexical(before) ==> all_lexical(after),
{
    if all_lexical(before) {
        assert forall|k: int| 0 <= k < after.len() implies (#[trigger] after[k]).kind.is_lexical() by {
            if k < before.len() {
                assert(after[k] == after.subrange(0, before.len() as int)[k]);
            } else {
                let i = k - before.len();
                assert(token_matches(after[before.len() + i], run[i]));
                assert(shape_lexical(run[i].shape));
            }
        }
    }
}

impl Tokenizer {
    /// Whether the next step stays inside the source (see `lex_step`): comments, character
    /// literals and string literals must be closed before the source ends.
    pub fn step_is_safe(&self) -> (r: bool)
        requires
            self.wf(),
        ensures
            r == lex_step(self.src(), self.position as int).safe,
    {
        let ghost src = self.src();
        let len = self.source.len();
        let mut q = self.position;
        proof {
            lemma_skip_ws_end_bounds(src, q as int);
        }
        while q < len && is_whitespace_char(self.source[q]) && self.source[q] != '\n'
            invariant
                self.wf(),
                len == src.len(),
                src == self.src(),
                self.position <= q <= len,
                skip_ws_end(src, q as int) == skip_ws_end(src, self.position as int),
            decreases len - q,
        {
            q = q + 1;
        }
        if q >= len {
            return true;
        }
        let c = self.source[q];
        if c == '/' {
            if q + 1 >= len {
                return false;
            }
            if self.source[q + 1] != '/' {
                return true;
            }
            let mut k = q + 2;
            while k + 1 < len && !(self.source[k] == '/' && self.source[k + 1] == '/')
                invariant
                    len == src.len(),
                    src == self.src(),
                    q + 2 <= k <= len,
                    len < usize::MAX / 4,
                    q < len,
                    src[q as int] == '/',
                    src[q + 1] == '/',
                    skip_ws_end(src, self.position as int) == q as int,
                    comment_close(src, k as int) == comment_close(src, q + 2),
                decreases len - k,
            {
                k = k + 1;
            }
            return k + 1 < len;
        }
        if c == '\'' {
            if q + 1 >= len {
                return false;
            }
            let mut k = q + 1;
            if self.source[k] == '\\' {
                if k + 1 >= len {
                    return false;
                }
                k = k + 2;
            } else {
                k = k + 1;
            }
            return k < len && self.source[k] == '\'';
        }
        if c == '"' {
            let mut k = q + 1;
            while k < len && self.source[k] != '"'
                invariant
                    len == src.len(),
                    src == self.src(),
                    q + 1 <= k <= len + 1,
                    len < usize::MAX / 4,
                    q < len,
                    src[q as int] == '"',
                    skip_ws_end(src, self.position as int) == q as int,
                    (string_scan(src, k as int) is Some) == (string_scan(src, q + 1) is Some),
                decreases len + 1 - k,
            {
                if self.source[k] == '\\' {
                    if k + 1 >= len {
                        return false;
                    }
                    k = k + 2;
                } else {
                    k = k + 1;
                }
            }
            return k < len;
        }
        true
    }

    /// Tokenizes the rest of the source, appending the tokens to `program_data.tokens`.
    /// Returns true when the source was read to its end, the last token appended being
    /// `EOF`; false when a comment or literal runs past the end of the source, or when the
    /// tokenizer would make no progress (a lone `/`), with the tokens read until then.
    pub fn tokenize_all(&mut self) -> (ok: bool)
        requires
            old(self).wf(),
        ensures
            final(self).wf(),
            final(self).source == old(self).source,
            final(self).program_data.scopes == old(self).program_data.scopes,
            final(self).program_data.functions == old(self).program_data.functions,
            final(self).program_data.statements == old(self).program_data.statements,
            final(self).program_data.errors == old(self).program_data.errors,
            final(self).program_data.source_code == old(self).program_data.source_code,
            final(self).program_data.source_codes == old(self).program_data.source_codes,
            ({
                let run = lex_run(old(self).src(), old(self).position as int, old(self).line as int, old(self).col as int);
                let n0 = old(self).program_data.tokens@.len();
                &&& ok == run.1
                &&& final(self).program_data.tokens@.len() == n0 + run.0.len()
                &&& final(self).program_data.tokens@.subrange(0, n0 as int) == old(self).program_data.tokens@
                &&& forall|i: int| 0 <= i < run.0.len() ==> token_matches(
                    #[trigger] final(self).program_data.tokens@[n0 + i], run.0[i])
            }),
            all_lexical(old(self).program_data.tokens@) ==> all_lexical(final(self).program_data.tokens@),
    {
        let ghost src = self.src();
        let ghost run0 = lex_run(src, self.position as int, self.line as int, self.col as int);
        let ghost n0 = self.program_data.tokens@.len();
        let ghost mut done: Seq<LexTok> = seq![];
        loop
            invariant
                self.wf(),
                self.source == old(self).source,
                src == self.src(),
                self.program_data.scopes == old(self).program_data.scopes,
                self.program_data.functions == old(self).program_data.functions,
                self.program_data.statements == old(self).program_data.statements,
                self.program_data.errors == old(self).program_data.errors,
                self.program_data.source_code == old(self).program_data.source_code,
                self.program_data.source_codes == old(self).program_data.source_codes,
                n0 == old(self).program_data.tokens@.len(),
                run0 == lex_run(src, old(self).position as int, old(self).line as int, old(self).col as int),
                run0.0 == done + lex_run(src, self.position as int, self.line as int, self.col as int).0,
                run0.1 == lex_run(src, self.position as int, self.line as int, self.col as int).1,
                self.program_data.tokens@.len() == n0 + done.len(),
                self.program_data.tokens@.subrange(0, n0 as int) == old(self).program_data.tokens@,
                forall|i: int| 0 <= i < done.len() ==> token_matches(#[trigger] self.program_data.tokens@[n0 + i], done[i]),
            decreases src.len() - self.position,
        {
            if !self.step_is_safe() {
                assert(done == run0.0);
                proof {
                    lemma_run_lexical(src, old(self).position as int, old(self).line as int, old(self).col as int);
                    lemma_matched_lexical(old(self).program_data.tokens@, self.program_data.tokens@, run0.0);
                }
                return false;
            }
            let ghost pos = self.position as int;
            let ghost line = self.line as int;
            let ghost col = self.col as int;
            let ghost step = lex_step(src, pos);
            proof {
                lemma_lex_step_bounds(src, pos);
            }
            let before = self.position;
            let token = self.next_token();
            let ghost here: Seq<LexTok> = match step.token {
                Some((sh, st, e)) => seq![LexTok { shape: sh, start: st, end: e, line: self.line as int, col: self.col as int }],
                None => seq![],
            };
            let ghost old_tokens = self.program_data.tokens@;
            let mut eof = false;
            match token {
                Some(tkn) => {
                    eof = match tkn.kind {
                        TokenType::EOF => true,
                        _ => false,
                    };
                    self.program_data.tokens.push(tkn);
                },
                None => {},
            }
            proof {
                assert forall|i: int| 0 <= i < done.len() + here.len() implies token_matches(
                    #[trigger] self.program_data.tokens@[n0 + i], (done + here)[i]) by {
                    if i < done.len() {
                        assert(self.program_data.tokens@[n0 + i] == old_tokens[n0 + i]);
                    }
                }
                assert(self.program_data.tokens@.subrange(0, n0 as int) == old_tokens.subrange(0, n0 as int));
                assert(eof == (step.token is Some && step.shape() == TokenShape::Fixed(TokenType::EOF)));
                done = done + here;
            }
            if eof {
                assert(done == run0.0);
                proof {
                    lemma_run_lexical(src, old(self).position as int, old(self).line as int, old(self).col as int);
                    lemma_matched_lexical(old(self).program_data.tokens@, self.program_data.tokens@, run0.0);
                }
                return true;
            }
            if self.position <= before {
                assert(done == run0.0);
                proof {
                    lemma_run_lexical(src, old(self).position as int, old(self).line as int, old(self).col as int);
                    lemma_matched_lexical(old(self).program_data.tokens@, self.program_data.tokens@, run0.0);
                }
                return false;
            }
            assert(run0.0 == done + lex_run(src, self.position as int, self.line as int, self.col as int).0);
        }
    }
}

} // verus!

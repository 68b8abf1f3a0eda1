//! The lexical model: what one tokenizing step reads from the source and what it yields.
use vstd::prelude::*;
use crate::datatypes::ast_statements::{ArrayType, Literal, VariableType};
use crate::datatypes::token::{BuiltInFunctions, Identifiers, Keywords, MemoryLocations, Operators, Punctuations, TokenType};

verus! {

/// Unicode `White_Space`, as `char::is_whitespace` tests it.
pub open spec fn is_white_space(c: char) -> bool {
    let u = c as u32;
    (9 <= u <= 13) || u == 32 || u == 0x85 || u == 0xA0 || u == 0x1680 || (0x2000 <= u <= 0x200A)
        || u == 0x2028 || u == 0x2029 || u == 0x202F || u == 0x205F || u == 0x3000
}

pub fn is_whitespace_char(c: char) -> (r: bool)
    ensures
        r == is_white_space(c),
{
    let u = c as u32;
    (9 <= u && u <= 13) || u == 32 || u == 0x85 || u == 0xA0 || u == 0x1680 || (0x2000 <= u && u <= 0x200A)
        || u == 0x2028 || u == 0x2029 || u == 0x202F || u == 0x205F || u == 0x3000
}

/// Characters that end a word.
pub open spec fn is_word_delimiter(c: char) -> bool {
    c == ';' || c == '(' || c == ')' || c == ',' || c == '[' || c == ']' || c == '{' || c == '}'
}

/// Characters that form a token on their own.
pub open spec fn is_single_char_token(c: char) -> bool {
    c == '\n' || c == ';' || c == '(' || c == ')' || c == ',' || c == '[' || c == ']' || c == '{'
        || c == '}' || c == '.'
}

/// Where the spaces (not newlines) that start at `p` end.
pub open spec fn skip_ws_end(src: Seq<char>, p: int) -> int
    decreases src.len() - p,
{
    if 0 <= p < src.len() && is_white_space(src[p]) && src[p] != '\n' {
        skip_ws_end(src, p + 1)
    } else {
        p
    }
}

/// Line number after reading `n` characters from `from`: one more per newline.
pub open spec fn adv_line(src: Seq<char>, from: int, n: nat, line: int) -> int
    decreases n,
{
    if n == 0 {
        line
    } else {
        adv_line(src, from, (n - 1) as nat, line) + if src[from + n - 1] == '\n' {
            1int
        } else {
            0int
        }
    }
}

/// Column after reading `n` characters from `from`: back to 1 after a newline, else one more.
pub open spec fn adv_col(src: Seq<char>, from: int, n: nat, col: int) -> int
    decreases n,
{
    if n == 0 {
        col
    } else if src[from + n - 1] == '\n' {
        1
    } else {
        adv_col(src, from, (n - 1) as nat, col) + 1
    }
}

pub proof fn lemma_adv_split(src: Seq<char>, from: int, a: nat, b: nat, line: int, col: int)
    ensures
        adv_line(src, from + a, b, adv_line(src, from, a, line)) == adv_line(src, from, a + b, line),
        adv_col(src, from + a, b, adv_col(src, from, a, col)) == adv_col(src, from, a + b, col),
    decreases b,
{
    if b > 0 {
        lemma_adv_split(src, from, a, (b - 1) as nat, line, col);
        assert(from + a + b - 1 == from + (a + b) - 1);
    }
}

pub proof fn lemma_adv_bounds(src: Seq<char>, from: int, n: nat, line: int, col: int)
    ensures
        line <= adv_line(src, from, n, line) <= line + n,
        adv_col(src, from, n, col) <= col + n || adv_col(src, from, n, col) <= n,
        adv_col(src, from, n, col) >= 1 || adv_col(src, from, n, col) >= col,
    decreases n,
{
    if n > 0 {
        lemma_adv_bounds(src, from, (n - 1) as nat, line, col);
    }
}

/// The first `//` at or after `q` that closes a comment.
pub open spec fn comment_close(src: Seq<char>, q: int) -> Option<int>
    decreases src.len() - q,
{
    if q < 0 || q + 1 >= src.len() {
        None
    } else if src[q] == '/' && src[q + 1] == '/' {
        Some(q)
    } else {
        comment_close(src, q + 1)
    }
}

/// A character of a quoted literal at `q`: `\n` and `\\` are escapes, any other escaped
/// character reads as a space. Yields the character and where the next one starts.
pub open spec fn quoted_char(src: Seq<char>, q: int) -> (char, int) {
    if src[q] == '\\' {
        let c = if src[q + 1] == 'n' {
            '\n'
        } else if src[q + 1] == '\\' {
            '\\'
        } else {
            ' '
        };
        (c, q + 2)
    } else {
        (src[q], q + 1)
    }
}

/// A quoted character can be read at `q` without running past the source.
pub open spec fn quoted_char_ok(src: Seq<char>, q: int) -> bool {
    0 <= q < src.len() && (src[q] == '\\' ==> q + 1 < src.len())
}

/// The text of a string literal whose characters start at `q`, and where its closing quote is.
pub open spec fn string_scan(src: Seq<char>, q: int) -> Option<(Seq<char>, int)>
    decreases src.len() - q,
{
    if q < 0 || q >= src.len() {
        None
    } else if src[q] == '"' {
        Some((seq![], q))
    } else if !quoted_char_ok(src, q) {
        None
    } else {
        let (c, next) = quoted_char(src, q);
        match string_scan(src, next) {
            Some((rest, close)) => Some((seq![c] + rest, close)),
            None => None,
        }
    }
}

/// Where the word that starts at `p` ends.
pub open spec fn word_end(src: Seq<char>, p: int) -> int
    decreases src.len() - p,
{
    if 0 <= p < src.len() && !is_white_space(src[p]) && !is_word_delimiter(src[p]) {
        word_end(src, p + 1)
    } else {
        p
    }
}

/// Value of a run of decimal digits.
pub open spec fn digits_value(ds: Seq<char>) -> int
    decreases ds.len(),
{
    if ds.len() == 0 {
        0
    } else {
        digits_value(ds.drop_last()) * 10 + (ds.last() as int - 48)
    }
}

pub open spec fn all_digits(ds: Seq<char>) -> bool {
    forall|i: int| 0 <= i < ds.len() ==> '0' <= #[trigger] ds[i] <= '9'
}

/// `i64`'s parsing of decimal text: an optional `+` or `-`, then one or more digits,
/// with the value in range.
pub open spec fn spec_parse_i64(w: Seq<char>) -> Option<i64> {
    let neg = w.len() > 0 && w[0] == '-';
    let signed = w.len() > 0 && (w[0] == '-' || w[0] == '+');
    let ds = if signed {
        w.skip(1)
    } else {
        w
    };
    if ds.len() == 0 || !all_digits(ds) {
        None
    } else {
        let v = if neg {
            -digits_value(ds)
        } else {
            digits_value(ds)
        };
        if i64::MIN <= v <= i64::MAX {
            Some(v as i64)
        } else {
            None
        }
    }
}

/// What a token carries, with text as characters.
pub enum TokenShape {
    Fixed(TokenType),
    Ident(Seq<char>),
    Str(Seq<char>),
    Num(i64),
}

/// The kind of the token a word stands for.
pub open spec fn classify_word(w: Seq<char>) -> TokenShape {
    if w == "stack_offset"@ {
        TokenShape::Fixed(TokenType::BuiltInFunction(BuiltInFunctions::StackOffset))
    } else if w == ";"@ {
        TokenShape::Fixed(TokenType::Punctuation(Punctuations::Semicolon))
    } else if w == ":"@ {
        TokenShape::Fixed(TokenType::Punctuation(Punctuations::Colon))
    } else if w == "="@ {
        TokenShape::Fixed(TokenType::Operator(Operators::Assignment))
    } else if w == "{"@ {
        TokenShape::Fixed(TokenType::Punctuation(Punctuations::OpenBraces))
    } else if w == "}"@ {
        TokenShape::Fixed(TokenType::Punctuation(Punctuations::ClosedBraces))
    } else if w == "("@ {
        TokenShape::Fixed(TokenType::Punctuation(Punctuations::OpenParenthesis))
    } else if w == ")"@ {
        TokenShape::Fixed(TokenType::Punctuation(Punctuations::ClosedParenthesis))
    } else if w == "["@ {
        TokenShape::Fixed(TokenType::Punctuation(Punctuations::OpenSquareBracket))
    } else if w == "]"@ {
        TokenShape::Fixed(TokenType::Punctuation(Punctuations::ClosedSquareBracket))
    } else if w == ","@ {
        TokenShape::Fixed(TokenType::Punctuation(Punctuations::Comma))
    } else if w == "."@ {
        TokenShape::Fixed(TokenType::Punctuation(Punctuations::Dot))
    } else if w == "cmp"@ {
        TokenShape::Fixed(TokenType::BuiltInFunction(BuiltInFunctions::Compare))
    } else if w == "bl"@ {
        TokenShape::Fixed(TokenType::BuiltInFunction(BuiltInFunctions::BranchLinked))
    } else if w == "stack"@ {
        TokenShape::Fixed(TokenType::MemoryLocation(MemoryLocations::Stack))
    } else if w == "reg"@ {
        TokenShape::Fixed(TokenType::MemoryLocation(MemoryLocations::Register))
    } else if w == "asm"@ {
        TokenShape::Fixed(TokenType::BuiltInFunction(BuiltInFunctions::Assembly))
    } else if w == "i64"@ {
        TokenShape::Fixed(TokenType::Keyword(Keywords::VariableType(VariableType::I64)))
    } else if w == "i32"@ {
        TokenShape::Fixed(TokenType::Keyword(Keywords::VariableType(VariableType::I32)))
    } else if w == "i16"@ {
        TokenShape::Fixed(TokenType::Keyword(Keywords::VariableType(VariableType::I16)))
    } else if w == "i8"@ {
        TokenShape::Fixed(TokenType::Keyword(Keywords::VariableType(VariableType::I8)))
    } else if w == "u64"@ {
        TokenShape::Fixed(TokenType::Keyword(Keywords::VariableType(VariableType::U64)))
    } else if w == "u32"@ {
        TokenShape::Fixed(TokenType::Keyword(Keywords::VariableType(VariableType::U32)))
    } else if w == "u16"@ {
        TokenShape::Fixed(TokenType::Keyword(Keywords::VariableType(VariableType::U16)))
    } else if w == "u8"@ {
        TokenShape::Fixed(TokenType::Keyword(Keywords::VariableType(VariableType::U8)))
    } else if w == "void"@ {
        TokenShape::Fixed(TokenType::Keyword(Keywords::VariableType(VariableType::Void)))
    } else if w == "array"@ {
        TokenShape::Fixed(
            TokenType::Keyword(
                Keywords::VariableType(
                    VariableType::Array(ArrayType { item_count: 0, variable_type: Box::new(VariableType::Void) }),
                ),
            ),
        )
    } else if w == "format"@ {
        TokenShape::Fixed(TokenType::BuiltInFunction(BuiltInFunctions::Format))
    } else if w == "compare"@ {
        TokenShape::Fixed(TokenType::BuiltInFunction(BuiltInFunctions::Compare))
    } else if w == "loop"@ {
        TokenShape::Fixed(TokenType::BuiltInFunction(BuiltInFunctions::Loop))
    } else {
        match spec_parse_i64(w) {
            Some(n) => TokenShape::Num(n),
            None => TokenShape::Ident(w),
        }
    }
}

/// The token kind of a single delimiter character.
pub open spec fn single_char_kind(c: char) -> TokenType {
    if c == ';' {
        TokenType::Punctuation(Punctuations::Semicolon)
    } else if c == '(' {
        TokenType::Punctuation(Punctuations::OpenParenthesis)
    } else if c == ')' {
        TokenType::Punctuation(Punctuations::ClosedParenthesis)
    } else if c == ',' {
        TokenType::Punctuation(Punctuations::Comma)
    } else if c == '[' {
        TokenType::Punctuation(Punctuations::OpenSquareBracket)
    } else if c == ']' {
        TokenType::Punctuation(Punctuations::ClosedSquareBracket)
    } else if c == '{' {
        TokenType::Punctuation(Punctuations::OpenBraces)
    } else if c == '}' {
        TokenType::Punctuation(Punctuations::ClosedBraces)
    } else {
        TokenType::Punctuation(Punctuations::Dot)
    }
}

/// A token kind has the given shape.
pub open spec fn kind_has_shape(kind: TokenType, shape: TokenShape) -> bool {
    match shape {
        TokenShape::Fixed(k) => kind == k,
        TokenShape::Ident(s) => kind matches TokenType::Identifier(Identifiers::Identifier(x)) && x@ == s,
        TokenShape::Str(s) => kind matches TokenType::Literal(Literal::String(x)) && x@ == s,
        TokenShape::Num(n) => kind == TokenType::Literal(Literal::Number(n)),
    }
}

/// One tokenizing step from position `pos`.
pub struct LexStep {
    /// The step reads only inside the source (where it would not, the step is undefined).
    pub safe: bool,
    /// The token produced, if any, with its start and end.
    pub token: Option<(TokenShape, int, int)>,
    /// Where the next step starts.
    pub end: int,
    /// The step consumed a newline token (which counts the line twice and resets the column).
    pub newline: bool,
}

pub open spec fn lex_step(src: Seq<char>, pos: int) -> LexStep {
    let p = skip_ws_end(src, pos);
    if p >= src.len() {
        LexStep { safe: true, token: Some((TokenShape::Fixed(TokenType::EOF), p, p)), end: p, newline: false }
    } else {
        let c = src[p];
        if c == '\n' {
            LexStep { safe: true, token: None, end: p + 1, newline: true }
        } else if is_single_char_token(c) {
            LexStep { safe: true, token: Some((TokenShape::Fixed(single_char_kind(c)), p, p + 1)), end: p + 1, newline: false }
        } else if c == '/' {
            if p + 1 >= src.len() {
                LexStep { safe: false, token: None, end: p, newline: false }
            } else if src[p + 1] == '/' {
                match comment_close(src, p + 2) {
                    Some(q) => LexStep { safe: true, token: None, end: q + 2, newline: false },
                    None => LexStep { safe: false, token: None, end: p, newline: false },
                }
            } else {
                LexStep { safe: true, token: Some((TokenShape::Ident(seq![]), p, p)), end: p, newline: false }
            }
        } else if c == '\'' {
            if !quoted_char_ok(src, p + 1) {
                LexStep { safe: false, token: None, end: p, newline: false }
            } else {
                let (ch, q) = quoted_char(src, p + 1);
                if q < src.len() && src[q] == '\'' {
                    LexStep {
                        safe: true,
                        token: Some((TokenShape::Num(((ch as u32) % 256) as i64), p, q + 1)),
                        end: q + 1,
                        newline: false,
                    }
                } else {
                    LexStep { safe: false, token: None, end: p, newline: false }
                }
            }
        } else if c == '"' {
            match string_scan(src, p + 1) {
                Some((text, close)) => LexStep {
                    safe: true,
                    token: Some((TokenShape::Str(text), p, close + 1)),
                    end: close + 1,
                    newline: false,
                },
                None => LexStep { safe: false, token: None, end: p, newline: false },
            }
        } else {
            let e = word_end(src, p);
            LexStep {
                safe: true,
                token: Some((classify_word(src.subrange(p, e)), p, e)),
                end: e,
                newline: false,
            }
        }
    }
}

/// Line after a step from `pos` at `line`.
pub open spec fn step_line(src: Seq<char>, pos: int, line: int) -> int {
    let s = lex_step(src, pos);
    adv_line(src, pos, (s.end - pos) as nat, line) + if s.newline {
        1int
    } else {
        0int
    }
}

/// Column after a step from `pos` at `col`.
pub open spec fn step_col(src: Seq<char>, pos: int, col: int) -> int {
    let s = lex_step(src, pos);
    if s.newline {
        1
    } else {
        adv_col(src, pos, (s.end - pos) as nat, col)
    }
}

} // verus!

verus! {

pub proof fn lemma_skip_ws_end_bounds(src: Seq<char>, p: int)
    requires
        0 <= p <= src.len(),
    ensures
        p <= skip_ws_end(src, p) <= src.len(),
        forall|k: int| p <= k < skip_ws_end(src, p) ==> is_white_space(#[trigger] src[k]) && src[k] != '\n',
    decreases src.len() - p,
{
    if p < src.len() && is_white_space(src[p]) && src[p] != '\n' {
        lemma_skip_ws_end_bounds(src, p + 1);
    }
}

pub proof fn lemma_word_end_bounds(src: Seq<char>, p: int)
    requires
        0 <= p <= src.len(),
    ensures
        p <= word_end(src, p) <= src.len(),
        forall|k: int| p <= k < word_end(src, p) ==> !is_white_space(#[trigger] src[k]) && !is_word_delimiter(src[k]),
    decreases src.len() - p,
{
    if p < src.len() && !is_white_space(src[p]) && !is_word_delimiter(src[p]) {
        lemma_word_end_bounds(src, p + 1);
    }
}

pub proof fn lemma_comment_close_bounds(src: Seq<char>, q: int)
    requires
        0 <= q,
    ensures
        comment_close(src, q) matches Some(c) ==> q <= c && c + 1 < src.len() && src[c] == '/' && src[c + 1] == '/',
    decreases src.len() - q,
{
    if q + 1 < src.len() && !(src[q] == '/' && src[q + 1] == '/') {
        lemma_comment_close_bounds(src, q + 1);
    }
}

pub proof fn lemma_string_scan_bounds(src: Seq<char>, q: int)
    requires
        0 <= q,
    ensures
        string_scan(src, q) matches Some((t, c)) ==> q <= c < src.len() && src[c] == '"',
    decreases src.len() - q,
{
    if 0 <= q < src.len() && src[q] != '"' && quoted_char_ok(src, q) {
        lemma_string_scan_bounds(src, quoted_char(src, q).1);
    }
}

/// Reading characters none of which is a newline moves only the column.
pub proof fn lemma_adv_no_newline(src: Seq<char>, from: int, n: nat, line: int, col: int)
    requires
        forall|k: int| from <= k < from + n ==> #[trigger] src[k] != '\n',
    ensures
        adv_line(src, from, n, line) == line,
        adv_col(src, from, n, col) == col + n,
    decreases n,
{
    if n > 0 {
        lemma_adv_no_newline(src, from, (n - 1) as nat, line, col);
        assert(src[from + n - 1] != '\n');
    }
}

/// A step consumes no fewer characters than it starts from, and stays in the source.
pub proof fn lemma_lex_step_bounds(src: Seq<char>, pos: int)
    requires
        0 <= pos <= src.len(),
    ensures
        lex_step(src, pos).safe ==> pos <= lex_step(src, pos).end <= src.len(),
        lex_step(src, pos).safe ==> (lex_step(src, pos).token matches Some((shape, s, e)) ==> pos <= s <= e
            == lex_step(src, pos).end),
{
    let p = skip_ws_end(src, pos);
    lemma_skip_ws_end_bounds(src, pos);
    if p < src.len() {
        lemma_word_end_bounds(src, p);
        lemma_comment_close_bounds(src, p + 2);
        lemma_string_scan_bounds(src, p + 1);
    }
}

} // verus!

verus! {

/// A longer run of digits is worth at least as much as any of its prefixes.
pub proof fn lemma_digits_value_prefix(ds: Seq<char>, k: int)
    requires
        all_digits(ds),
        0 <= k <= ds.len(),
    ensures
        0 <= digits_value(ds.take(k)) <= digits_value(ds),
    decreases ds.len(),
{
    if ds.len() > 0 {
        if k == ds.len() {
            assert(ds.take(k) == ds);
            lemma_digits_value_prefix(ds.drop_last(), k - 1);
            lemma_digits_value_nonneg(ds);
        } else {
            assert(ds.drop_last().take(k) == ds.take(k));
            assert(all_digits(ds.drop_last())) by {
                assert forall|i: int| 0 <= i < ds.drop_last().len() implies '0' <= #[trigger] ds.drop_last()[i] <= '9' by {
                    assert(ds.drop_last()[i] == ds[i]);
                }
            }
            lemma_digits_value_prefix(ds.drop_last(), k);
            lemma_digits_value_nonneg(ds.drop_last());
            assert(ds.last() == ds[ds.len() - 1]);
        }
    } else {
        assert(ds.take(k) =~= ds);
    }
}

pub proof fn lemma_digits_value_nonneg(ds: Seq<char>)
    requires
        all_digits(ds),
    ensures
        digits_value(ds) >= 0,
    decreases ds.len(),
{
    if ds.len() > 0 {
        assert(all_digits(ds.drop_last())) by {
            assert forall|i: int| 0 <= i < ds.drop_last().len() implies '0' <= #[trigger] ds.drop_last()[i] <= '9' by {
                assert(ds.drop_last()[i] == ds[i]);
            }
        }
        lemma_digits_value_nonneg(ds.drop_last());
        assert(ds.last() == ds[ds.len() - 1]);
    }
}

/// Parses decimal text as `i64`'s `from_str` does.
pub fn parse_i64_text(w: &Vec<char>) -> (r: Option<i64>)
    ensures
        r == spec_parse_i64(w@),
{
    let n = w.len();
    let mut start: usize = 0;
    let mut neg = false;
    if n > 0 && (w[0] == '-' || w[0] == '+') {
        neg = w[0] == '-';
        start = 1;
    }
    let ghost ds = if start == 1 { w@.skip(1) } else { w@ };
    assert(ds == w@.subrange(start as int, n as int));
    if start == n {
        return None;
    }
    let mut acc: i128 = 0;
    let mut i: usize = start;
    while i < n
        invariant
            start <= i <= n,
            start < n,
            n == w@.len(),
            ds == w@.subrange(start as int, n as int),
            neg == (w@.len() > 0 && w@[0] == '-'),
            (start == 1) == (w@.len() > 0 && (w@[0] == '-' || w@[0] == '+')),
            start == 0 || start == 1,
            ds == if start == 1 { w@.skip(1) } else { w@ },
            all_digits(ds.take(i - start)),
            acc == digits_value(ds.take(i - start)),
            0 <= acc <= 9223372036854775808,
        decreases n - i,
    {
        let c = w[i];
        if !('0' <= c && c <= '9') {
            assert(ds[i - start] == c);
            assert(!all_digits(ds));
            return None;
        }
        let d = ((c as u32) - 48) as i128;
        assert(ds.take(i - start + 1).drop_last() == ds.take(i - start));
        assert(ds.take(i - start + 1).last() == c);
        acc = acc * 10 + d;
        i = i + 1;
        assert(all_digits(ds.take(i - start))) by {
            assert forall|j: int| 0 <= j < ds.take(i - start).len() implies '0' <= #[trigger] ds.take(i - start)[j] <= '9' by {
                if j < i - start - 1 {
                    assert(ds.take(i - start)[j] == ds.take(i - start - 1)[j]);
                }
            }
        }
        if acc > 9223372036854775808 {
            proof {
                if all_digits(ds) {
                    lemma_digits_value_prefix(ds, i - start);
                }
            }
            return None;
        }
    }
    assert(ds.take(n - start) == ds);
    let v: i128 = if neg { 0 - acc } else { acc };
    if v < -9223372036854775808i128 || v > 9223372036854775807i128 {
        return None;
    }
    Some(v as i64)
}

} // verus!

verus! {

impl LexStep {
    pub open spec fn shape(&self) -> TokenShape {
        match self.token {
            Some((shape, _, _)) => shape,
            None => TokenShape::Fixed(TokenType::EOF),
        }
    }

    pub open spec fn start(&self) -> int {
        match self.token {
            Some((_, s, _)) => s,
            None => 0,
        }
    }

    pub open spec fn finish(&self) -> int {
        match self.token {
            Some((_, _, e)) => e,
            None => 0,
        }
    }
}

/// The text of the string literal scanned from `q`.
pub open spec fn scan_text(src: Seq<char>, q: int) -> Seq<char> {
    match string_scan(src, q) {
        Some((t, _)) => t,
        None => seq![],
    }
}

/// Where the closing quote of the string literal scanned from `q` is.
pub open spec fn scan_close(src: Seq<char>, q: int) -> int {
    match string_scan(src, q) {
        Some((_, c)) => c,
        None => 0,
    }
}

} // verus!

verus! {

/// A token of a tokenizing run: its shape, where it starts and ends, and the line and
/// column the tokenizer was at after reading it.
pub struct LexTok {
    pub shape: TokenShape,
    pub start: int,
    pub end: int,
    pub line: int,
    pub col: int,
}

/// The tokens read from `pos` on, and whether the run reached the end of the source. A run
/// stops early, unfinished, at a step that would read past the source or make no progress.
pub open spec fn lex_run(src: Seq<char>, pos: int, line: int, col: int) -> (Seq<LexTok>, bool)
    decreases src.len() - pos,
{
    if !(0 <= pos <= src.len()) || !lex_step(src, pos).safe {
        (seq![], false)
    } else {
        let s = lex_step(src, pos);
        let l2 = step_line(src, pos, line);
        let c2 = step_col(src, pos, col);
        let here: Seq<LexTok> = match s.token {
            Some((sh, st, e)) => seq![LexTok { shape: sh, start: st, end: e, line: l2, col: c2 }],
            None => seq![],
        };
        if s.token is Some && s.shape() == TokenShape::Fixed(TokenType::EOF) {
            (here, true)
        } else if s.end <= pos || s.end > src.len() {
            (here, false)
        } else {
            let rest = lex_run(src, s.end, l2, c2);
            (here + rest.0, rest.1)
        }
    }
}

/// The kinds a shape allows carry no array literal.
pub open spec fn shape_lexical(sh: TokenShape) -> bool {
    sh matches TokenShape::Fixed(k) ==> k.is_lexical()
}

/// Every token a step reads is lexical.
pub proof fn lemma_step_lexical(src: Seq<char>, pos: int)
    ensures
        lex_step(src, pos).token matches Some((sh, _, _)) ==> shape_lexical(sh),
{
}

/// Words that differ at some position are different words.
proof fn lemma_words_differ(a: Seq<char>, b: Seq<char>, i: int)
    requires
        0 <= i < a.len(),
        i < b.len(),
        a[i] != b[i],
    ensures
        a != b,
{
}

/// Each type keyword names its type: the word a type is written as (its name in messages)
/// reads back as that type's keyword.
pub proof fn lemma_type_keywords_name_their_type(t: VariableType)
    requires
        t.is_number() || t is Void,
    ensures
        classify_word(t.spec_type_string()) == TokenShape::Fixed(TokenType::Keyword(Keywords::VariableType(t))),
{
    match t {
        VariableType::I64 => {
            reveal_strlit("i64");
            reveal_strlit("stack_offset");
            assert("i64"@ != "stack_offset"@);
            reveal_strlit(";");
            assert("i64"@ != ";"@);
            reveal_strlit(":");
            assert("i64"@ != ":"@);
            reveal_strlit("=");
            assert("i64"@ != "="@);
            reveal_strlit("{");
            assert("i64"@ != "{"@);
            reveal_strlit("}");
            assert("i64"@ != "}"@);
            reveal_strlit("(");
            assert("i64"@ != "("@);
            reveal_strlit(")");
            assert("i64"@ != ")"@);
            reveal_strlit("[");
            assert("i64"@ != "["@);
            reveal_strlit("]");
            assert("i64"@ != "]"@);
            reveal_strlit(",");
            assert("i64"@ != ","@);
            reveal_strlit(".");
            assert("i64"@ != "."@);
            reveal_strlit("cmp");
            lemma_words_differ("i64"@, "cmp"@, 0);
            reveal_strlit("bl");
            assert("i64"@ != "bl"@);
            reveal_strlit("stack");
            assert("i64"@ != "stack"@);
            reveal_strlit("reg");
            lemma_words_differ("i64"@, "reg"@, 0);
            reveal_strlit("asm");
            lemma_words_differ("i64"@, "asm"@, 0);
        },
        VariableType::I32 => {
            reveal_strlit("i32");
            reveal_strlit("stack_offset");
            assert("i32"@ != "stack_offset"@);
            reveal_strlit(";");
            assert("i32"@ != ";"@);
            reveal_strlit(":");
            assert("i32"@ != ":"@);
            reveal_strlit("=");
            assert("i32"@ != "="@);
            reveal_strlit("{");
            assert("i32"@ != "{"@);
            reveal_strlit("}");
            assert("i32"@ != "}"@);
            reveal_strlit("(");
            assert("i32"@ != "("@);
            reveal_strlit(")");
            assert("i32"@ != ")"@);
            reveal_strlit("[");
            assert("i32"@ != "["@);
            reveal_strlit("]");
            assert("i32"@ != "]"@);
            reveal_strlit(",");
            assert("i32"@ != ","@);
            reveal_strlit(".");
            assert("i32"@ != "."@);
            reveal_strlit("cmp");
            lemma_words_differ("i32"@, "cmp"@, 0);
            reveal_strlit("bl");
            assert("i32"@ != "bl"@);
            reveal_strlit("stack");
            assert("i32"@ != "stack"@);
            reveal_strlit("reg");
            lemma_words_differ("i32"@, "reg"@, 0);
            reveal_strlit("asm");
            lemma_words_differ("i32"@, "asm"@, 0);
            reveal_strlit("i64");
            lemma_words_differ("i32"@, "i64"@, 1);
        },
        VariableType::I16 => {
            reveal_strlit("i16");
            reveal_strlit("stack_offset");
            assert("i16"@ != "stack_offset"@);
            reveal_strlit(";");
            assert("i16"@ != ";"@);
            reveal_strlit(":");
            assert("i16"@ != ":"@);
            reveal_strlit("=");
            assert("i16"@ != "="@);
            reveal_strlit("{");
            assert("i16"@ != "{"@);
            reveal_strlit("}");
            assert("i16"@ != "}"@);
            reveal_strlit("(");
            assert("i16"@ != "("@);
            reveal_strlit(")");
            assert("i16"@ != ")"@);
            reveal_strlit("[");
            assert("i16"@ != "["@);
            reveal_strlit("]");
            assert("i16"@ != "]"@);
            reveal_strlit(",");
            assert("i16"@ != ","@);
            reveal_strlit(".");
            assert("i16"@ != "."@);
            reveal_strlit("cmp");
            lemma_words_differ("i16"@, "cmp"@, 0);
            reveal_strlit("bl");
            assert("i16"@ != "bl"@);
            reveal_strlit("stack");
            assert("i16"@ != "stack"@);
            reveal_strlit("reg");
            lemma_words_differ("i16"@, "reg"@, 0);
            reveal_strlit("asm");
            lemma_words_differ("i16"@, "asm"@, 0);
            reveal_strlit("i64");
            lemma_words_differ("i16"@, "i64"@, 1);
            reveal_strlit("i32");
            lemma_words_differ("i16"@, "i32"@, 1);
        },
        VariableType::I8 => {
            reveal_strlit("i8");
            reveal_strlit("stack_offset");
            assert("i8"@ != "stack_offset"@);
            reveal_strlit(";");
            assert("i8"@ != ";"@);
            reveal_strlit(":");
            assert("i8"@ != ":"@);
            reveal_strlit("=");
            assert("i8"@ != "="@);
            reveal_strlit("{");
            assert("i8"@ != "{"@);
            reveal_strlit("}");
            assert("i8"@ != "}"@);
            reveal_strlit("(");
            assert("i8"@ != "("@);
            reveal_strlit(")");
            assert("i8"@ != ")"@);
            reveal_strlit("[");
            assert("i8"@ != "["@);
            reveal_strlit("]");
            assert("i8"@ != "]"@);
            reveal_strlit(",");
            assert("i8"@ != ","@);
            reveal_strlit(".");
            assert("i8"@ != "."@);
            reveal_strlit("cmp");
            assert("i8"@ != "cmp"@);
            reveal_strlit("bl");
            lemma_words_differ("i8"@, "bl"@, 0);
            reveal_strlit("stack");
            assert("i8"@ != "stack"@);
            reveal_strlit("reg");
            assert("i8"@ != "reg"@);
            reveal_strlit("asm");
            assert("i8"@ != "asm"@);
            reveal_strlit("i64");
            assert("i8"@ != "i64"@);
            reveal_strlit("i32");
            assert("i8"@ != "i32"@);
            reveal_strlit("i16");
            assert("i8"@ != "i16"@);
        },
        VariableType::U64 => {
            reveal_strlit("u64");
            reveal_strlit("stack_offset");
            assert("u64"@ != "stack_offset"@);
            reveal_strlit(";");
            assert("u64"@ != ";"@);
            reveal_strlit(":");
            assert("u64"@ != ":"@);
            reveal_strlit("=");
            assert("u64"@ != "="@);
            reveal_strlit("{");
            assert("u64"@ != "{"@);
            reveal_strlit("}");
            assert("u64"@ != "}"@);
            reveal_strlit("(");
            assert("u64"@ != "("@);
            reveal_strlit(")");
            assert("u64"@ != ")"@);
            reveal_strlit("[");
            assert("u64"@ != "["@);
            reveal_strlit("]");
            assert("u64"@ != "]"@);
            reveal_strlit(",");
            assert("u64"@ != ","@);
            reveal_strlit(".");
            assert("u64"@ != "."@);
            reveal_strlit("cmp");
            lemma_words_differ("u64"@, "cmp"@, 0);
            reveal_strlit("bl");
            assert("u64"@ != "bl"@);
            reveal_strlit("stack");
            assert("u64"@ != "stack"@);
            reveal_strlit("reg");
            lemma_words_differ("u64"@, "reg"@, 0);
            reveal_strlit("asm");
            lemma_words_differ("u64"@, "asm"@, 0);
            reveal_strlit("i64");
            lemma_words_differ("u64"@, "i64"@, 0);
            reveal_strlit("i32");
            lemma_words_differ("u64"@, "i32"@, 0);
            reveal_strlit("i16");
            lemma_words_differ("u64"@, "i16"@, 0);
            reveal_strlit("i8");
            assert("u64"@ != "i8"@);
        },
        VariableType::U32 => {
            reveal_strlit("u32");
            reveal_strlit("stack_offset");
            assert("u32"@ != "stack_offset"@);
            reveal_strlit(";");
            assert("u32"@ != ";"@);
            reveal_strlit(":");
            assert("u32"@ != ":"@);
            reveal_strlit("=");
            assert("u32"@ != "="@);
            reveal_strlit("{");
            assert("u32"@ != "{"@);
            reveal_strlit("}");
            assert("u32"@ != "}"@);
            reveal_strlit("(");
            assert("u32"@ != "("@);
            reveal_strlit(")");
            assert("u32"@ != ")"@);
            reveal_strlit("[");
            assert("u32"@ != "["@);
            reveal_strlit("]");
            assert("u32"@ != "]"@);
            reveal_strlit(",");
            assert("u32"@ != ","@);
            reveal_strlit(".");
            assert("u32"@ != "."@);
            reveal_strlit("cmp");
            lemma_words_differ("u32"@, "cmp"@, 0);
            reveal_strlit("bl");
            assert("u32"@ != "bl"@);
            reveal_strlit("stack");
            assert("u32"@ != "stack"@);
            reveal_strlit("reg");
            lemma_words_differ("u32"@, "reg"@, 0);
            reveal_strlit("asm");
            lemma_words_differ("u32"@, "asm"@, 0);
            reveal_strlit("i64");
            lemma_words_differ("u32"@, "i64"@, 0);
            reveal_strlit("i32");
            lemma_words_differ("u32"@, "i32"@, 0);
            reveal_strlit("i16");
            lemma_words_differ("u32"@, "i16"@, 0);
            reveal_strlit("i8");
            assert("u32"@ != "i8"@);
            reveal_strlit("u64");
            lemma_words_differ("u32"@, "u64"@, 1);
        },
        VariableType::U16 => {
            reveal_strlit("u16");
            reveal_strlit("stack_offset");
            assert("u16"@ != "stack_offset"@);
            reveal_strlit(";");
            assert("u16"@ != ";"@);
            reveal_strlit(":");
            assert("u16"@ != ":"@);
            reveal_strlit("=");
            assert("u16"@ != "="@);
            reveal_strlit("{");
            assert("u16"@ != "{"@);
            reveal_strlit("}");
            assert("u16"@ != "}"@);
            reveal_strlit("(");
            assert("u16"@ != "("@);
            reveal_strlit(")");
            assert("u16"@ != ")"@);
            reveal_strlit("[");
            assert("u16"@ != "["@);
            reveal_strlit("]");
            assert("u16"@ != "]"@);
            reveal_strlit(",");
            assert("u16"@ != ","@);
            reveal_strlit(".");
            assert("u16"@ != "."@);
            reveal_strlit("cmp");
            lemma_words_differ("u16"@, "cmp"@, 0);
            reveal_strlit("bl");
            assert("u16"@ != "bl"@);
            reveal_strlit("stack");
            assert("u16"@ != "stack"@);
            reveal_strlit("reg");
            lemma_words_differ("u16"@, "reg"@, 0);
            reveal_strlit("asm");
            lemma_words_differ("u16"@, "asm"@, 0);
            reveal_strlit("i64");
            lemma_words_differ("u16"@, "i64"@, 0);
            reveal_strlit("i32");
            lemma_words_differ("u16"@, "i32"@, 0);
            reveal_strlit("i16");
            lemma_words_differ("u16"@, "i16"@, 0);
            reveal_strlit("i8");
            assert("u16"@ != "i8"@);
            reveal_strlit("u64");
            lemma_words_differ("u16"@, "u64"@, 1);
            reveal_strlit("u32");
            lemma_words_differ("u16"@, "u32"@, 1);
        },
        VariableType::U8 => {
            reveal_strlit("u8");
            reveal_strlit("stack_offset");
            assert("u8"@ != "stack_offset"@);
            reveal_strlit(";");
            assert("u8"@ != ";"@);
            reveal_strlit(":");
            assert("u8"@ != ":"@);
            reveal_strlit("=");
            assert("u8"@ != "="@);
            reveal_strlit("{");
            assert("u8"@ != "{"@);
            reveal_strlit("}");
            assert("u8"@ != "}"@);
            reveal_strlit("(");
            assert("u8"@ != "("@);
            reveal_strlit(")");
            assert("u8"@ != ")"@);
            reveal_strlit("[");
            assert("u8"@ != "["@);
            reveal_strlit("]");
            assert("u8"@ != "]"@);
            reveal_strlit(",");
            assert("u8"@ != ","@);
            reveal_strlit(".");
            assert("u8"@ != "."@);
            reveal_strlit("cmp");
            assert("u8"@ != "cmp"@);
            reveal_strlit("bl");
            lemma_words_differ("u8"@, "bl"@, 0);
            reveal_strlit("stack");
            assert("u8"@ != "stack"@);
            reveal_strlit("reg");
            assert("u8"@ != "reg"@);
            reveal_strlit("asm");
            assert("u8"@ != "asm"@);
            reveal_strlit("i64");
            assert("u8"@ != "i64"@);
            reveal_strlit("i32");
            assert("u8"@ != "i32"@);
            reveal_strlit("i16");
            assert("u8"@ != "i16"@);
            reveal_strlit("i8");
            lemma_words_differ("u8"@, "i8"@, 0);
            reveal_strlit("u64");
            assert("u8"@ != "u64"@);
            reveal_strlit("u32");
            assert("u8"@ != "u32"@);
            reveal_strlit("u16");
            assert("u8"@ != "u16"@);
        },
        VariableType::Void => {
            reveal_strlit("void");
            reveal_strlit("stack_offset");
            assert("void"@ != "stack_offset"@);
            reveal_strlit(";");
            assert("void"@ != ";"@);
            reveal_strlit(":");
            assert("void"@ != ":"@);
            reveal_strlit("=");
            assert("void"@ != "="@);
            reveal_strlit("{");
            assert("void"@ != "{"@);
            reveal_strlit("}");
            assert("void"@ != "}"@);
            reveal_strlit("(");
            assert("void"@ != "("@);
            reveal_strlit(")");
            assert("void"@ != ")"@);
            reveal_strlit("[");
            assert("void"@ != "["@);
            reveal_strlit("]");
            assert("void"@ != "]"@);
            reveal_strlit(",");
            assert("void"@ != ","@);
            reveal_strlit(".");
            assert("void"@ != "."@);
            reveal_strlit("cmp");
            assert("void"@ != "cmp"@);
            reveal_strlit("bl");
            assert("void"@ != "bl"@);
            reveal_strlit("stack");
            assert("void"@ != "stack"@);
            reveal_strlit("reg");
            assert("void"@ != "reg"@);
            reveal_strlit("asm");
            assert("void"@ != "asm"@);
            reveal_strlit("i64");
            assert("void"@ != "i64"@);
            reveal_strlit("i32");
            assert("void"@ != "i32"@);
            reveal_strlit("i16");
            assert("void"@ != "i16"@);
            reveal_strlit("i8");
            assert("void"@ != "i8"@);
            reveal_strlit("u64");
            assert("void"@ != "u64"@);
            reveal_strlit("u32");
            assert("void"@ != "u32"@);
            reveal_strlit("u16");
            assert("void"@ != "u16"@);
            reveal_strlit("u8");
            assert("void"@ != "u8"@);
        },
        _ => {},
    }
}

/// Every token of a run is lexical.
pub proof fn lemma_run_lexical(src: Seq<char>, pos: int, line: int, col: int)
    ensures
        forall|k: int| 0 <= k < lex_run(src, pos, line, col).0.len() ==> shape_lexical(
            #[trigger] lex_run(src, pos, line, col).0[k].shape,
        ),
    decreases src.len() - pos,
{
    if 0 <= pos <= src.len() && lex_step(src, pos).safe {
        let s = lex_step(src, pos);
        lemma_step_lexical(src, pos);
        if !(s.token is Some && s.shape() == TokenShape::Fixed(TokenType::EOF)) && !(s.end <= pos || s.end > src.len()) {
            lemma_run_lexical(src, s.end, step_line(src, pos, line), step_col(src, pos, col));
        }
    }
}

/// Law: a run that reaches the end of the source yields exactly one `EOF` token, as its last.
pub proof fn lemma_finished_run_ends_with_eof(src: Seq<char>, pos: int, line: int, col: int)
    ensures
        ({
            let run = lex_run(src, pos, line, col);
            run.1 ==> {
                &&& run.0.len() > 0
                &&& run.0.last().shape == TokenShape::Fixed(TokenType::EOF)
                &&& forall|i: int| 0 <= i < run.0.len() - 1 ==> (#[trigger] run.0[i]).shape != TokenShape::Fixed(TokenType::EOF)
            }
        }),
    decreases src.len() - pos,
{
    if 0 <= pos <= src.len() && lex_step(src, pos).safe {
        let s = lex_step(src, pos);
        let l2 = step_line(src, pos, line);
        let c2 = step_col(src, pos, col);
        if !(s.token is Some && s.shape() == TokenShape::Fixed(TokenType::EOF)) && !(s.end <= pos || s.end > src.len()) {
            lemma_finished_run_ends_with_eof(src, s.end, l2, c2);
            let rest = lex_run(src, s.end, l2, c2);
            let run = lex_run(src, pos, line, col);
            if rest.1 {
                let here: Seq<LexTok> = match s.token {
                    Some((sh, st, e)) => seq![LexTok { shape: sh, start: st, end: e, line: l2, col: c2 }],
                    None => seq![],
                };
                assert(run.0 == here + rest.0);
                assert forall|i: int| 0 <= i < run.0.len() - 1 implies (#[trigger] run.0[i]).shape != TokenShape::Fixed(TokenType::EOF) by {
                    if i < here.len() {
                        assert(run.0[i] == here[i]);
                    } else {
                        assert(run.0[i] == rest.0[i - here.len()]);
                    }
                }
            }
        }
    }
}

} // verus!

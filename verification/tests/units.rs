use byte_lang::datatypes::assembly_instructions::arm64::{
    allocate_stack_memory, create_scope, deallocate_stack_memory, destroy_scope, goto, jump_to_function,
    load_instruction_for_type, mov_num_to_reg, store_instruction_for_type, store_literal_to_stack, store_reg_to_stack,
    temp_reg_for_type, variable_to_reg, TempRegisters,
};
use byte_lang::datatypes::ast_statements::{
    ArrayType, BuiltInFunctionsAst, Expression, Format, Literal, MemoryLocationsAst, Statements, VariableType,
};
use byte_lang::datatypes::errors::ErrorKind;
use byte_lang::datatypes::general_functions::align_memory;
use byte_lang::datatypes::name_map::NameMap;
use byte_lang::datatypes::parser::Parser;
use byte_lang::datatypes::program_data::ProgramData;
use byte_lang::datatypes::semantic_analysis::fill_format;
use byte_lang::datatypes::token::{BuiltInFunctions, Identifiers, Keywords, Operators, Punctuations, Token, TokenType};
use byte_lang::datatypes::tokenizer::{classify, is_word_delimiter_char, single_char_token_kind, Tokenizer};

fn tokenize(src: &str) -> ProgramData {
    let mut pd = ProgramData::new();
    pd.source_code = src.to_string();
    let mut tokenizer = Tokenizer::new(pd);
    assert!(tokenizer.tokenize_all());
    tokenizer.program_data
}

#[test]
fn scratch_registers_follow_the_type_width() {
    assert_eq!(temp_reg_for_type(VariableType::I64, false, TempRegisters::T0), "x10");
    assert_eq!(temp_reg_for_type(VariableType::U64, true, TempRegisters::T1), "x11");
    assert_eq!(temp_reg_for_type(VariableType::I32, true, TempRegisters::T2), "x12");
    assert_eq!(temp_reg_for_type(VariableType::I32, false, TempRegisters::T2), "w12");
    assert_eq!(temp_reg_for_type(VariableType::U16, true, TempRegisters::T0), "w10");
}

#[test]
fn load_and_store_instructions() {
    let loads = [
        (VariableType::I8, "ldrsb"),
        (VariableType::I16, "ldrsh"),
        (VariableType::I32, "ldrsw"),
        (VariableType::I64, "ldr"),
        (VariableType::U8, "ldrb"),
        (VariableType::U16, "ldrh"),
        (VariableType::U32, "ldr"),
        (VariableType::U64, "ldr"),
    ];
    for (t, name) in loads {
        assert_eq!(load_instruction_for_type(t), name);
    }
    assert_eq!(store_instruction_for_type(VariableType::I8), "strb");
    assert_eq!(store_instruction_for_type(VariableType::U16), "strh");
    assert_eq!(store_instruction_for_type(VariableType::I32), "str");
    assert_eq!(store_instruction_for_type(VariableType::U64), "str");
}

#[test]
fn instruction_sequences() {
    assert_eq!(store_literal_to_stack(VariableType::I16, -3, 6), "mov w10, #-3\nstrh w10, [sp, #6]\n");
    assert_eq!(store_reg_to_stack("x3", 24, VariableType::U64), "str x3, [sp, #24]\n");
    assert_eq!(variable_to_reg("x0", 12, VariableType::I8), "ldrsb x0, [sp, #12]\n");
    assert_eq!(mov_num_to_reg("x2", 42), "mov x2, #42\n");
    assert_eq!(allocate_stack_memory(32), "sub sp, sp, #32\n");
    assert_eq!(deallocate_stack_memory(32), "add sp, sp, #32\n");
    assert_eq!(jump_to_function("main"), "bl _main\n");
    assert_eq!(goto("main_1"), "b _main_1\n");
}

#[test]
fn prologue_and_epilogue() {
    assert_eq!(create_scope(0), "str x30, [sp, #-16]!\n");
    assert_eq!(create_scope(48), "str x30, [sp, #-16]!\nsub sp, sp, #48\n");
    assert_eq!(destroy_scope(0), "ldr x30, [sp], #16\nret\n");
    assert_eq!(destroy_scope(48), "add sp, sp, #48\nldr x30, [sp], #16\nret\n");
}

#[test]
fn alignment_rounds_up() {
    assert_eq!(align_memory(0, 16), 0);
    assert_eq!(align_memory(1, 16), 16);
    assert_eq!(align_memory(16, 16), 16);
    assert_eq!(align_memory(17, 16), 32);
    assert_eq!(align_memory(53, 8), 56);
}

#[test]
fn error_messages_fill_their_placeholders() {
    let args = ["\"a\"".to_string(), "\"b\"".to_string(), "\"c\"".to_string()];
    assert_eq!(ErrorKind::InvalidToken.format_message(&args[..2]), "invalid token - expected \"a\", found \"b\"");
    assert_eq!(ErrorKind::ExpectedToken.format_message(&args[..1]), "invalid token - expected \"a\"");
    assert_eq!(ErrorKind::DuplicateDefinition.format_message(&args[..1]), "duplicate definition of \"a\"");
    assert_eq!(ErrorKind::InvalidType.format_message(&args[..2]), "invalid type - expected \"a\", found \"b\"");
    assert_eq!(ErrorKind::ExpectedStatement.format_message(&args[..1]), "expected \"a\"");
    assert_eq!(ErrorKind::UnknownIdentifier.format_message(&args[..1]), "unknown identifier \"a\"");
    assert_eq!(
        ErrorKind::ArgumentCountMismatch.format_message(&args),
        "argument count mismatch - expected \"a\", found \"b\" in call to \"c\""
    );
    assert_eq!(
        ErrorKind::VariableTypeMismatch.format_message(&args[..2]),
        "variable type mismatch - expected \"a\", found \"b\""
    );
    assert_eq!(ErrorKind::VariableTypeMismatchExpected.format_message(&args[..1]), "variable type mismatch - expected \"a\"");
    assert_eq!(ErrorKind::TypeInferenceNeeded.format_message(&args), "type annotations needed - cannot infer type");
    assert_eq!(ErrorKind::UnexpectedEof.template(), "unexpected end of file");
    assert_eq!(ErrorKind::VariableCannotBeVoid.template(), "variables cannot have type 'void'");
    assert_eq!(ErrorKind::Unknown.template(), "unknown error");
}

#[test]
fn placeholders_without_arguments_are_dropped() {
    assert_eq!(ErrorKind::InvalidToken.format_message(&["\"a\"".to_string()]), "invalid token - expected \"a\", found ");
    assert_eq!(ErrorKind::InvalidToken.format_message(&[]), "invalid token - expected , found ");
}

#[test]
fn format_fills_each_placeholder_in_turn() {
    let texts = vec!["8".to_string(), "16".to_string()];
    assert_eq!(fill_format("ldr x0, [sp, #{}]\nadd x0, x0, #{}\n", &texts), Some("ldr x0, [sp, #8]\nadd x0, x0, #16\n".to_string()));
    assert_eq!(fill_format("no placeholders", &Vec::new()), Some("no placeholders".to_string()));
}

#[test]
fn placeholders_left_over_are_kept() {
    assert_eq!(fill_format("{} and {}", &vec!["1".to_string()]), Some("1 and {}".to_string()));
}

#[test]
fn format_with_more_texts_than_placeholders_is_refused() {
    assert_eq!(fill_format("no placeholders", &vec!["8".to_string()]), None);
    assert_eq!(fill_format("{x}", &vec!["8".to_string()]), None);
}

#[test]
fn words_are_classified() {
    assert_eq!(classify("i64".to_string()), TokenType::Keyword(Keywords::VariableType(VariableType::I64)));
    assert_eq!(classify("void".to_string()), TokenType::Keyword(Keywords::VariableType(VariableType::Void)));
    assert_eq!(
        classify("array".to_string()),
        TokenType::Keyword(Keywords::VariableType(VariableType::Array(ArrayType::none())))
    );
    assert_eq!(classify("cmp".to_string()), TokenType::BuiltInFunction(BuiltInFunctions::Compare));
    assert_eq!(classify("compare".to_string()), TokenType::BuiltInFunction(BuiltInFunctions::Compare));
    assert_eq!(classify("bl".to_string()), TokenType::BuiltInFunction(BuiltInFunctions::BranchLinked));
    assert_eq!(classify("stack_offset".to_string()), TokenType::BuiltInFunction(BuiltInFunctions::StackOffset));
    assert_eq!(classify("=".to_string()), TokenType::Operator(Operators::Assignment));
    assert_eq!(classify(":".to_string()), TokenType::Punctuation(Punctuations::Colon));
    assert_eq!(classify("-17".to_string()), TokenType::Literal(Literal::Number(-17)));
    assert_eq!(classify("+17".to_string()), TokenType::Literal(Literal::Number(17)));
    assert_eq!(classify("9223372036854775808".to_string()), TokenType::Identifier(Identifiers::Identifier("9223372036854775808".to_string())));
    assert_eq!(classify("x1".to_string()), TokenType::Identifier(Identifiers::Identifier("x1".to_string())));
}

#[test]
fn delimiters_form_single_character_tokens() {
    for c in [';', '(', ')', ',', '[', ']', '{', '}'] {
        assert!(is_word_delimiter_char(c));
    }
    assert!(!is_word_delimiter_char('.'));
    assert!(!is_word_delimiter_char('a'));
    assert_eq!(single_char_token_kind(';'), TokenType::Punctuation(Punctuations::Semicolon));
    assert_eq!(single_char_token_kind('['), TokenType::Punctuation(Punctuations::OpenSquareBracket));
    assert_eq!(single_char_token_kind('.'), TokenType::Punctuation(Punctuations::Dot));
}

#[test]
fn tokens_of_a_small_program() {
    let pd = tokenize("void : main() {\n  i64 a = -5; // note //\n  u8 c = 'x';\n}\n");
    let kinds: Vec<&TokenType> = pd.tokens.iter().map(|t| &t.kind).collect();
    assert_eq!(
        kinds,
        vec![
            &TokenType::Keyword(Keywords::VariableType(VariableType::Void)),
            &TokenType::Punctuation(Punctuations::Colon),
            &TokenType::Identifier(Identifiers::Identifier("main".to_string())),
            &TokenType::Punctuation(Punctuations::OpenParenthesis),
            &TokenType::Punctuation(Punctuations::ClosedParenthesis),
            &TokenType::Punctuation(Punctuations::OpenBraces),
            &TokenType::Keyword(Keywords::VariableType(VariableType::I64)),
            &TokenType::Identifier(Identifiers::Identifier("a".to_string())),
            &TokenType::Operator(Operators::Assignment),
            &TokenType::Literal(Literal::Number(-5)),
            &TokenType::Punctuation(Punctuations::Semicolon),
            &TokenType::Keyword(Keywords::VariableType(VariableType::U8)),
            &TokenType::Identifier(Identifiers::Identifier("c".to_string())),
            &TokenType::Operator(Operators::Assignment),
            &TokenType::Literal(Literal::Number(120)),
            &TokenType::Punctuation(Punctuations::Semicolon),
            &TokenType::Punctuation(Punctuations::ClosedBraces),
            &TokenType::EOF,
        ]
    );
    let number = &pd.tokens[9];
    assert_eq!((number.line, number.col, number.start_pos, number.end_pos), (3, 13, 26, 28));
    let eof = pd.tokens.last().unwrap();
    assert_eq!((eof.line, eof.col, eof.start_pos, eof.end_pos), (9, 1, 57, 57));
}

#[test]
fn string_literals_keep_escapes() {
    let pd = tokenize("\"a\\nb\\\\c\\q\"");
    assert_eq!(pd.tokens[0].kind, TokenType::Literal(Literal::String("a\nb\\c ".to_string())));
    assert_eq!(pd.tokens[1].kind, TokenType::EOF);
}

#[test]
fn unterminated_comment_stops_the_tokenizer() {
    let mut pd = ProgramData::new();
    pd.source_code = "i64 a; // never closed".to_string();
    let mut tokenizer = Tokenizer::new(pd);
    assert!(!tokenizer.tokenize_all());
}

#[test]
fn parsing_stops_at_the_end_of_file_token() {
    let pd = tokenize("void : f() {\n}\nvoid : g() {\n}\n");
    let mut parser = Parser::new(pd, "main.byte");
    parser.parse_all();
    let statements = &parser.program_data.statements;
    assert_eq!(statements.len(), 2);
    assert!(matches!(statements[0].statement_type, Statements::FunctionDeclaration(_)));
    assert!(matches!(statements[1].statement_type, Statements::FunctionDeclaration(_)));
    assert!(parser.program_data.errors.is_empty());
}

#[test]
fn a_declaration_parses_to_one_statement() {
    let pd = tokenize("i64 x = 5;");
    let mut parser = Parser::new(pd, "main.byte");
    parser.parse_all();
    let statements = &parser.program_data.statements;
    assert_eq!(statements.len(), 1);
    assert!(parser.program_data.errors.is_empty());
    match &statements[0].statement_type {
        Statements::VariableDeclaration(d) => {
            assert_eq!(d.name, "x");
            assert!(matches!(d.variable_type, VariableType::I64));
            assert!(matches!(d.value, Some(Expression::Literal(Literal::Number(5)))));
        },
        _ => panic!("not a declaration"),
    }
}

#[test]
fn stack_arguments_are_packed_and_aligned() {
    let pd = tokenize("void : f(i64 a : [stack], u8 b : [stack], i32 c : [reg(x3)], u16 d : [stack]) {\n}\n");
    let mut parser = Parser::new(pd, "main.byte");
    parser.parse_all();
    let Statements::FunctionDeclaration(fd) = &parser.program_data.statements[0].statement_type else {
        panic!("not a function");
    };
    let locations: Vec<&MemoryLocationsAst> = fd.args.iter().map(|a| &a.memory_location).collect();
    assert_eq!(
        locations,
        vec![
            &MemoryLocationsAst::Stack(0),
            &MemoryLocationsAst::Stack(8),
            &MemoryLocationsAst::Register("x3".to_string()),
            &MemoryLocationsAst::Stack(9),
        ]
    );
    assert_eq!(fd.args_stack_mem_allocated, 16);
}

#[test]
fn name_map_keeps_insertion_order() {
    let mut m: NameMap<u32> = NameMap::new();
    m.insert("b".to_string(), 1);
    m.insert("a".to_string(), 2);
    m.insert("b".to_string(), 3);
    assert_eq!(m.len(), 2);
    assert_eq!(m.entries[0], ("b".to_string(), 3));
    assert_eq!(m.entries[1], ("a".to_string(), 2));
    assert_eq!(m.get("a"), Some(&2));
    assert_eq!(m.get("c"), None);
    assert!(m.contains_key("b"));
}

fn token(kind: TokenType) -> Token {
    Token { kind, line: 1, col: 0, start_pos: 0, end_pos: 0 }
}

#[test]
fn skipping_passes_an_end_of_file_token_to_reach_the_semicolon() {
    let mut pd = ProgramData::new();
    pd.tokens.push(token(TokenType::EOF));
    pd.tokens.push(token(TokenType::Punctuation(Punctuations::Semicolon)));
    let mut parser = Parser::new(pd, "main.byte");
    parser.skip_until_semicolon();
    assert_eq!(parser.position, 1);
}

#[test]
fn skipping_without_a_semicolon_stops_at_the_end() {
    let mut pd = ProgramData::new();
    pd.tokens.push(token(TokenType::Identifier(Identifiers::Identifier("a".to_string()))));
    pd.tokens.push(token(TokenType::EOF));
    let mut parser = Parser::new(pd, "main.byte");
    parser.skip_until_semicolon();
    assert_eq!(parser.position, 2);
}

#[test]
fn format_of_literals_needs_no_program() {
    let f = BuiltInFunctionsAst::Format(Format {
        string: "a{}b{}".to_string(),
        args_provided: vec![Expression::Literal(Literal::Number(5)), Expression::Literal(Literal::String("x".to_string()))],
    });
    match f.parse(&ProgramData::new(), 0) {
        Some(Literal::String(text)) => assert_eq!(text, "a5bx"),
        _ => panic!("format of literals did not evaluate"),
    }
}

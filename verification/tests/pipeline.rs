use byte_lang::datatypes::ast_statements::Statements;
use byte_lang::datatypes::code_generator::CodeGenerator;
use byte_lang::datatypes::parser::Parser;
use byte_lang::datatypes::program_data::ProgramData;
use byte_lang::datatypes::scope_analysis::ScopeAnalysis;
use byte_lang::datatypes::semantic_analysis::SemanticAnaytis;
use byte_lang::datatypes::tokenizer::Tokenizer;

/// Runs every pass on `src`; the assembly comes back when no pass reported an error.
fn compile(src: &str) -> (ProgramData, Option<String>) {
    let mut pd = ProgramData::new();
    pd.source_code = src.to_string();
    let mut tokenizer = Tokenizer::new(pd);
    assert!(tokenizer.tokenize_all());
    let mut parser = Parser::new(tokenizer.program_data, "main.byte");
    parser.parse_all();
    let pd = parser.program_data;
    if !pd.errors.is_empty() {
        return (pd, None);
    }
    for st in pd.statements.iter() {
        match st.statement_type {
            Statements::FunctionDeclaration(_) => {},
            _ => panic!("not a function at the top level"),
        }
    }
    let mut scopes = ScopeAnalysis::new(pd);
    scopes.process_all();
    let mut pd = scopes.program_data;
    if !pd.errors.is_empty() {
        return (pd, None);
    }
    assert!(pd.assign_function_stack_memory());
    let mut semantic = SemanticAnaytis::new(pd);
    semantic.process_all_functions();
    let pd = semantic.program_data;
    if !pd.errors.is_empty() {
        return (pd, None);
    }
    let mut generator = CodeGenerator::new(pd);
    assert!(generator.emittable());
    generator.process_all_functions();
    let assembly = generator.process_labels();
    (generator.program_data, Some(assembly))
}

#[test]
fn simple_function_compiles() {
    let (pd, assembly) = compile("void : main() {\n    i64 a = 5;\n    i32 b = 7;\n    a = 10;\n}\n");
    println!("errors: {:?}", pd.errors);
    assert!(pd.errors.is_empty());
    assert_eq!(
        assembly.unwrap(),
        "_main:\nstr x30, [sp, #-16]!\nsub sp, sp, #16\nmov x10, #5\nstr x10, [sp, #8]\nmov w10, #7\n\
         str w10, [sp, #4]\nmov x10, #10\nstr x10, [sp, #8]\nadd sp, sp, #16\nldr x30, [sp], #16\nret\n\n"
    );
}

const README_EXAMPLE: &str = "// Just an example that does literally nothing just for testing //
void : term(i64 exit_code : [reg(x0)]) {
    i32 var = 10;

    asm(format(\"mov x1, #{}\\nmov x16, #1\\nsvc #0x80\\n\", stack_offset(var)));
}

void : test(i64 test_var : [stack], i64 test_var_two : [stack]) {
    test_var = 15;

    i64 test_variable_init = test_var;
}

void : main() {
    i64 var = 5;
    i16 var2 = 2;
    i8 var3 = 1;
    i64 exit_code = 30;
    i64 exit_code_clone = exit_code;
    u64 test = 5;
    u64 test2 = 10;
    u8 something = 30;
    u8 something_clone = something;
    i64 exit_code_success = 0;

    cmp(test2, test) {
        .ne {
            i64 test_integer = var;

            test_integer = 10;

            bl(term, 0);
        }
        .eq {
            bl(term, 1);
        }
    }

    exit_code_success = 1;

    bl(test, var, exit_code_clone);
    
    bl(term, exit_code_success);
}
";

#[test]
fn readme_example_compiles() {
    let (pd, assembly) = compile(README_EXAMPLE);
    assert!(pd.errors.is_empty());
    assert_eq!(assembly.unwrap(), README_ASSEMBLY);
}

const README_ASSEMBLY: &str = "_term:\nstr x30, [sp, #-16]!\nsub sp, sp, #16\nmov w10, #10\nstr w10, [sp, #12]\n\
mov x1, #12\nmov x16, #1\nsvc #0x80\nadd sp, sp, #16\nldr x30, [sp], #16\nret\n\n\
_test:\nstr x30, [sp, #-16]!\nsub sp, sp, #16\nmov x10, #15\nstr x10, [sp, #40]\nldr x10, [sp, #40]\n\
str x10, [sp, #8]\nadd sp, sp, #16\nldr x30, [sp], #16\nret\n\n\
_main:\nstr x30, [sp, #-16]!\nsub sp, sp, #64\nmov x10, #5\nstr x10, [sp, #56]\nmov w10, #2\n\
strh w10, [sp, #54]\nmov w10, #1\nstrb w10, [sp, #53]\nmov x10, #30\nstr x10, [sp, #45]\n\
ldr x10, [sp, #45]\nstr x10, [sp, #37]\nmov x10, #5\nstr x10, [sp, #29]\nmov x10, #10\n\
str x10, [sp, #21]\nmov w10, #30\nstrb w10, [sp, #20]\nldrb w10, [sp, #20]\nstrb w10, [sp, #19]\n\
mov x10, #0\nstr x10, [sp, #11]\nldr x10, [sp, #21]\nldr x11, [sp, #29]\ncmp x10, x11\nb.ne _3\n\
b.eq _4\nb _main_1\n_main_1:\nmov x10, #1\nstr x10, [sp, #11]\nsub sp, sp, #16\nldr x10, [sp, #72]\n\
str x10, [sp, #8]\nldr x10, [sp, #53]\nstr x10, [sp, #0]\nbl _test\nadd sp, sp, #16\n\
ldr x0, [sp, #11]\nbl _term\nadd sp, sp, #64\nldr x30, [sp], #16\nret\n\n\
_3:\nldr x10, [sp, #56]\nstr x10, [sp, #3]\nmov x10, #10\nstr x10, [sp, #3]\nmov x0, #0\nbl _term\n\
b _main_1\n\n\
_4:\nmov x0, #1\nbl _term\nb _main_1\n\n";

fn errors_of(src: &str) -> Vec<String> {
    let (pd, assembly) = compile(src);
    assert!(assembly.is_none());
    pd.errors
}

#[test]
fn array_literals_fill_consecutive_slots() {
    let (_, assembly) = compile("void : main() {\n    array[u8, 3] bytes = [1, 2, 3];\n    array[i16, 2] text = \"ab\";\n}\n");
    assert_eq!(
        assembly.unwrap(),
        "_main:\nstr x30, [sp, #-16]!\nsub sp, sp, #16\nmov w10, #1\nstrb w10, [sp, #13]\nmov w10, #2\n\
         strb w10, [sp, #14]\nmov w10, #3\nstrb w10, [sp, #15]\nmov w10, #97\nstrh w10, [sp, #9]\n\
         mov w10, #98\nstrh w10, [sp, #11]\nadd sp, sp, #16\nldr x30, [sp], #16\nret\n\n"
    );
}

#[test]
fn compares_of_numbers_are_decided_at_compile_time() {
    let (_, assembly) = compile(
        "void : main() {\n    i64 a = 3;\n    cmp(1, 1) {\n        .ne { a = 1; }\n        .eq { a = 2; }\n    }\n\
         cmp(2, a) {\n        .eq { a = 4; }\n    }\n}\n",
    );
    assert_eq!(
        assembly.unwrap(),
        "_main:\nstr x30, [sp, #-16]!\nsub sp, sp, #16\nmov x10, #3\nstr x10, [sp, #8]\nbl _2\n\
         ldr x10, [sp, #8]\ncmp x10, #2\nb.eq _3\nb _main_2\n_main_2:\nadd sp, sp, #16\nldr x30, [sp], #16\nret\n\n\
         _1:\nmov x10, #1\nstr x10, [sp, #8]\nb _main_1\n\n\
         _2:\nmov x10, #2\nstr x10, [sp, #8]\nb _main_1\n\n\
         _3:\nmov x10, #4\nstr x10, [sp, #8]\nb _main_2\n\n"
    );
}

#[test]
fn stack_offset_fills_a_format_template() {
    let (_, assembly) = compile("void : main() {\n    i64 a = 3;\n    asm(format(\"mov x0, #{}\\n\", stack_offset(a)));\n}\n");
    assert_eq!(
        assembly.unwrap(),
        "_main:\nstr x30, [sp, #-16]!\nsub sp, sp, #16\nmov x10, #3\nstr x10, [sp, #8]\nmov x0, #8\n\
         add sp, sp, #16\nldr x30, [sp], #16\nret\n\n"
    );
}

#[test]
fn missing_semicolon_is_an_invalid_token() {
    assert_eq!(
        errors_of("void : main() {\n    i64 a = 3\n}\n"),
        vec!["invalid token - expected Punctuation(Semicolon), found Punctuation(ClosedBraces)".to_string()]
    );
}

#[test]
fn duplicate_variable_is_reported() {
    assert_eq!(errors_of("void : main() {\n    i64 a = 3;\n    i64 a = 4;\n}\n"), vec!["Duplicate variable: a".to_string()]);
}

#[test]
fn unknown_variable_is_reported() {
    assert_eq!(errors_of("void : main() {\n    b = 3;\n}\n"), vec!["unknown identifier \"b\"".to_string()]);
}

#[test]
fn unknown_function_is_reported() {
    assert_eq!(errors_of("void : main() {\n    bl(nothing, 1);\n}\n"), vec!["unknown identifier \"nothing\"".to_string()]);
}

#[test]
fn call_with_too_few_arguments_is_reported() {
    assert_eq!(
        errors_of("void : f(i64 x : [reg(x0)]) {\n}\nvoid : main() {\n    bl(f);\n}\n"),
        vec!["argument count mismatch - expected \"1\", found \"0\" in call to \"f\"".to_string()]
    );
}

#[test]
fn narrowing_initialisation_is_a_type_mismatch() {
    assert_eq!(
        errors_of("void : main() {\n    i64 a = 3;\n    u8 b = a;\n}\n"),
        vec!["variable type mismatch - expected \"u8\"".to_string()]
    );
}

#[test]
fn void_variable_is_refused() {
    assert_eq!(errors_of("void : main() {\n    void a = 3;\n}\n"), vec!["variables cannot have type 'void'".to_string()]);
}

#[test]
fn every_function_gets_a_label() {
    let (pd, assembly) = compile("void : b() {\n}\nvoid : a() {\n}\nvoid : main() {\n    bl(a);\n    bl(b);\n}\n");
    assert!(pd.errors.is_empty());
    let assembly = assembly.unwrap();
    for name in ["_a:\n", "_b:\n", "_main:\n"] {
        assert!(assembly.contains(name));
    }
    assert_eq!(
        assembly,
        "_b:\nstr x30, [sp, #-16]!\nldr x30, [sp], #16\nret\n\n_a:\nstr x30, [sp, #-16]!\nldr x30, [sp], #16\nret\n\n\
         _main:\nstr x30, [sp, #-16]!\nbl _a\nbl _b\nldr x30, [sp], #16\nret\n\n"
    );
}

#[test]
fn stray_token_is_an_unknown_error() {
    assert_eq!(errors_of("5;\nvoid : main() {\n}\n"), vec!["unknown error".to_string()]);
}

#[test]
fn parsing_resumes_after_a_stray_token() {
    let mut pd = ProgramData::new();
    pd.source_code = "5;\nvoid : main() {\n}\n".to_string();
    let mut tokenizer = Tokenizer::new(pd);
    assert!(tokenizer.tokenize_all());
    let mut parser = Parser::new(tokenizer.program_data, "main.byte");
    parser.parse_all();
    let statements = &parser.program_data.statements;
    assert_eq!(statements.len(), 1);
    assert!(matches!(statements[0].statement_type, Statements::FunctionDeclaration(_)));
}

#[test]
fn function_body_is_filed_in_its_scope() {
    let mut pd = ProgramData::new();
    pd.source_code = "void : main() {\n    i64 a = 3;\n    a = 4;\n}\n".to_string();
    let mut tokenizer = Tokenizer::new(pd);
    assert!(tokenizer.tokenize_all());
    let mut parser = Parser::new(tokenizer.program_data, "main.byte");
    parser.parse_all();
    let mut scopes = ScopeAnalysis::new(parser.program_data);
    scopes.process_all();
    let pd = scopes.program_data;
    assert!(pd.errors.is_empty());
    assert_eq!(pd.scopes.len(), 1);
    let body = &pd.scopes[0].statements;
    assert_eq!(body.len(), 2);
    assert!(matches!(body[0].statement_type, Statements::VariableDeclaration(_)));
    assert!(matches!(body[1].statement_type, Statements::Assignment(_)));
}

#[test]
fn variables_are_packed_in_declaration_order() {
    let mut pd = ProgramData::new();
    pd.source_code = "void : main() {\n    i64 a = 1;\n    u8 b = 2;\n    i32 c = 3;\n}\n".to_string();
    let mut tokenizer = Tokenizer::new(pd);
    assert!(tokenizer.tokenize_all());
    let mut parser = Parser::new(tokenizer.program_data, "main.byte");
    parser.parse_all();
    let mut scopes = ScopeAnalysis::new(parser.program_data);
    scopes.process_all();
    let pd = scopes.program_data;
    assert!(pd.errors.is_empty());
    let vars = &pd.scopes[0].variables.entries;
    assert_eq!(vars.len(), 3);
    assert_eq!((vars[0].0.as_str(), vars[0].1.offset, vars[0].1.variable_size), ("a", 0, 8));
    assert_eq!((vars[1].0.as_str(), vars[1].1.offset, vars[1].1.variable_size), ("b", 8, 1));
    assert_eq!((vars[2].0.as_str(), vars[2].1.offset, vars[2].1.variable_size), ("c", 9, 4));
    assert_eq!(pd.scopes[0].stack_mem_allocated, 13);
}

//! Error kinds and their message templates.
use vstd::prelude::*;
use crate::text::{chars_of, push_char, push_str};

verus! {

#[derive(Clone, Copy, Debug, PartialEq, Eq, Structural)]
pub enum ErrorKind {
    TypeInferenceNeeded,
    InvalidToken,
    UnexpectedEof,
    DuplicateDefinition,
    InvalidType,
    VariableCannotBeVoid,
    ExpectedToken,
    ExpectedStatement,
    UnknownIdentifier,
    ArgumentCountMismatch,
    VariableTypeMismatch,
    VariableTypeMismatchExpected,
    Unknown,
}

/// Replaces each `{}` of `template`, left to right, by the next argument; a `{}` left
/// without an argument is dropped, and arguments left without a `{}` are ignored.
pub open spec fn fill_template(template: Seq<char>, args: Seq<Seq<char>>) -> Seq<char>
    decreases template.len(),
{
    if template.len() == 0 {
        seq![]
    } else if template.len() >= 2 && template[0] == '{' && template[1] == '}' {
        if args.len() > 0 {
            args[0] + fill_template(template.skip(2), args.drop_first())
        } else {
            fill_template(template.skip(2), args)
        }
    } else {
        seq![template[0]] + fill_template(template.skip(1), args)
    }
}

/// The characters of each argument.
pub open spec fn arg_texts(args: Seq<String>) -> Seq<Seq<char>> {
    args.map_values(|a: String| a@)
}

impl ErrorKind {
    pub open spec fn spec_template(&self) -> Seq<char> {
        match self {
            ErrorKind::TypeInferenceNeeded => "type annotations needed - cannot infer type"@,
            ErrorKind::InvalidToken => "invalid token - expected {}, found {}"@,
            ErrorKind::UnexpectedEof => "unexpected end of file"@,
            ErrorKind::DuplicateDefinition => "duplicate definition of {}"@,
            ErrorKind::InvalidType => "invalid type - expected {}, found {}"@,
            ErrorKind::VariableCannotBeVoid => "variables cannot have type 'void'"@,
            ErrorKind::ExpectedToken => "invalid token - expected {}"@,
            ErrorKind::ExpectedStatement => "expected {}"@,
            ErrorKind::UnknownIdentifier => "unknown identifier {}"@,
            ErrorKind::ArgumentCountMismatch => "argument count mismatch - expected {}, found {} in call to {}"@,
            ErrorKind::VariableTypeMismatch => "variable type mismatch - expected {}, found {}"@,
            ErrorKind::VariableTypeMismatchExpected => "variable type mismatch - expected {}"@,
            ErrorKind::Unknown => "unknown error"@,
        }
    }

    /// The message template of this error kind; `{}` marks where an argument goes.
    pub fn template(&self) -> (r: &'static str)
        ensures
            r@ == self.spec_template(),
    {
        match self {
            ErrorKind::TypeInferenceNeeded => "type annotations needed - cannot infer type",
            ErrorKind::InvalidToken => "invalid token - expected {}, found {}",
            ErrorKind::UnexpectedEof => "unexpected end of file",
            ErrorKind::DuplicateDefinition => "duplicate definition of {}",
            ErrorKind::InvalidType => "invalid type - expected {}, found {}",
            ErrorKind::VariableCannotBeVoid => "variables cannot have type 'void'",
            ErrorKind::ExpectedToken => "invalid token - expected {}",
            ErrorKind::ExpectedStatement => "expected {}",
            ErrorKind::UnknownIdentifier => "unknown identifier {}",
            ErrorKind::ArgumentCountMismatch => "argument count mismatch - expected {}, found {} in call to {}",
            ErrorKind::VariableTypeMismatch => "variable type mismatch - expected {}, found {}",
            ErrorKind::VariableTypeMismatchExpected => "variable type mismatch - expected {}",
            ErrorKind::Unknown => "unknown error",
        }
    }

    /// The message with the template's placeholders filled by `args` (each already rendered
    /// as `{:?}` renders it).
    pub fn format_message(&self, args: &[String]) -> (r: String)
        ensures
            r@ == fill_template(self.spec_template(), arg_texts(args@)),
    {
        let t = chars_of(self.template());
        let ghost full = t@;
        let ghost all_args = arg_texts(args@);
        let mut result = String::new();
        let mut i: usize = 0;
        let mut k: usize = 0;
        assert(t@.skip(0) == t@);
        assert(all_args.skip(0) == all_args);
        while i < t.len()
            invariant
                i <= t.len(),
                k <= args.len(),
                t@ == full,
                all_args == arg_texts(args@),
                result@ + fill_template(full.skip(i as int), all_args.skip(k as int))
                    == fill_template(full, all_args),
            decreases t.len() - i,
        {
            let ghost rest = full.skip(i as int);
            let ghost rargs = all_args.skip(k as int);
            if i + 1 < t.len() && t[i] == '{' && t[i + 1] == '}' {
                assert(rest[0] == '{' && rest[1] == '}');
                assert(rest.skip(2) == full.skip(i + 2));
                if k < args.len() {
                    assert(rargs.len() > 0);
                    assert(rargs[0] == args@[k as int]@);
                    assert(rargs.drop_first() == all_args.skip(k + 1));
                    push_str(&mut result, args[k].as_str());
                    k = k + 1;
                } else {
                    assert(rargs.len() == 0);
                }
                i = i + 2;
            } else {
                assert(rest[0] == t@[i as int]);
                assert(rest.skip(1) == full.skip(i + 1));
                push_char(&mut result, t[i]);
                i = i + 1;
            }
        }
        assert(full.skip(i as int).len() == 0);
        result
    }
}

} // verus!

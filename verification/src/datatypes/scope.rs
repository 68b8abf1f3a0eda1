//! Scopes: the variables a block declares and the statements it holds.
use vstd::prelude::*;
use crate::datatypes::ast_statements::{CgStatement, Statement, VariableType};
use crate::datatypes::name_map::NameMap;

verus! {

/// Marks a scope that has no parent: the outermost scope of a function.
pub const NO_PARENT: usize = usize::MAX;

#[derive(Debug, PartialEq)]
pub struct StackVariable {
    pub variable_type: VariableType,
    pub variable_size: usize,
    pub offset: usize,
}

impl StackVariable {
    /// A copy of this variable.
    pub fn duplicate(&self) -> (r: Self)
        ensures
            r == *self,
    {
        StackVariable {
            variable_type: self.variable_type.duplicate(),
            variable_size: self.variable_size,
            offset: self.offset,
        }
    }
}

#[derive(Debug, PartialEq)]
pub struct Scope {
    pub variables: NameMap<StackVariable>,
    pub stack_mem_allocated: usize,
    pub statements: Vec<Statement>,
    pub cg_statements: Vec<CgStatement>,
    pub children: Vec<usize>,
    pub parent: usize,
    pub function: String,
}

impl Scope {
    /// An empty scope nested in `parent`, inside the function `function_name`.
    pub fn new(parent: usize, function_name: String) -> (r: Self)
        ensures
            r.variables.entries@.len() == 0,
            r.stack_mem_allocated == 0,
            r.statements@.len() == 0,
            r.cg_statements@.len() == 0,
            r.children@.len() == 0,
            r.parent == parent,
            r.function@ == function_name@,
    {
        Scope {
            variables: NameMap::new(),
            stack_mem_allocated: 0,
            statements: Vec::new(),
            cg_statements: Vec::new(),
            children: Vec::new(),
            parent,
            function: function_name,
        }
    }

    /// An empty outermost scope of the function `function_name`.
    pub fn default(function_name: String) -> (r: Self)
        ensures
            r.variables.entries@.len() == 0,
            r.stack_mem_allocated == 0,
            r.statements@.len() == 0,
            r.cg_statements@.len() == 0,
            r.children@.len() == 0,
            r.parent == NO_PARENT,
            r.function@ == function_name@,
    {
        Self::new(NO_PARENT, function_name)
    }
}

} // verus!

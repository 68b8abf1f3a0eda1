//! Everything the passes share: tokens, statements, scopes, functions and errors.
use vstd::prelude::*;
use crate::datatypes::ast_statements::{Function, FunctionArg, MemoryLocationsAst, Statement};
use crate::datatypes::general_functions::{align_memory, spec_align};
use crate::datatypes::name_map::NameMap;
use crate::datatypes::scope::{NO_PARENT, Scope, StackVariable};
use crate::datatypes::token::Token;
use crate::text::str_eq;

verus! {

#[derive(Debug, PartialEq)]
pub struct StackVariableRef {
    pub local_offset: usize,
    pub var: StackVariable,
}

#[derive(Debug, PartialEq)]
pub struct FunctionStackArgRef {
    pub local_offset: usize,
    pub var: FunctionArg,
}

#[derive(Debug, PartialEq)]
pub struct ProgramData {
    pub scopes: Vec<Scope>,
    pub functions: NameMap<Function>,
    pub statements: Vec<Statement>,
    pub source_codes: NameMap<String>,
    pub source_code: String,
    pub tokens: Vec<Token>,
    pub errors: Vec<String>,
}

// ---------------------------------------------------------------------------
// The memory a scope needs: its own variables plus the largest need of a child.
// ---------------------------------------------------------------------------

/// Bytes scope `i` needs: its own allocation plus the most any one child needs
/// (sibling scopes never live at the same time, so they share memory).
pub open spec fn needed(scopes: Seq<Scope>, i: int) -> nat
    decreases scopes.len() - i, scopes[i].children@.len() + 1,
{
    if 0 <= i < scopes.len() {
        children_needed(scopes, i, scopes[i].children@.len() as int) + (scopes[i].stack_mem_allocated as nat)
    } else {
        0
    }
}

/// The most any of the first `k` children of scope `i` needs.
pub open spec fn children_needed(scopes: Seq<Scope>, i: int, k: int) -> nat
    decreases scopes.len() - i, k,
{
    if 0 <= i < scopes.len() && 0 < k <= scopes[i].children@.len() {
        let c = scopes[i].children@[k - 1] as int;
        let rest = children_needed(scopes, i, k - 1);
        let here = if i < c < scopes.len() {
            needed(scopes, c)
        } else {
            0
        };
        if here > rest {
            here
        } else {
            rest
        }
    } else {
        0
    }
}

pub proof fn lemma_children_needed_bound(scopes: Seq<Scope>, i: int, k: int, m: int)
    requires
        0 <= i < scopes.len(),
        0 <= m < k <= scopes[i].children@.len(),
        i < scopes[i].children@[m] < scopes.len(),
    ensures
        needed(scopes, scopes[i].children@[m] as int) <= children_needed(scopes, i, k),
    decreases k,
{
    if m < k - 1 {
        lemma_children_needed_bound(scopes, i, k - 1, m);
    }
}

/// The first argument named `name` at or after position `from`.
pub open spec fn find_arg(args: Seq<FunctionArg>, name: Seq<char>, from: int) -> Option<int>
    decreases args.len() - from,
{
    if from < 0 || from >= args.len() {
        None
    } else if args[from].arg_name@ == name {
        Some(from)
    } else {
        find_arg(args, name, from + 1)
    }
}

/// Where a stack argument lives, counted in bytes above `sp` inside the callee: above the
/// callee's frame and the saved link register, laid out from the top of the argument area down.
pub open spec fn arg_local_offset(f: Function, arg: FunctionArg) -> int {
    f.arg_stack_mem_allocated + f.stack_mem_allocated + 16 - arg.memory_location->Stack_0
        - arg.arg_var_type.spec_size()
}

/// Stack arguments keep apart inside the callee: two stack parameters whose bytes do not
/// overlap in the argument area are read from slots that do not overlap, in the reverse
/// order, both above the callee's frame and its 16 saved bytes and below the top of the area.
pub proof fn lemma_stack_args_apart(f: Function, p: FunctionArg, q: FunctionArg)
    requires
        p.memory_location is Stack,
        q.memory_location is Stack,
        p.memory_location->Stack_0 + p.arg_var_type.spec_size() <= q.memory_location->Stack_0,
        q.memory_location->Stack_0 + q.arg_var_type.spec_size() <= f.arg_stack_mem_allocated,
    ensures
        arg_local_offset(f, q) + q.arg_var_type.spec_size() <= arg_local_offset(f, p),
        f.stack_mem_allocated + 16 <= arg_local_offset(f, q),
        arg_local_offset(f, p) + p.arg_var_type.spec_size() <= f.arg_stack_mem_allocated + f.stack_mem_allocated + 16,
{
}

/// The stack arguments fit the argument area, and the frame, the saved link register and
/// the argument area fit in the address space.
pub open spec fn frame_fits(f: Function, frame: nat) -> bool {
    &&& f.arg_stack_mem_allocated + frame + 16 <= usize::MAX
    &&& forall|a: int|
        0 <= a < f.args@.len() ==> (#[trigger] f.args@[a]).memory_location is Stack ==> {
            &&& f.args@[a].arg_var_type.size_fits()
            &&& f.args@[a].memory_location->Stack_0 + f.args@[a].arg_var_type.spec_size()
                <= f.arg_stack_mem_allocated
        }
}

/// The frame a function gets: what its outermost scope needs, rounded up to 16 bytes.
pub open spec fn frame_size(scopes: Seq<Scope>, f: Function) -> nat {
    spec_align(needed(scopes, f.first_scope as int), 16)
}

impl ProgramData {
    pub fn new() -> (r: Self)
        ensures
            r.scopes@.len() == 0,
            r.functions.entries@.len() == 0,
            r.statements@.len() == 0,
            r.source_codes.entries@.len() == 0,
            r.source_code@.len() == 0,
            r.tokens@.len() == 0,
            r.errors@.len() == 0,
            r.tree_wf(),
    {
        let r = ProgramData {
            scopes: Vec::new(),
            functions: NameMap::new(),
            source_codes: NameMap::new(),
            source_code: String::new(),
            tokens: Vec::new(),
            statements: Vec::new(),
            errors: Vec::new(),
        };
        proof {
            reveal(ProgramData::tree_wf);
        }
        r
    }

    pub open spec fn scope_at(&self, i: int) -> Scope {
        self.scopes@[i]
    }

    /// The function that scope `i` belongs to.
    pub open spec fn function_of(&self, i: int) -> Function {
        self.functions.lookup(self.scopes@[i].function@)->0
    }

    /// The scopes form a forest, one tree per function, rooted at the function's first scope.
    #[verifier::opaque]
    pub open spec fn tree_wf(&self) -> bool {
        let n = self.scopes@.len();
        &&& self.functions.wf()
        &&& forall|i: int| 0 <= i < n ==> (#[trigger] self.scopes@[i]).variables.wf()
        &&& forall|i: int| 0 <= i < n ==> self.functions.contains((#[trigger] self.scopes@[i]).function@)
        &&& forall|i: int|
            0 <= i < n && (#[trigger] self.scopes@[i]).parent != NO_PARENT ==> {
                &&& self.scopes@[i].parent < i
                &&& self.scopes@[self.scopes@[i].parent as int].children@.contains(i as usize)
                &&& self.scopes@[i].function@ == self.scopes@[self.scopes@[i].parent as int].function@
            }
        &&& forall|i: int, k: int|
            0 <= i < n && 0 <= k < self.scopes@[i].children@.len() ==> {
                &&& i < #[trigger] self.scopes@[i].children@[k] < n
                &&& self.scopes@[self.scopes@[i].children@[k] as int].parent == i
            }
        &&& forall|i: int|
            0 <= i < n && (#[trigger] self.scopes@[i]).parent == NO_PARENT
                ==> self.functions.lookup(self.scopes@[i].function@)->0.first_scope == i
        &&& forall|j: int|
            0 <= j < self.functions.entries@.len() ==> {
                &&& (#[trigger] self.functions.value_at(j)).first_scope < n
                &&& self.scopes@[self.functions.value_at(j).first_scope as int].parent == NO_PARENT
                &&& self.scopes@[self.functions.value_at(j).first_scope as int].function@
                    == self.functions.key_at(j)
            }
    }

    /// Within each scope, variables occupy consecutive, non-overlapping slots (in
    /// declaration order) inside the scope's allocation.
    #[verifier::opaque]
    pub open spec fn vars_wf(&self) -> bool {
        forall|i: int, k: int|
            0 <= i < self.scopes@.len() && 0 <= k < self.scopes@[i].variables.entries@.len()
                ==> {
                let v = #[trigger] self.scopes@[i].variables.value_at(k);
                &&& v.variable_type.size_fits()
                &&& v.variable_size == v.variable_type.spec_size()
                &&& v.offset + v.variable_size <= self.scopes@[i].stack_mem_allocated
                &&& forall|k2: int|
                    k < k2 < self.scopes@[i].variables.entries@.len() ==> v.offset + v.variable_size
                        <= (#[trigger] self.scopes@[i].variables.value_at(k2)).offset
            }
    }

    /// Bytes allocated by the strict ancestors of scope `i`.
    pub open spec fn ancestors_alloc(&self, i: int) -> nat
        decreases i,
    {
        if 0 <= i < self.scopes@.len() && self.scopes@[i].parent != NO_PARENT
            && self.scopes@[i].parent < i {
            (self.scopes@[self.scopes@[i].parent as int].stack_mem_allocated as nat) + self.ancestors_alloc(
                self.scopes@[i].parent as int,
            )
        } else {
            0
        }
    }

    /// Each function's frame holds every scope of the function together with its ancestors,
    /// and the frame, the saved link register and the stack arguments fit in the address space.
    #[verifier::opaque]
    pub open spec fn frames_wf(&self) -> bool {
        &&& forall|i: int|
            0 <= i < self.scopes@.len() ==> #[trigger] self.ancestors_alloc(i)
                + self.scopes@[i].stack_mem_allocated <= self.function_of(i).stack_mem_allocated
        &&& forall|j: int|
            0 <= j < self.functions.entries@.len() ==> (#[trigger] self.functions.value_at(j)).arg_stack_mem_allocated
                + self.functions.value_at(j).stack_mem_allocated + 16 <= usize::MAX
        &&& forall|j: int, a: int|
            0 <= j < self.functions.entries@.len() && 0 <= a < self.functions.value_at(j).args@.len() ==> {
                let arg = #[trigger] self.functions.value_at(j).args@[a];
                arg.memory_location is Stack ==> {
                    &&& arg.arg_var_type.size_fits()
                    &&& arg.memory_location->Stack_0 + arg.arg_var_type.spec_size()
                        <= self.functions.value_at(j).arg_stack_mem_allocated
                }
            }
    }

    /// What the forest shape says about scope `i`.
    pub proof fn lemma_tree_scope(&self, i: int)
        requires
            self.tree_wf(),
            0 <= i < self.scopes@.len(),
        ensures
            self.functions.wf(),
            self.scopes@[i].variables.wf(),
            self.functions.contains(self.scopes@[i].function@),
            self.scopes@[i].parent != NO_PARENT ==> {
                &&& self.scopes@[i].parent < i
                &&& self.scopes@[self.scopes@[i].parent as int].children@.contains(i as usize)
                &&& self.scopes@[i].function@ == self.scopes@[self.scopes@[i].parent as int].function@
            },
            self.scopes@[i].parent == NO_PARENT ==> self.function_of(i).first_scope == i,
            forall|k: int|
                0 <= k < self.scopes@[i].children@.len() ==> {
                    &&& i < #[trigger] self.scopes@[i].children@[k] < self.scopes@.len()
                    &&& self.scopes@[self.scopes@[i].children@[k] as int].parent == i
                },
    {
        reveal(ProgramData::tree_wf);
        let _ = self.scopes@[i];
    }

    /// What the forest shape says about the `j`-th function.
    pub proof fn lemma_tree_function(&self, j: int)
        requires
            self.tree_wf(),
            0 <= j < self.functions.entries@.len(),
        ensures
            self.functions.wf(),
            self.functions.value_at(j).first_scope < self.scopes@.len(),
            self.scopes@[self.functions.value_at(j).first_scope as int].parent == NO_PARENT,
            self.scopes@[self.functions.value_at(j).first_scope as int].function@ == self.functions.key_at(j),
    {
        reveal(ProgramData::tree_wf);
        let _ = self.functions.value_at(j);
    }

    /// The layout of the `k`-th variable of scope `i`.
    pub proof fn lemma_var_slot(&self, i: int, k: int)
        requires
            self.vars_wf(),
            0 <= i < self.scopes@.len(),
            0 <= k < self.scopes@[i].variables.entries@.len(),
        ensures
            ({
                let v = self.scopes@[i].variables.value_at(k);
                &&& v.variable_type.size_fits()
                &&& v.variable_size == v.variable_type.spec_size()
                &&& v.offset + v.variable_size <= self.scopes@[i].stack_mem_allocated
                &&& forall|k2: int|
                    k < k2 < self.scopes@[i].variables.entries@.len() ==> v.offset + v.variable_size
                        <= (#[trigger] self.scopes@[i].variables.value_at(k2)).offset
            }),
    {
        reveal(ProgramData::vars_wf);
        let _ = self.scopes@[i].variables.value_at(k);
    }

    /// The frame of scope `i`'s function holds it and its ancestors.
    pub proof fn lemma_frame_scope(&self, i: int)
        requires
            self.frames_wf(),
            0 <= i < self.scopes@.len(),
        ensures
            self.ancestors_alloc(i) + self.scopes@[i].stack_mem_allocated <= self.function_of(i).stack_mem_allocated,
    {
        reveal(ProgramData::frames_wf);
        let _ = self.ancestors_alloc(i);
    }

    /// The frame of the `j`-th function and the layout of its `a`-th argument.
    pub proof fn lemma_frame_function(&self, j: int, a: int)
        requires
            self.frames_wf(),
            0 <= j < self.functions.entries@.len(),
        ensures
            self.functions.value_at(j).arg_stack_mem_allocated + self.functions.value_at(j).stack_mem_allocated
                + 16 <= usize::MAX,
            0 <= a < self.functions.value_at(j).args@.len() ==> {
                let arg = self.functions.value_at(j).args@[a];
                arg.memory_location is Stack ==> {
                    &&& arg.arg_var_type.size_fits()
                    &&& arg.memory_location->Stack_0 + arg.arg_var_type.spec_size()
                        <= self.functions.value_at(j).arg_stack_mem_allocated
                }
            },
    {
        reveal(ProgramData::frames_wf);
        let _ = self.functions.value_at(j);
        if 0 <= a < self.functions.value_at(j).args@.len() {
            let _ = self.functions.value_at(j).args@[a];
        }
    }

    /// Everything the later passes rely on.
    pub open spec fn wf(&self) -> bool {
        self.tree_wf() && self.vars_wf() && self.frames_wf()
    }

    pub fn get_scope_by_index(&self, index: usize) -> (r: &Scope)
        requires
            index < self.scopes@.len(),
        ensures
            *r == self.scopes@[index as int],
    {
        &self.scopes[index]
    }

    /// The scope in which `var_name` is visible from scope `i`: `i` itself or its nearest
    /// ancestor that declares it.
    pub open spec fn var_scope(&self, i: int, name: Seq<char>) -> Option<int>
        decreases i,
    {
        if !(0 <= i < self.scopes@.len()) {
            None
        } else if self.scopes@[i].variables.contains(name) {
            Some(i)
        } else if self.scopes@[i].parent != NO_PARENT && self.scopes@[i].parent < i {
            self.var_scope(self.scopes@[i].parent as int, name)
        } else {
            None
        }
    }

    /// Where a variable declared in scope `j` lives, counted in bytes above `sp`: the frame
    /// is laid out outermost scope first, from the top of the frame down.
    pub open spec fn var_local_offset(&self, j: int, v: StackVariable) -> int {
        self.function_of(j).stack_mem_allocated - (self.ancestors_alloc(j) + v.offset + v.variable_size)
    }

    pub proof fn lemma_var_scope_valid(&self, i: int, name: Seq<char>)
        requires
            0 <= i < self.scopes@.len(),
        ensures
            self.var_scope(i, name) matches Some(j) ==> 0 <= j <= i && self.scopes@[j].variables.contains(name),
        decreases i,
    {
        if !self.scopes@[i].variables.contains(name) && self.scopes@[i].parent != NO_PARENT
            && self.scopes@[i].parent < i {
            self.lemma_var_scope_valid(self.scopes@[i].parent as int, name);
        }
    }

    /// Bytes allocated by the strict ancestors of `scope`.
    pub fn ancestors_memory(&self, scope: usize) -> (r: usize)
        requires
            self.wf(),
            scope < self.scopes@.len(),
        ensures
            r == self.ancestors_alloc(scope as int),
    {
        proof {
            self.lemma_frame_scope(scope as int);
        }
        let mut offset: usize = 0;
        let mut current_scope_idx = scope;
        while self.scopes[current_scope_idx].parent != NO_PARENT
            invariant
                self.wf(),
                scope < self.scopes@.len(),
                current_scope_idx <= scope,
                offset + self.ancestors_alloc(current_scope_idx as int) == self.ancestors_alloc(scope as int),
                self.ancestors_alloc(scope as int) <= usize::MAX,
            decreases current_scope_idx,
        {
            proof {
                self.lemma_tree_scope(current_scope_idx as int);
            }
            let parent = self.scopes[current_scope_idx].parent;
            offset = offset + self.scopes[parent].stack_mem_allocated;
            current_scope_idx = parent;
        }
        offset
    }

    pub fn get_scope_by_index_mut(&mut self, index: usize) -> (r: &mut Scope)
        requires
            index < old(self).scopes@.len(),
        ensures
            *r == old(self).scopes@[index as int],
            final(self).scopes@ == old(self).scopes@.update(index as int, *final(r)),
            final(self).functions == old(self).functions,
            final(self).statements == old(self).statements,
            final(self).tokens == old(self).tokens,
            final(self).errors == old(self).errors,
            final(self).source_code == old(self).source_code,
            final(self).source_codes == old(self).source_codes,
    {
        &mut self.scopes[index]
    }

    /// The argument `identifier` of the function scope `scope` belongs to, with its offset
    /// above `sp`, when the function receives it on the stack.
    pub fn get_function_stack_arg_ref(&self, scope: usize, identifier: &str) -> (r: Option<FunctionStackArgRef>)
        requires
            self.wf(),
            scope < self.scopes@.len(),
        ensures
            ({
                let f = self.function_of(scope as int);
                let k = find_arg(f.args@, identifier@, 0);
                &&& r is Some <==> (k is Some && f.args@[k->0].memory_location is Stack)
                &&& r matches Some(x) ==> x.var == f.args@[k->0] && x.local_offset == arg_local_offset(f, x.var)
            }),
    {
        proof {
            self.lemma_tree_scope(scope as int);
        }
        let function_name = &self.get_scope_by_index(scope).function;
        let j = self.functions.position(function_name.as_str()).unwrap();
        proof {
            self.functions.lemma_lookup_at(j as int);
        }
        let func = &self.functions.entries[j].1;
        assert(self.function_of(scope as int) == *func);
        let func_arg_stack_mem_allocated = func.arg_stack_mem_allocated;
        let func_stack_mem_allocated = func.stack_mem_allocated;
        let mut i: usize = 0;
        while i < func.args.len()
            invariant
                i <= func.args@.len(),
                find_arg(func.args@, identifier@, 0) == find_arg(func.args@, identifier@, i as int),
            ensures
                i <= func.args@.len(),
                find_arg(func.args@, identifier@, 0) == find_arg(func.args@, identifier@, i as int),
                i < func.args@.len() ==> func.args@[i as int].arg_name@ == identifier@,
            decreases func.args@.len() - i,
        {
            if str_eq(func.args[i].arg_name.as_str(), identifier) {
                break;
            }
            i = i + 1;
        }
        if i < func.args.len() {
            assert(find_arg(func.args@, identifier@, i as int) == Some(i as int));
            let func_arg_unwrapped = &func.args[i];
            if let MemoryLocationsAst::Stack(stack_offset) = func_arg_unwrapped.memory_location {
                proof {
                    assert(self.functions.value_at(j as int).args@[i as int] == *func_arg_unwrapped);
                    self.lemma_frame_function(j as int, i as int);
                }
                let size = func_arg_unwrapped.arg_var_type.get_variable_size();
                return Some(FunctionStackArgRef {
                    local_offset: (func_arg_stack_mem_allocated + func_stack_mem_allocated + 16) - stack_offset - size,
                    var: func_arg_unwrapped.duplicate(),
                });
            }
            return None;
        }
        assert(find_arg(func.args@, identifier@, i as int) is None);
        None
    }

    /// Bytes of stack the scope `scope_idx` and its nested scopes need at most at once.
    pub fn traverse_scope_memory(&self, scope_idx: usize) -> (r: usize)
        requires
            self.tree_wf(),
            scope_idx < self.scopes@.len(),
            needed(self.scopes@, scope_idx as int) <= usize::MAX,
        ensures
            r == needed(self.scopes@, scope_idx as int),
        decreases self.scopes@.len() - scope_idx,
    {
        let scope = self.get_scope_by_index(scope_idx);
        let mut required: usize = 0;
        let mut k: usize = 0;
        while k < scope.children.len()
            invariant
                self.tree_wf(),
                scope_idx < self.scopes@.len(),
                *scope == self.scopes@[scope_idx as int],
                needed(self.scopes@, scope_idx as int) <= usize::MAX,
                k <= scope.children@.len(),
                required == children_needed(self.scopes@, scope_idx as int, k as int),
            decreases scope.children@.len() - k,
        {
            proof {
                self.lemma_tree_scope(scope_idx as int);
            }
            let child = scope.children[k];
            assert(scope_idx < child < self.scopes@.len());
            proof {
                lemma_children_needed_bound(self.scopes@, scope_idx as int, scope.children@.len() as int, k as int);
            }
            let child_needed = self.traverse_scope_memory(child);
            if child_needed > required {
                required = child_needed;
            }
            k = k + 1;
        }
        required + scope.stack_mem_allocated
    }

    /// Like `traverse_scope_memory`, but `None` when the amount does not fit in `usize`.
    pub fn scope_memory_checked(&self, scope_idx: usize) -> (r: Option<usize>)
        requires
            self.tree_wf(),
            scope_idx < self.scopes@.len(),
        ensures
            r is Some <==> needed(self.scopes@, scope_idx as int) <= usize::MAX,
            r matches Some(x) ==> x == needed(self.scopes@, scope_idx as int),
        decreases self.scopes@.len() - scope_idx,
    {
        let scope = self.get_scope_by_index(scope_idx);
        let mut required: usize = 0;
        let mut k: usize = 0;
        while k < scope.children.len()
            invariant
                self.tree_wf(),
                scope_idx < self.scopes@.len(),
                *scope == self.scopes@[scope_idx as int],
                k <= scope.children@.len(),
                required == children_needed(self.scopes@, scope_idx as int, k as int),
            decreases scope.children@.len() - k,
        {
            proof {
                self.lemma_tree_scope(scope_idx as int);
            }
            let child = scope.children[k];
            assert(scope_idx < child < self.scopes@.len());
            proof {
                lemma_children_needed_bound(self.scopes@, scope_idx as int, scope.children@.len() as int, k as int);
            }
            match self.scope_memory_checked(child) {
                Some(child_needed) => {
                    if child_needed > required {
                        required = child_needed;
                    }
                },
                None => {
                    return None;
                },
            }
            k = k + 1;
        }
        required.checked_add(scope.stack_mem_allocated)
    }

    /// Stack memory allocated for the function that scope `scope_idx` belongs to.
    pub fn get_func_stack_memory(&self, scope_idx: usize) -> (r: usize)
        requires
            self.tree_wf(),
            scope_idx < self.scopes@.len(),
        ensures
            r == self.function_of(scope_idx as int).stack_mem_allocated,
    {
        proof {
            self.lemma_tree_scope(scope_idx as int);
        }
        let scope_borrow = self.get_scope_by_index(scope_idx);
        let func = self.functions.get(scope_borrow.function.as_str()).unwrap();
        func.stack_mem_allocated
    }

    /// Law: a scope, together with the allocations of all its ancestors, never needs more
    /// than the outermost scope of its function.
    pub proof fn lemma_scope_within_function(&self, i: int)
        requires
            self.tree_wf(),
            0 <= i < self.scopes@.len(),
        ensures
            self.ancestors_alloc(i) + needed(self.scopes@, i)
                <= needed(self.scopes@, self.function_of(i).first_scope as int),
        decreases i,
    {
        self.lemma_tree_scope(i);
        let s = self.scopes@[i];
        if s.parent != NO_PARENT {
            let p = s.parent as int;
            self.lemma_tree_scope(p);
            assert(self.scopes.len() == self.scopes@.len()) by {
                broadcast use vstd::std_specs::vec::axiom_spec_len;
            }
            assert(self.scopes@[p].children@.contains(i as usize));
            let m = choose|m: int| 0 <= m < self.scopes@[p].children@.len() && self.scopes@[p].children@[m] == i as usize;
            assert(self.scopes@[p].children@[m] as int == i) by {
                assert(self.scopes@[p].children@[m] < self.scopes@.len());
            }
            lemma_children_needed_bound(self.scopes@, p, self.scopes@[p].children@.len() as int, m);
            assert(needed(self.scopes@, i) <= children_needed(self.scopes@, p, self.scopes@[p].children@.len() as int));
            self.lemma_scope_within_function(p);
            assert(self.function_of(i) == self.function_of(p));
            assert(needed(self.scopes@, p) == children_needed(self.scopes@, p, self.scopes@[p].children@.len() as int)
                + self.scopes@[p].stack_mem_allocated);
            assert(self.ancestors_alloc(i) == self.scopes@[p].stack_mem_allocated + self.ancestors_alloc(p));
        } else {
            assert(self.function_of(i).first_scope == i);
            assert(self.ancestors_alloc(i) == 0);
        }
    }

    /// Whether every stack argument of `f` has a computable size and lies inside the
    /// argument area.
    pub fn stack_args_fit(f: &Function) -> (r: bool)
        ensures
            r == forall|a: int|
                0 <= a < f.args@.len() ==> (#[trigger] f.args@[a]).memory_location is Stack ==> {
                    &&& f.args@[a].arg_var_type.size_fits()
                    &&& f.args@[a].memory_location->Stack_0 + f.args@[a].arg_var_type.spec_size()
                        <= f.arg_stack_mem_allocated
                },
    {
        let mut a: usize = 0;
        while a < f.args.len()
            invariant
                a <= f.args@.len(),
                forall|b: int|
                    0 <= b < a ==> (#[trigger] f.args@[b]).memory_location is Stack ==> {
                        &&& f.args@[b].arg_var_type.size_fits()
                        &&& f.args@[b].memory_location->Stack_0 + f.args@[b].arg_var_type.spec_size()
                            <= f.arg_stack_mem_allocated
                    },
            decreases f.args@.len() - a,
        {
            if let MemoryLocationsAst::Stack(off) = f.args[a].memory_location {
                if !f.args[a].arg_var_type.fits_in_memory() {
                    return false;
                }
                let size = f.args[a].arg_var_type.get_variable_size();
                if size > f.arg_stack_mem_allocated || off > f.arg_stack_mem_allocated - size {
                    return false;
                }
            }
            a = a + 1;
        }
        true
    }

    /// Changing only the frames of functions keeps the scope forest and variable layout intact.
    pub proof fn lemma_keep_tree(&self, old_self: &Self)
        requires
            old_self.tree_wf(),
            old_self.vars_wf(),
            self.scopes@ == old_self.scopes@,
            self.functions.entries@.len() == old_self.functions.entries@.len(),
            forall|q: int|
                0 <= q < old_self.functions.entries@.len() ==> #[trigger] self.functions.key_at(q)
                    == old_self.functions.key_at(q),
            forall|q: int|
                0 <= q < old_self.functions.entries@.len() ==> (#[trigger] self.functions.value_at(q)).first_scope
                    == old_self.functions.value_at(q).first_scope,
        ensures
            self.tree_wf(),
            self.vars_wf(),
            forall|i: int|
                0 <= i < self.scopes@.len() ==> (#[trigger] self.function_of(i)).first_scope
                    == old_self.function_of(i).first_scope,
    {
        reveal(ProgramData::vars_wf);
        assert(old_self.functions.wf()) by {
            reveal(ProgramData::tree_wf);
        }
        old_self.functions.lemma_same_keys(&self.functions);
        assert forall|i: int| 0 <= i < self.scopes@.len() implies (#[trigger] self.function_of(i)).first_scope
            == old_self.function_of(i).first_scope by {
            old_self.lemma_tree_scope(i);
        }
        self.lemma_keep_tree_shape(old_self);
    }

    #[verifier::rlimit(50)]
    proof fn lemma_keep_tree_shape(&self, old_self: &Self)
        requires
            old_self.tree_wf(),
            self.scopes@ == old_self.scopes@,
            self.functions.wf(),
            self.functions.entries@.len() == old_self.functions.entries@.len(),
            forall|q: int|
                0 <= q < old_self.functions.entries@.len() ==> #[trigger] self.functions.key_at(q)
                    == old_self.functions.key_at(q),
            forall|q: int|
                0 <= q < old_self.functions.entries@.len() ==> (#[trigger] self.functions.value_at(q)).first_scope
                    == old_self.functions.value_at(q).first_scope,
            forall|k: Seq<char>| #[trigger] self.functions.contains(k) == old_self.functions.contains(k),
            forall|i: int|
                0 <= i < self.scopes@.len() ==> (#[trigger] self.function_of(i)).first_scope
                    == old_self.function_of(i).first_scope,
        ensures
            self.tree_wf(),
    {
        reveal(ProgramData::tree_wf);
        assert forall|i: int|
            0 <= i < self.scopes@.len() && (#[trigger] self.scopes@[i]).parent == NO_PARENT
                implies self.functions.lookup(self.scopes@[i].function@)->0.first_scope == i by {
            assert(self.function_of(i).first_scope == old_self.function_of(i).first_scope);
        }
        assert forall|i: int| 0 <= i < self.scopes@.len() implies self.functions.contains(
            (#[trigger] self.scopes@[i]).function@,
        ) by {
            assert(old_self.functions.contains(old_self.scopes@[i].function@));
        }
        assert forall|j: int| 0 <= j < self.functions.entries@.len() implies {
            &&& (#[trigger] self.functions.value_at(j)).first_scope < self.scopes@.len()
            &&& self.scopes@[self.functions.value_at(j).first_scope as int].parent == NO_PARENT
            &&& self.scopes@[self.functions.value_at(j).first_scope as int].function@
                == self.functions.key_at(j)
        } by {
            assert(old_self.functions.value_at(j).first_scope < old_self.scopes@.len());
        }
    }

    /// Frames sized by `frame_size` hold every scope of their function.
    pub proof fn lemma_frames(&self, old_self: &Self)
        requires
            old_self.tree_wf(),
            self.tree_wf(),
            self.scopes@ == old_self.scopes@,
            self.functions.entries@.len() == old_self.functions.entries@.len(),
            forall|i: int|
                0 <= i < self.scopes@.len() ==> (#[trigger] self.function_of(i)).first_scope
                    == old_self.function_of(i).first_scope,
            forall|q: int|
                0 <= q < self.functions.entries@.len() ==> {
                    let f0 = old_self.functions.value_at(q);
                    let f1 = #[trigger] self.functions.value_at(q);
                    &&& f1.first_scope == f0.first_scope
                    &&& f1.args == f0.args
                    &&& f1.arg_stack_mem_allocated == f0.arg_stack_mem_allocated
                    &&& f1.stack_mem_allocated == frame_size(old_self.scopes@, f0)
                    &&& frame_fits(f0, frame_size(old_self.scopes@, f0))
                },
        ensures
            self.frames_wf(),
    {
        reveal(ProgramData::frames_wf);
        reveal(ProgramData::tree_wf);
        assert forall|i: int| 0 <= i < self.scopes@.len() implies #[trigger] self.ancestors_alloc(i)
            + self.scopes@[i].stack_mem_allocated <= self.function_of(i).stack_mem_allocated by {
            old_self.lemma_scope_within_function(i);
            let k = self.scopes@[i].function@;
            let q = self.functions.index_of(k);
            self.functions.lemma_lookup_at(q);
            let f0 = old_self.functions.value_at(q);
            lemma_align_at_least(needed(self.scopes@, f0.first_scope as int), 16);
            assert(self.ancestors_alloc(i) == old_self.ancestors_alloc(i)) by {
                lemma_ancestors_same(self, old_self, i);
            }
        }
        assert forall|q: int, a: int|
            0 <= q < self.functions.entries@.len() && 0 <= a < self.functions.value_at(q).args@.len() implies {
                let arg = #[trigger] self.functions.value_at(q).args@[a];
                arg.memory_location is Stack ==> {
                    &&& arg.arg_var_type.size_fits()
                    &&& arg.memory_location->Stack_0 + arg.arg_var_type.spec_size()
                        <= self.functions.value_at(q).arg_stack_mem_allocated
                }
            } by {
            let f0 = old_self.functions.value_at(q);
            assert(frame_fits(f0, frame_size(old_self.scopes@, f0)));
            assert(f0.args@[a] == self.functions.value_at(q).args@[a]);
        }
    }

    /// Gives each function a frame that holds what its scopes need, rounded up to 16 bytes.
    /// Returns false, leaving the remaining functions untouched, when a frame or a function's
    /// stack arguments would not fit in the address space.
    pub fn assign_function_stack_memory(&mut self) -> (ok: bool)
        requires
            old(self).tree_wf(),
            old(self).vars_wf(),
        ensures
            final(self).scopes@ == old(self).scopes@,
            final(self).statements == old(self).statements,
            final(self).tokens == old(self).tokens,
            final(self).errors == old(self).errors,
            final(self).functions.keys() == old(self).functions.keys(),
            forall|j: int|
                0 <= j < old(self).functions.entries@.len() ==> {
                    let f0 = old(self).functions.value_at(j);
                    let f1 = #[trigger] final(self).functions.value_at(j);
                    &&& f1.first_scope == f0.first_scope
                    &&& f1.args == f0.args
                    &&& f1.arg_stack_mem_allocated == f0.arg_stack_mem_allocated
                    &&& f1.return_type == f0.return_type
                },
            final(self).tree_wf(),
            final(self).vars_wf(),
            ok <==> forall|j: int|
                0 <= j < old(self).functions.entries@.len() ==> frame_fits(
                    #[trigger] old(self).functions.value_at(j),
                    frame_size(old(self).scopes@, old(self).functions.value_at(j)),
                ),
            ok ==> final(self).wf(),
            ok ==> forall|j: int|
                0 <= j < old(self).functions.entries@.len() ==> (#[trigger] final(self).functions.value_at(j)).stack_mem_allocated
                    == frame_size(old(self).scopes@, old(self).functions.value_at(j)),
    {
        let ghost old_self = *self;
        proof {
            reveal(ProgramData::tree_wf);
        }
        let n = self.functions.len();
        let mut j: usize = 0;
        while j < n
            invariant
                old_self == *old(self),
                n == old_self.functions.entries@.len(),
                j <= n,
                self.scopes@ == old_self.scopes@,
                self.statements == old_self.statements,
                self.tokens == old_self.tokens,
                self.errors == old_self.errors,
                self.functions.entries@.len() == n,
                self.functions.keys() == old_self.functions.keys(),
                forall|q: int| 0 <= q < n ==> #[trigger] self.functions.key_at(q) == old_self.functions.key_at(q),
                forall|q: int|
                    0 <= q < n ==> {
                        let f0 = old_self.functions.value_at(q);
                        let f1 = #[trigger] self.functions.value_at(q);
                        &&& f1.first_scope == f0.first_scope
                        &&& f1.args == f0.args
                        &&& f1.arg_stack_mem_allocated == f0.arg_stack_mem_allocated
                        &&& f1.return_type == f0.return_type
                        &&& q >= j ==> f1.stack_mem_allocated == f0.stack_mem_allocated
                        &&& q < j ==> f1.stack_mem_allocated == frame_size(old_self.scopes@, f0)
                    },
                forall|q: int|
                    0 <= q < j ==> frame_fits(#[trigger] old_self.functions.value_at(q), frame_size(old_self.scopes@, old_self.functions.value_at(q))),
                old_self.tree_wf(),
                old_self.vars_wf(),
                self.functions.wf(),
            decreases n - j,
        {
            proof {
                self.lemma_keep_tree(&old_self);
                old_self.lemma_tree_function(j as int);
            }
            let first_scope = self.functions.entries[j].1.first_scope;
            let arg_stack = self.functions.entries[j].1.arg_stack_mem_allocated;
            proof {
                assert(self.functions.value_at(j as int).first_scope == old_self.functions.value_at(j as int).first_scope);
            }
            let needed_bytes = match self.scope_memory_checked(first_scope) {
                Some(x) => x,
                None => {
                    proof { self.lemma_keep_tree(&old_self); }
                    return false;
                },
            };
            if needed_bytes > usize::MAX - 15 {
                proof { self.lemma_keep_tree(&old_self); }
                return false;
            }
            let frame = align_memory(needed_bytes, 16);
            if arg_stack > usize::MAX - 16 || frame > usize::MAX - 16 - arg_stack {
                proof { self.lemma_keep_tree(&old_self); }
                return false;
            }
            if !Self::stack_args_fit(&self.functions.entries[j].1) {
                proof { self.lemma_keep_tree(&old_self); }
                return false;
            }
            let ghost before = self.functions;
            self.functions.entries[j].1.stack_mem_allocated = frame;
            assert(self.functions.value_at(j as int).stack_mem_allocated == frame);
            assert(self.functions.value_at(j as int).args == before.value_at(j as int).args);
            assert(frame == frame_size(old_self.scopes@, old_self.functions.value_at(j as int)));
            assert forall|q: int| 0 <= q < n && q != j implies #[trigger] self.functions.value_at(q) == before.value_at(q) by {}
            proof {
                assert forall|q: int| 0 <= q < n implies #[trigger] self.functions.key_at(q) == before.key_at(q) by {}
                before.lemma_same_keys(&self.functions);
                assert(self.functions.keys() =~= before.keys());
            }
            j = j + 1;
        }
        proof {
            self.lemma_keep_tree(&old_self);
            self.lemma_frames(&old_self);
        }
        true
    }

    /// The variable `var_name` as seen from scope `scope`, with its offset above `sp`.
    pub fn get_stack_variable_ref(&self, scope: usize, var_name: &str) -> (r: Option<StackVariableRef>)
        requires
            self.wf(),
            scope < self.scopes@.len(),
        ensures
            r is Some <==> self.var_scope(scope as int, var_name@) is Some,
            r matches Some(x) ==> {
                let j = self.var_scope(scope as int, var_name@)->0;
                &&& x.var == self.scopes@[j].variables.lookup(var_name@)->0
                &&& x.local_offset == self.var_local_offset(j, x.var)
            },
        decreases scope,
    {
        proof {
            self.lemma_tree_scope(scope as int);
        }
        let scope_ref = self.get_scope_by_index(scope);
        match scope_ref.variables.get(var_name) {
            Some(var) => {
                let offset = self.ancestors_memory(scope);
                assert(offset == self.ancestors_alloc(scope as int));
                let func = self.functions.get(scope_ref.function.as_str()).unwrap();
                proof {
                    let k = scope_ref.variables.index_of(var_name@);
                    scope_ref.variables.lemma_lookup_at(k);
                    assert(self.scopes@[scope as int].variables.value_at(k) == *var);
                    self.lemma_var_slot(scope as int, k);
                    self.lemma_frame_scope(scope as int);
                    assert(self.ancestors_alloc(scope as int) + self.scopes@[scope as int].stack_mem_allocated
                        <= self.function_of(scope as int).stack_mem_allocated);
                }
                let final_offset = func.stack_mem_allocated - (offset + var.offset + var.variable_size);
                return Some(StackVariableRef { local_offset: final_offset, var: var.duplicate() });
            },
            None => {},
        }
        if scope_ref.parent == NO_PARENT {
            return None;
        }
        self.get_stack_variable_ref(scope_ref.parent, var_name)
    }
}

/// A rounded-up amount is at least the amount.
pub proof fn lemma_align_at_least(value: nat, alignment: nat)
    requires
        alignment > 0,
    ensures
        value <= spec_align(value, alignment),
{
    if value % alignment != 0 {
        vstd::arithmetic::div_mod::lemma_fundamental_div_mod(value as int, alignment as int);
        assert((value / alignment + 1) * alignment == alignment * (value / alignment) + alignment) by (nonlinear_arith);
    }
}

/// The ancestors' allocation depends only on the scopes.
pub proof fn lemma_ancestors_same(a: &ProgramData, b: &ProgramData, i: int)
    requires
        a.scopes@ == b.scopes@,
    ensures
        a.ancestors_alloc(i) == b.ancestors_alloc(i),
    decreases i,
{
    if 0 <= i < a.scopes@.len() && a.scopes@[i].parent != NO_PARENT && a.scopes@[i].parent < i {
        lemma_ancestors_same(a, b, a.scopes@[i].parent as int);
    }
}

} // verus!

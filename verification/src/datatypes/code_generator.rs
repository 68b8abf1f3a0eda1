//! Code generation: turns each scope's lowered statements into ARM64 assembly, one label
//! per function and per nested scope.
use vstd::prelude::*;
use crate::datatypes::assembly_instructions::arm64::{
    TempRegisters, allocate_stack_memory, create_scope, deallocate_stack_memory, destroy_scope, goto, jump_to_function,
    mov_num_to_reg, spec_allocate_stack_memory, spec_create_scope, spec_deallocate_stack_memory, spec_destroy_scope,
    spec_goto, spec_jump_to_function, spec_mov_num_to_reg, spec_store_literal_to_stack, spec_store_reg_to_stack,
    spec_temp_reg_for_type, spec_variable_to_reg, store_literal_to_stack, store_reg_to_stack, temp_reg_for_type,
    variable_to_reg,
};
use crate::datatypes::ast_statements::{
    CgBranchLinked, CgBuiltInFunctions, duplicate_args, CgCompare, CgExpression, CgIdentifiers, CgStatement, CgStatementType, CgVariableAssignmentType,
    CmpCondition, CmpConditionType, Function, FunctionArg, Literal, MemoryLocationsAst, StackVariableData, VariableType,
};
use crate::datatypes::name_map::NameMap;
use crate::datatypes::program_data::{ProgramData, arg_local_offset};
use crate::datatypes::scope::{NO_PARENT, Scope};
use crate::text::{i64_to_string, int_decimal, nat_decimal, push_str, usize_to_string};

verus! {

/// Whether `e` can be loaded into a scratch register: a number, or an integer variable.
pub open spec fn reg_loadable(e: CgExpression) -> bool {
    ||| e matches CgExpression::Literal(Literal::Number(_))
    ||| e matches CgExpression::Identifier(CgIdentifiers::StackVariableData(d)) && d.variable_type.is_number()
}

/// The code that loads `e` into scratch register `reg`: a number as a 64-bit constant, a
/// variable from its stack slot.
pub open spec fn reg_load_code(e: CgExpression, reg: TempRegisters) -> Seq<char> {
    match e {
        CgExpression::Literal(Literal::Number(n)) => spec_mov_num_to_reg(
            spec_temp_reg_for_type(VariableType::I64, false, reg),
            n as int,
        ),
        CgExpression::Identifier(CgIdentifiers::StackVariableData(d)) => spec_variable_to_reg(
            spec_temp_reg_for_type(d.variable_type, true, reg),
            d.offset as nat,
            d.variable_type,
        ),
        _ => seq![],
    }
}

/// The code that stores the value of `e`, as type `t`, into the slot `target` bytes above
/// `sp`: a number through a scratch register, a variable by a load and a store, an array
/// literal item by item into consecutive slots.
pub open spec fn init_code(target: nat, t: VariableType, e: CgExpression) -> Seq<char>
    decreases e, 1nat,
{
    match e {
        CgExpression::Literal(Literal::Number(n)) => spec_store_literal_to_stack(t, n as int, target),
        CgExpression::Identifier(CgIdentifiers::StackVariableData(d)) => spec_variable_to_reg(
            spec_temp_reg_for_type(t, true, TempRegisters::T0),
            d.offset as nat,
            t,
        ) + spec_store_reg_to_stack(spec_temp_reg_for_type(t, false, TempRegisters::T0), target, t),
        CgExpression::Literal(Literal::Array(a)) => match t {
            VariableType::Array(arr) => {
                proof {
                    broadcast use vstd::std_specs::vec::axiom_vec_decreases_to_view;
                    assert(decreases_to!(a.cg_items => a.cg_items@));
                }
                items_init_code(target, *arr.variable_type, a.cg_items@)
            },
            _ => seq![],
        },
        _ => seq![],
    }
}

/// The code that stores item `k` of `items` into slot `k` (slots of `t`'s size) of the array
/// at `target`, for each item in order.
pub open spec fn items_init_code(target: nat, t: VariableType, items: Seq<CgExpression>) -> Seq<char>
    decreases items, 0nat,
{
    if items.len() == 0 {
        seq![]
    } else {
        proof {
            assert(decreases_to!(items => items.last()));
            assert(decreases_to!(items => items.drop_last()));
        }
        items_init_code(target, t, items.drop_last()) + init_code(
            target + ((items.len() - 1) as nat) * t.spec_size(),
            t,
            items.last(),
        )
    }
}

/// Whether `init_code` can be emitted: the types involved are integer types, an array's item
/// size is known, and every slot offset fits in `usize`.
pub open spec fn init_ok(target: nat, t: VariableType, e: CgExpression) -> bool
    decreases e, 1nat,
{
    &&& target <= usize::MAX
    &&& match e {
        CgExpression::Literal(Literal::Number(_)) => t.is_number(),
        CgExpression::Identifier(CgIdentifiers::StackVariableData(_)) => t.is_number(),
        CgExpression::Literal(Literal::Array(a)) => match t {
            VariableType::Array(arr) => {
                proof {
                    broadcast use vstd::std_specs::vec::axiom_vec_decreases_to_view;
                    assert(decreases_to!(a.cg_items => a.cg_items@));
                }
                arr.variable_type.size_fits() && items_init_ok(target, *arr.variable_type, a.cg_items@)
            },
            _ => false,
        },
        _ => false,
    }
}

/// Whether `items_init_code` can be emitted.
pub open spec fn items_init_ok(target: nat, t: VariableType, items: Seq<CgExpression>) -> bool
    decreases items, 0nat,
{
    if items.len() == 0 {
        true
    } else {
        proof {
            assert(decreases_to!(items => items.last()));
            assert(decreases_to!(items => items.drop_last()));
        }
        &&& items_init_ok(target, t, items.drop_last())
        &&& ((items.len() - 1) as nat) * t.spec_size() <= usize::MAX
        &&& init_ok(target + ((items.len() - 1) as nat) * t.spec_size(), t, items.last())
    }
}


/// The scope of the first condition that holds between the numbers `a` and `b`, if any.
pub open spec fn first_true(conds: Seq<CmpCondition>, a: i64, b: i64) -> Option<usize>
    decreases conds.len(),
{
    if conds.len() == 0 {
        None
    } else {
        let holds = match conds[0].condition_type {
            CmpConditionType::Equal => a == b,
            CmpConditionType::NotEqual => a != b,
        };
        if holds {
            Some(conds[0].scope)
        } else {
            first_true(conds.drop_first(), a, b)
        }
    }
}

/// Comparing two numbers at compile time picks the first condition that holds between them
/// (`.eq` when they are equal, `.ne` when they differ): the scope picked is that of a
/// condition that holds, every earlier condition fails, and nothing is picked exactly when no
/// condition holds.
pub proof fn lemma_first_true_picks_first_holding(conds: Seq<CmpCondition>, a: i64, b: i64)
    ensures
        first_true(conds, a, b) matches Some(s) ==> exists|k: int|
            0 <= k < conds.len() && conds[k].scope == s && ((conds[k].condition_type is Equal && a == b) || (conds[k].condition_type is NotEqual && a != b))
                && forall|j: int| 0 <= j < k ==> !((#[trigger] conds[j].condition_type is Equal && a == b) || (conds[j].condition_type is NotEqual && a != b)),
        first_true(conds, a, b) is None <==> forall|k: int|
            0 <= k < conds.len() ==> !((#[trigger] conds[k].condition_type is Equal && a == b) || (conds[k].condition_type is NotEqual && a != b)),
    decreases conds.len(),
{
    if conds.len() > 0 {
        let rest = conds.drop_first();
        lemma_first_true_picks_first_holding(rest, a, b);
        assert forall|k: int| 1 <= k < conds.len() implies conds[k] == rest[k - 1] by {}
        if ((conds[0].condition_type is Equal && a == b) || (conds[0].condition_type is NotEqual && a != b)) {
            assert(first_true(conds, a, b) == Some(conds[0].scope));
        } else {
            assert(first_true(conds, a, b) == first_true(rest, a, b));
            if first_true(rest, a, b) is Some {
                let s = first_true(rest, a, b)->0;
                let k = choose|k: int|
                    0 <= k < rest.len() && rest[k].scope == s && ((rest[k].condition_type is Equal && a == b) || (rest[k].condition_type is NotEqual && a != b))
                        && forall|j: int| 0 <= j < k ==> !((#[trigger] rest[j].condition_type is Equal && a == b) || (rest[j].condition_type is NotEqual && a != b));
                assert(conds[k + 1] == rest[k]);
                assert forall|j: int| 0 <= j < k + 1 implies !((#[trigger] conds[j].condition_type is Equal && a == b) || (conds[j].condition_type is NotEqual && a != b)) by {
                    if j > 0 {
                        assert(conds[j] == rest[j - 1]);
                    }
                }
            }
        }
    }
}

/// One conditional branch per condition, to the label of the condition's scope.
pub open spec fn branches_code(conds: Seq<CmpCondition>) -> Seq<char>
    decreases conds.len(),
{
    if conds.len() == 0 {
        seq![]
    } else {
        branches_code(conds.drop_last()) + "b."@ + conds.last().spec_to_string() + " _"@ + nat_decimal(
            conds.last().scope as nat,
        ) + "\n"@
    }
}

/// The operands of a compare, a variable first when the other is a literal.
pub open spec fn compare_operands(c: CgCompare) -> (CgExpression, CgExpression) {
    if c.expressions[0] is Literal && c.expressions[1] matches CgExpression::Identifier(
        CgIdentifiers::StackVariableData(_),
    ) {
        (c.expressions[1], c.expressions[0])
    } else {
        (c.expressions[0], c.expressions[1])
    }
}

/// The code of a compare. Two numbers are compared now: the first condition that holds
/// calls its scope. Otherwise the operands are loaded and compared, each condition
/// branches to its scope, and the code falls through to the exit label.
pub open spec fn compare_code(c: CgCompare) -> Seq<char> {
    match (c.expressions[0], c.expressions[1]) {
        (CgExpression::Literal(Literal::Number(a)), CgExpression::Literal(Literal::Number(b))) => match first_true(
            c.conditions@,
            a,
            b,
        ) {
            Some(s) => if s == usize::MAX {
                seq![]
            } else {
                spec_jump_to_function(nat_decimal(s as nat))
            },
            None => seq![],
        },
        _ => {
            let (e0, e1) = compare_operands(c);
            let x0 = spec_temp_reg_for_type(VariableType::I64, false, TempRegisters::T0);
            let x1 = spec_temp_reg_for_type(VariableType::I64, false, TempRegisters::T1);
            reg_load_code(e0, TempRegisters::T0) + match e1 {
                CgExpression::Literal(Literal::Number(n)) => "cmp "@ + x0 + ", #"@ + int_decimal(n as int) + "\n"@,
                _ => reg_load_code(e1, TempRegisters::T1) + "cmp "@ + x0 + ", "@ + x1 + "\n"@,
            } + branches_code(c.conditions@) + spec_goto(c.new_exit_label@) + "_"@ + c.new_exit_label@ + ":\n"@
        },
    }
}

/// Whether a compare's code can be emitted: its operands load into registers.
pub open spec fn compare_ok(c: CgCompare) -> bool {
    match (c.expressions[0], c.expressions[1]) {
        (CgExpression::Literal(Literal::Number(_)), CgExpression::Literal(Literal::Number(_))) => true,
        _ => {
            let (e0, e1) = compare_operands(c);
            reg_loadable(e0) && reg_loadable(e1)
        },
    }
}

/// The code that passes argument `a` for parameter `p`, `m` bytes of stack arguments
/// having been reserved: into the parameter's register, or into its slot of the argument
/// area.
pub open spec fn arg_code(p: FunctionArg, a: CgExpression, m: nat) -> Seq<char> {
    match p.memory_location {
        MemoryLocationsAst::Register(reg) => match a {
            CgExpression::Literal(Literal::Number(num)) => spec_mov_num_to_reg(reg@, num as int),
            CgExpression::Identifier(CgIdentifiers::StackVariableData(d)) => spec_variable_to_reg(
                reg@,
                m + d.offset as nat,
                d.variable_type,
            ),
            _ => seq![],
        },
        MemoryLocationsAst::Stack(off) => match a {
            CgExpression::Literal(Literal::Number(num)) => spec_store_literal_to_stack(
                p.arg_var_type,
                num as int,
                (m - off - p.arg_var_type.spec_size()) as nat,
            ),
            CgExpression::Identifier(CgIdentifiers::StackVariableData(d)) => init_code(
                (m - off - d.variable_type.spec_size()) as nat,
                d.variable_type,
                CgExpression::Identifier(
                    CgIdentifiers::StackVariableData(
                        StackVariableData { offset: (d.offset + m) as usize, variable_type: d.variable_type },
                    ),
                ),
            ),
            _ => seq![],
        },
    }
}

/// A call and the called function agree on where each stack argument lives: the slot the
/// caller stores the argument for stack parameter `p` in, counted above its `sp` once the
/// argument area is reserved, lies exactly the callee's frame and its 16 saved bytes below the
/// offset the callee reads `p` from. A literal and a variable passed for `p` land in that
/// same slot.
pub proof fn lemma_call_slots_agree(f: Function, p: FunctionArg, a: CgExpression)
    requires
        p.memory_location is Stack,
        p.memory_location->Stack_0 + p.arg_var_type.spec_size() <= f.arg_stack_mem_allocated,
    ensures
        ({
            let m = f.arg_stack_mem_allocated as nat;
            let slot = arg_local_offset(f, p) - f.stack_mem_allocated - 16;
            &&& 0 <= slot
            &&& slot + p.arg_var_type.spec_size() <= m
            &&& (a matches CgExpression::Literal(Literal::Number(num)) ==> arg_code(p, a, m) == spec_store_literal_to_stack(
                p.arg_var_type,
                num as int,
                slot as nat,
            ))
            &&& (a matches CgExpression::Identifier(CgIdentifiers::StackVariableData(d)) ==> (d.variable_type == p.arg_var_type
                ==> arg_code(p, a, m) == init_code(
                slot as nat,
                d.variable_type,
                CgExpression::Identifier(
                    CgIdentifiers::StackVariableData(
                        StackVariableData { offset: (d.offset + m) as usize, variable_type: d.variable_type },
                    ),
                ),
            )))
        }),
{
}

/// Whether an argument's code can be emitted.
pub open spec fn arg_ok(p: FunctionArg, a: CgExpression, m: nat) -> bool {
    match p.memory_location {
        MemoryLocationsAst::Register(_) => match a {
            CgExpression::Literal(Literal::Number(_)) => true,
            CgExpression::Identifier(CgIdentifiers::StackVariableData(d)) => d.variable_type.is_number() && m
                + d.offset <= usize::MAX,
            _ => false,
        },
        MemoryLocationsAst::Stack(off) => match a {
            CgExpression::Literal(Literal::Number(_)) => p.arg_var_type.is_number() && off + p.arg_var_type.spec_size()
                <= m,
            CgExpression::Identifier(CgIdentifiers::StackVariableData(d)) => d.variable_type.is_number() && off
                + d.variable_type.spec_size() <= m && d.offset + m <= usize::MAX,
            _ => false,
        },
    }
}

/// The code of the first `n` arguments of a call.
pub open spec fn args_code(params: Seq<FunctionArg>, args: Seq<CgExpression>, m: nat, n: int) -> Seq<char>
    decreases n,
{
    if n <= 0 {
        seq![]
    } else {
        args_code(params, args, m, n - 1) + arg_code(params[n - 1], args[n - 1], m)
    }
}

/// The code of a call of `f` with `args`: reserve the argument area, pass each argument,
/// call, and release the area.
pub open spec fn call_code(f_name: Seq<char>, params: Seq<FunctionArg>, m: nat, args: Seq<CgExpression>) -> Seq<char> {
    (if m != 0 {
        spec_allocate_stack_memory(m)
    } else {
        seq![]
    }) + args_code(params, args, m, params.len() as int) + spec_jump_to_function(f_name) + if m != 0 {
        spec_deallocate_stack_memory(m)
    } else {
        seq![]
    }
}

/// The code of one lowered statement.
pub open spec fn statement_code(pd: ProgramData, st: CgStatement) -> Seq<char> {
    match st.statement_type {
        CgStatementType::Compare(c) => compare_code(c),
        CgStatementType::VariableAssignment(va) => match va.assign_type {
            CgVariableAssignmentType::CompileTimeStackOffset(off) => init_code(off as nat, va.variable_type, va.assign_value),
            _ => seq![],
        },
        CgStatementType::BuiltInFunction(CgBuiltInFunctions::Branch(b)) => spec_goto(b.branch_name@),
        CgStatementType::BuiltInFunction(CgBuiltInFunctions::Assembly(code)) => code@,
        CgStatementType::BuiltInFunction(CgBuiltInFunctions::BranchLinked(bl)) => {
            let f = pd.functions.lookup(bl.function_name@)->0;
            call_code(bl.function_name@, f.args@, f.arg_stack_mem_allocated as nat, bl.args@)
        },
    }
}

/// Whether a lowered statement's code can be emitted: the operands and values are of
/// integer types, a called function exists and gets an argument for each parameter, and
/// every stack offset fits.
pub open spec fn statement_ok(pd: ProgramData, st: CgStatement) -> bool {
    match st.statement_type {
        CgStatementType::Compare(c) => compare_ok(c),
        CgStatementType::VariableAssignment(va) => match va.assign_type {
            CgVariableAssignmentType::CompileTimeStackOffset(off) => init_ok(off as nat, va.variable_type, va.assign_value),
            _ => true,
        },
        CgStatementType::BuiltInFunction(CgBuiltInFunctions::BranchLinked(bl)) => match pd.functions.lookup(bl.function_name@) {
            Some(f) => bl.args@.len() >= f.args@.len() && forall|i: int|
                0 <= i < f.args@.len() ==> arg_ok(#[trigger] f.args@[i], bl.args@[i], f.arg_stack_mem_allocated as nat),
            None => false,
        },
        _ => true,
    }
}

/// The code of lowered statements, in order.
pub open spec fn statements_code(pd: ProgramData, sts: Seq<CgStatement>) -> Seq<char>
    decreases sts.len(),
{
    if sts.len() == 0 {
        seq![]
    } else {
        statements_code(pd, sts.drop_last()) + statement_code(pd, sts.last())
    }
}

/// Whether every lowered statement of scope `s` can be emitted.
pub open spec fn scope_ok(pd: ProgramData, s: int) -> bool {
    forall|k: int| 0 <= k < pd.scopes@[s].cg_statements@.len() ==> statement_ok(pd, #[trigger] pd.scopes@[s].cg_statements@[k])
}

/// Whether every lowered statement of scope `s` and of the scopes nested in it can be emitted.
pub open spec fn subtree_ok(pd: ProgramData, s: int) -> bool
    decreases pd.scopes@.len() - s, pd.scopes@[s].children@.len() + 1,
{
    if 0 <= s < pd.scopes@.len() {
        scope_ok(pd, s) && children_ok(pd, s, pd.scopes@[s].children@.len() as int)
    } else {
        true
    }
}

/// Whether every lowered statement under the first `k` children of scope `s` can be emitted.
pub open spec fn children_ok(pd: ProgramData, s: int, k: int) -> bool
    decreases pd.scopes@.len() - s, k,
{
    if k <= 0 || s < 0 || s >= pd.scopes@.len() || k > pd.scopes@[s].children@.len() {
        true
    } else {
        let c = pd.scopes@[s].children@[k - 1] as int;
        children_ok(pd, s, k - 1) && (s < c < pd.scopes@.len() ==> subtree_ok(pd, c))
    }
}

/// A program whose every statement can be emitted has every subtree emittable.
pub proof fn lemma_program_subtree_ok(pd: ProgramData, s: int)
    requires
        program_ok(pd),
    ensures
        subtree_ok(pd, s),
    decreases pd.scopes@.len() - s, pd.scopes@[s].children@.len() + 1,
{
    if 0 <= s < pd.scopes@.len() {
        assert(scope_ok(pd, s));
        lemma_program_children_ok(pd, s, pd.scopes@[s].children@.len() as int);
    }
}

proof fn lemma_program_children_ok(pd: ProgramData, s: int, k: int)
    requires
        program_ok(pd),
    ensures
        children_ok(pd, s, k),
    decreases pd.scopes@.len() - s, k,
{
    if k <= 0 || s < 0 || s >= pd.scopes@.len() || k > pd.scopes@[s].children@.len() {
    } else {
        lemma_program_children_ok(pd, s, k - 1);
        let c = pd.scopes@[s].children@[k - 1] as int;
        if s < c < pd.scopes@.len() {
            lemma_program_subtree_ok(pd, c);
        }
    }
}

/// Each child under the first `k` children of an emittable scope is emittable with its subtree.
proof fn lemma_children_ok_at(pd: ProgramData, s: int, k: int, i: int)
    requires
        children_ok(pd, s, k),
        0 <= s < pd.scopes@.len(),
        0 <= i < k <= pd.scopes@[s].children@.len(),
        s < pd.scopes@[s].children@[i] < pd.scopes@.len(),
    ensures
        subtree_ok(pd, pd.scopes@[s].children@[i] as int),
    decreases k,
{
    if i < k - 1 {
        lemma_children_ok_at(pd, s, k - 1, i);
    }
}

/// Whether every lowered statement of the program can be emitted.
pub open spec fn program_ok(pd: ProgramData) -> bool {
    forall|s: int| 0 <= s < pd.scopes@.len() ==> #[trigger] scope_ok(pd, s)
}

/// The code of scope `s`: its statements, between the function's prologue and epilogue when
/// it is a function's outermost scope.
pub open spec fn scope_code(pd: ProgramData, s: int) -> Seq<char> {
    let sc = pd.scopes@[s];
    let mem = pd.function_of(s).stack_mem_allocated as nat;
    (if sc.parent == NO_PARENT {
        spec_create_scope(mem)
    } else {
        seq![]
    }) + statements_code(pd, sc.cg_statements@) + if sc.parent == NO_PARENT {
        spec_destroy_scope(mem)
    } else {
        seq![]
    }
}

/// The assembly text of the labels: each label as `_<name>:`, then its code.
pub open spec fn labels_text(entries: Seq<(String, String)>) -> Seq<char>
    decreases entries.len(),
{
    if entries.len() == 0 {
        seq![]
    } else {
        labels_text(entries.drop_last()) + "_"@ + entries.last().0@ + ":\n"@ + entries.last().1@ + "\n"@
    }
}

pub proof fn lemma_appended_refl(labels: NameMap<String>, label: Seq<char>)
    requires
        labels.wf(),
        labels.contains(label),
    ensures
        appended_to_label(labels, labels, label, seq![]),
{
    assert(labels.lookup(label)->0@ + seq![] =~= labels.lookup(label)->0@);
}

pub proof fn lemma_appended_trans(a: NameMap<String>, b: NameMap<String>, c: NameMap<String>, label: Seq<char>, x: Seq<char>, y: Seq<char>)
    requires
        appended_to_label(b, a, label, x),
        appended_to_label(c, b, label, y),
    ensures
        appended_to_label(c, a, label, x + y),
{
    assert(a.lookup(label)->0@ + x + y =~= a.lookup(label)->0@ + (x + y));
    assert forall|j: int| 0 <= j < a.entries@.len() && a.key_at(j) != label implies #[trigger] c.value_at(j) == a.value_at(j) by {
        assert(b.key_at(j) == a.key_at(j));
        assert(b.value_at(j) == a.value_at(j));
    }
    assert forall|j: int| 0 <= j < a.entries@.len() implies #[trigger] c.key_at(j) == a.key_at(j) by {
        assert(b.key_at(j) == a.key_at(j));
    }
}

/// The code under each label, by name.
pub open spec fn label_map(labels: NameMap<String>) -> Map<Seq<char>, Seq<char>> {
    Map::new(|k: Seq<char>| labels.contains(k), |k: Seq<char>| labels.lookup(k)->0@)
}

/// The labels after emitting scope `s` under `label` and then each of its children, in
/// order, under a fresh label named by the child's index.
pub open spec fn traverse_effect(pd: ProgramData, s: int, label: Seq<char>, m: Map<Seq<char>, Seq<char>>) -> Map<
    Seq<char>,
    Seq<char>,
>
    decreases pd.scopes@.len() - s, pd.scopes@[s].children@.len() + 1,
{
    if 0 <= s < pd.scopes@.len() {
        children_effect(pd, s, pd.scopes@[s].children@.len() as int, m.insert(label, m[label] + scope_code(pd, s)))
    } else {
        m
    }
}

/// The labels after emitting the first `k` children of scope `s`, each under a fresh label.
pub open spec fn children_effect(pd: ProgramData, s: int, k: int, m: Map<Seq<char>, Seq<char>>) -> Map<
    Seq<char>,
    Seq<char>,
>
    decreases pd.scopes@.len() - s, k,
{
    if k <= 0 || k > pd.scopes@[s].children@.len() || s < 0 {
        m
    } else {
        let before = children_effect(pd, s, k - 1, m);
        let c = pd.scopes@[s].children@[k - 1] as int;
        if s < c < pd.scopes@.len() {
            traverse_effect(pd, c, nat_decimal(c as nat), before.insert(nat_decimal(c as nat), seq![]))
        } else {
            before
        }
    }
}

/// The labels after emitting the first `k` functions, each under its own name.
pub open spec fn functions_effect(pd: ProgramData, k: int) -> Map<Seq<char>, Seq<char>>
    decreases k,
{
    if k <= 0 {
        Map::empty()
    } else {
        let name = pd.functions.key_at(k - 1);
        traverse_effect(
            pd,
            pd.functions.value_at(k - 1).first_scope as int,
            name,
            functions_effect(pd, k - 1).insert(name, seq![]),
        )
    }
}

/// Emitting scopes only adds labels.
pub proof fn lemma_traverse_keeps(pd: ProgramData, s: int, label: Seq<char>, m: Map<Seq<char>, Seq<char>>)
    ensures
        m.dom().subset_of(traverse_effect(pd, s, label, m).dom()),
        0 <= s < pd.scopes@.len() ==> traverse_effect(pd, s, label, m).dom().contains(label),
    decreases pd.scopes@.len() - s, pd.scopes@[s].children@.len() + 1,
{
    if 0 <= s < pd.scopes@.len() {
        let m1 = m.insert(label, m[label] + scope_code(pd, s));
        lemma_children_keeps(pd, s, pd.scopes@[s].children@.len() as int, m1);
    }
}

/// Emitting children only adds labels.
pub proof fn lemma_children_keeps(pd: ProgramData, s: int, k: int, m: Map<Seq<char>, Seq<char>>)
    ensures
        m.dom().subset_of(children_effect(pd, s, k, m).dom()),
    decreases pd.scopes@.len() - s, k,
{
    if k <= 0 || k > pd.scopes@[s].children@.len() || s < 0 {
    } else {
        lemma_children_keeps(pd, s, k - 1, m);
        let before = children_effect(pd, s, k - 1, m);
        let c = pd.scopes@[s].children@[k - 1] as int;
        if s < c < pd.scopes@.len() {
            lemma_traverse_keeps(pd, c, nat_decimal(c as nat), before.insert(nat_decimal(c as nat), seq![]));
        }
    }
}

/// After all functions are emitted, each of them has a label under its own name.
pub proof fn lemma_every_function_labelled(pd: ProgramData, k: int)
    requires
        0 <= k <= pd.functions.entries@.len(),
    ensures
        forall|j: int| 0 <= j < k ==> functions_effect(pd, k).dom().contains(#[trigger] pd.functions.key_at(j)),
    decreases k,
{
    if k > 0 {
        lemma_every_function_labelled(pd, k - 1);
        let name = pd.functions.key_at(k - 1);
        let m = functions_effect(pd, k - 1).insert(name, seq![]);
        lemma_traverse_keeps(pd, pd.functions.value_at(k - 1).first_scope as int, name, m);
    }
}

pub struct CodeGenerator {
    pub program_data: ProgramData,
    pub stack_ptr: usize,
    pub labels: NameMap<String>,
}

impl CodeGenerator {
    /// The code under `label` so far.
    pub open spec fn label_code(&self, label: Seq<char>) -> Seq<char> {
        self.labels.lookup(label)->0@
    }

    /// A generator over `program_data`, with no labels yet.
    pub fn new(program_data: ProgramData) -> (r: Self)
        ensures
            r.program_data == program_data,
            r.stack_ptr == 0,
            r.labels.entries@.len() == 0,
            r.labels.wf(),
    {
        CodeGenerator { program_data, stack_ptr: 0, labels: NameMap::new() }
    }

    /// Appends `code` to the code under `label`.
    pub fn push_compiled_code_to_label(&mut self, label: &str, code: &str)
        requires
            old(self).labels.wf(),
            old(self).labels.contains(label@),
        ensures
            appended_to_label(final(self).labels, old(self).labels, label@, code@),
            final(self).program_data == old(self).program_data,
            final(self).stack_ptr == old(self).stack_ptr,
    {
        let ghost old_labels = self.labels;
        let i = self.labels.position(label).unwrap();
        let mut v = self.labels.entries[i].1.clone();
        push_str(&mut v, code);
        self.labels.set_value(i, v);
        proof {
            old_labels.lemma_same_keys(&self.labels);
            self.labels.lemma_lookup_at(i as int);
            old_labels.lemma_lookup_at(i as int);
            assert forall|k: Seq<char>| k != label@ implies #[trigger] self.labels.lookup(k) == old_labels.lookup(k) by {
                if old_labels.contains(k) {
                    let j = old_labels.index_of(k);
                    old_labels.lemma_lookup_at(j);
                    assert(j != i);
                }
            }
        }
    }

    /// The function prologue of scope `scope`'s function, under `label`.
    pub fn initialize_scope(&mut self, label: &str, scope: usize)
        requires
            old(self).program_data.tree_wf(),
            scope < old(self).program_data.scopes@.len(),
            old(self).labels.wf(),
            old(self).labels.contains(label@),
        ensures
            appended_to_label(
                final(self).labels,
                old(self).labels,
                label@,
                spec_create_scope(old(self).program_data.function_of(scope as int).stack_mem_allocated as nat),
            ),
            final(self).program_data == old(self).program_data,
            final(self).stack_ptr == old(self).stack_ptr,
    {
        let mem = self.program_data.get_func_stack_memory(scope);
        let code = create_scope(mem);
        self.push_compiled_code_to_label(label, code.as_str());
    }

    /// The function epilogue of scope `scope`'s function, under `label`.
    pub fn return_scope(&mut self, label: &str, scope: usize)
        requires
            old(self).program_data.tree_wf(),
            scope < old(self).program_data.scopes@.len(),
            old(self).labels.wf(),
            old(self).labels.contains(label@),
        ensures
            appended_to_label(
                final(self).labels,
                old(self).labels,
                label@,
                spec_destroy_scope(old(self).program_data.function_of(scope as int).stack_mem_allocated as nat),
            ),
            final(self).program_data == old(self).program_data,
            final(self).stack_ptr == old(self).stack_ptr,
    {
        let mem = self.program_data.get_func_stack_memory(scope);
        let code = destroy_scope(mem);
        self.push_compiled_code_to_label(label, code.as_str());
    }

    /// The scope of the first condition that holds between `a` and `b`, or `usize::MAX`.
    fn first_matching_scope(conditions: &Vec<CmpCondition>, a: i64, b: i64) -> (r: usize)
        ensures
            r != usize::MAX ==> first_true(conditions@, a, b) == Some(r),
            r == usize::MAX ==> (first_true(conditions@, a, b) is None || first_true(conditions@, a, b) == Some(
                usize::MAX,
            )),
    {
        let ghost conds = conditions@;
        let mut k: usize = 0;
        assert(conds.skip(0) =~= conds);
        while k < conditions.len()
            invariant
                k <= conds.len(),
                conds == conditions@,
                first_true(conds, a, b) == first_true(conds.skip(k as int), a, b),
            decreases conds.len() - k,
        {
            let condition = &conditions[k];
            let found_match = match condition.condition_type {
                CmpConditionType::Equal => a == b,
                CmpConditionType::NotEqual => a != b,
            };
            assert(conds.skip(k as int)[0] == conds[k as int]);
            if found_match {
                return condition.scope;
            }
            assert(conds.skip(k as int).drop_first() =~= conds.skip(k + 1));
            k = k + 1;
        }
        usize::MAX
    }

    /// The code of a compare whose operands are not both numbers.
    #[verifier::rlimit(40)]
    #[verifier::spinoff_prover]
    fn compile_register_compare(&self, comparison: &CgCompare) -> (r: String)
        requires
            compare_ok(*comparison),
            !(comparison.expressions[0] matches CgExpression::Literal(Literal::Number(_))
                && comparison.expressions[1] matches CgExpression::Literal(Literal::Number(_))),
        ensures
            r@ == compare_code(*comparison),
    {
        let swap = match (&comparison.expressions[0], &comparison.expressions[1]) {
            (CgExpression::Literal(_), CgExpression::Identifier(CgIdentifiers::StackVariableData(_))) => true,
            _ => false,
        };
        let (e0, e1) = if swap {
            (&comparison.expressions[1], &comparison.expressions[0])
        } else {
            (&comparison.expressions[0], &comparison.expressions[1])
        };
        let mut result = self.expr_to_temp_reg(e0, TempRegisters::T0);
        let x0 = temp_reg_for_type(VariableType::I64, false, TempRegisters::T0);
        match e1 {
            CgExpression::Literal(Literal::Number(num)) => {
                push_str(&mut result, "cmp ");
                push_str(&mut result, x0.as_str());
                push_str(&mut result, ", #");
                let n = i64_to_string(*num);
                push_str(&mut result, n.as_str());
                push_str(&mut result, "\n");
            },
            _ => {
                let load = self.expr_to_temp_reg(e1, TempRegisters::T1);
                push_str(&mut result, load.as_str());
                let x1 = temp_reg_for_type(VariableType::I64, false, TempRegisters::T1);
                push_str(&mut result, "cmp ");
                push_str(&mut result, x0.as_str());
                push_str(&mut result, ", ");
                push_str(&mut result, x1.as_str());
                push_str(&mut result, "\n");
            },
        }
        let ghost head = result@;
        let ghost conds = comparison.conditions@;
        let mut k: usize = 0;
        assert(conds.subrange(0, 0) =~= Seq::<CmpCondition>::empty());
        while k < comparison.conditions.len()
            invariant
                k <= conds.len(),
                conds == comparison.conditions@,
                result@ == head + branches_code(conds.subrange(0, k as int)),
            decreases conds.len() - k,
        {
            let condition = &comparison.conditions[k];
            push_str(&mut result, "b.");
            let suffix = condition.to_string();
            push_str(&mut result, suffix.as_str());
            push_str(&mut result, " _");
            let target = usize_to_string(condition.scope);
            push_str(&mut result, target.as_str());
            push_str(&mut result, "\n");
            proof {
                let pre = conds.subrange(0, k + 1);
                assert(pre.drop_last() =~= conds.subrange(0, k as int));
                assert(pre.last() == conds[k as int]);
            }
            k = k + 1;
        }
        assert(conds.subrange(0, k as int) =~= conds);
        let exit = goto(comparison.new_exit_label.as_str());
        push_str(&mut result, exit.as_str());
        push_str(&mut result, "_");
        push_str(&mut result, comparison.new_exit_label.as_str());
        push_str(&mut result, ":\n");
        result
    }

    /// The code of a compare.
    fn compile_compare(&self, comparison: &CgCompare) -> (r: String)
        requires
            compare_ok(*comparison),
        ensures
            r@ == compare_code(*comparison),
    {
        match (&comparison.expressions[0], &comparison.expressions[1]) {
            (CgExpression::Literal(Literal::Number(first_num)), CgExpression::Literal(Literal::Number(second_num))) => {
                let result = Self::first_matching_scope(&comparison.conditions, *first_num, *second_num);
                if result == usize::MAX {
                    return String::new();
                }
                let scope_name = usize_to_string(result);
                jump_to_function(scope_name.as_str())
            },
            _ => self.compile_register_compare(comparison),
        }
    }

    /// The code of a call.
    fn compile_call(&self, branch_linked: &CgBranchLinked) -> (r: String)
        requires
            self.program_data.tree_wf(),
            self.program_data.functions.lookup(branch_linked.function_name@) matches Some(f) && branch_linked.args@.len()
                >= f.args@.len() && forall|i: int|
                0 <= i < f.args@.len() ==> arg_ok(#[trigger] f.args@[i], branch_linked.args@[i], f.arg_stack_mem_allocated as nat),
        ensures
            ({
                let f = self.program_data.functions.lookup(branch_linked.function_name@)->0;
                r@ == call_code(branch_linked.function_name@, f.args@, f.arg_stack_mem_allocated as nat, branch_linked.args@)
            }),
    {
        let ghost f = self.program_data.functions.lookup(branch_linked.function_name@)->0;
        proof {
            reveal(ProgramData::tree_wf);
        }
        let function = self.program_data.functions.get(branch_linked.function_name.as_str()).unwrap();
        let params = duplicate_args(&function.args);
        let m = function.arg_stack_mem_allocated;
        let mut result = String::new();
        if m != 0 {
            let alloc = allocate_stack_memory(m);
            push_str(&mut result, alloc.as_str());
        }
        let ghost head = result@;
        let ghost args = branch_linked.args@;
        let mut i: usize = 0;
        while i < params.len()
            invariant
                i <= params@.len(),
                params@ == f.args@,
                m == f.arg_stack_mem_allocated,
                args == branch_linked.args@,
                args.len() >= params@.len(),
                forall|j: int| 0 <= j < params@.len() ==> arg_ok(#[trigger] params@[j], args[j], m as nat),
                result@ == head + args_code(params@, args, m as nat, i as int),
            decreases params@.len() - i,
        {
            let param = &params[i];
            let arg = &branch_linked.args[i];
            assert(arg_ok(params@[i as int], args[i as int], m as nat));
            let code = match &param.memory_location {
                MemoryLocationsAst::Register(register) => match arg {
                    CgExpression::Literal(Literal::Number(num)) => mov_num_to_reg(register.as_str(), *num),
                    CgExpression::Identifier(CgIdentifiers::StackVariableData(stack_var_data)) => variable_to_reg(
                        register.as_str(),
                        m + stack_var_data.offset,
                        stack_var_data.variable_type.duplicate(),
                    ),
                    _ => String::new(),
                },
                MemoryLocationsAst::Stack(stack_arg_offset) => match arg {
                    CgExpression::Literal(Literal::Number(num)) => {
                        let var_size = param.arg_var_type.get_variable_size();
                        store_literal_to_stack(param.arg_var_type.duplicate(), *num, m - *stack_arg_offset - var_size)
                    },
                    CgExpression::Identifier(CgIdentifiers::StackVariableData(stack_var_data)) => {
                        let var_size = stack_var_data.variable_type.get_variable_size();
                        let moved = CgExpression::Identifier(
                            CgIdentifiers::StackVariableData(
                                StackVariableData {
                                    offset: stack_var_data.offset + m,
                                    variable_type: stack_var_data.variable_type.duplicate(),
                                },
                            ),
                        );
                        self.init_var(m - *stack_arg_offset - var_size, stack_var_data.variable_type.duplicate(), &moved)
                    },
                    _ => String::new(),
                },
            };
            push_str(&mut result, code.as_str());
            i = i + 1;
        }
        let jump = jump_to_function(branch_linked.function_name.as_str());
        push_str(&mut result, jump.as_str());
        if m != 0 {
            let dealloc = deallocate_stack_memory(m);
            push_str(&mut result, dealloc.as_str());
        }
        result
    }

    /// The code of one lowered statement.
    fn compile_statement(&self, statement: &CgStatement) -> (r: String)
        requires
            self.program_data.tree_wf(),
            statement_ok(self.program_data, *statement),
        ensures
            r@ == statement_code(self.program_data, *statement),
    {
        match &statement.statement_type {
            CgStatementType::Compare(comparison) => self.compile_compare(comparison),
            CgStatementType::VariableAssignment(var_init) => match &var_init.assign_type {
                CgVariableAssignmentType::CompileTimeStackOffset(offset) => self.init_var(
                    *offset,
                    var_init.variable_type.duplicate(),
                    &var_init.assign_value,
                ),
                _ => String::new(),
            },
            CgStatementType::BuiltInFunction(built_in_function) => match built_in_function {
                CgBuiltInFunctions::Branch(branch) => goto(branch.branch_name.as_str()),
                CgBuiltInFunctions::BranchLinked(branch_linked) => self.compile_call(branch_linked),
                CgBuiltInFunctions::Assembly(assembly_code) => assembly_code.clone(),
            },
        }
    }

    /// Whether the code of every lowered statement of the program can be emitted.
    pub fn emittable(&self) -> (r: bool)
        requires
            self.program_data.tree_wf(),
        ensures
            r == program_ok(self.program_data),
    {
        let ghost pd = self.program_data;
        proof {
            reveal(ProgramData::tree_wf);
        }
        let mut s: usize = 0;
        while s < self.program_data.scopes.len()
            invariant
                pd == self.program_data,
                pd.functions.wf(),
                s <= pd.scopes@.len(),
                forall|t: int| 0 <= t < s ==> #[trigger] scope_ok(pd, t),
            decreases pd.scopes@.len() - s,
        {
            let mut k: usize = 0;
            while k < self.program_data.scopes[s].cg_statements.len()
                invariant
                    pd == self.program_data,
                    pd.functions.wf(),
                    s < pd.scopes@.len(),
                    k <= pd.scopes@[s as int].cg_statements@.len(),
                    forall|j: int| 0 <= j < k ==> statement_ok(pd, #[trigger] pd.scopes@[s as int].cg_statements@[j]),
                decreases pd.scopes@[s as int].cg_statements@.len() - k,
            {
                if !can_emit_statement(&self.program_data, &self.program_data.scopes[s].cg_statements[k]) {
                    assert(!scope_ok(pd, s as int));
                    return false;
                }
                k = k + 1;
            }
            s = s + 1;
        }
        true
    }

    /// Appends the code of `statement` under `label`.
    pub fn process_statement(&mut self, statement: &CgStatement, label: &str, scope: usize)
        requires
            old(self).program_data.tree_wf(),
            old(self).labels.wf(),
            old(self).labels.contains(label@),
            statement_ok(old(self).program_data, *statement),
        ensures
            appended_to_label(final(self).labels, old(self).labels, label@, statement_code(old(self).program_data, *statement)),
            final(self).program_data == old(self).program_data,
            final(self).stack_ptr == old(self).stack_ptr,
    {
        let code = self.compile_statement(statement);
        self.push_compiled_code_to_label(label, code.as_str());
    }

    pub fn get_scope_by_index(&self, index: usize) -> (r: &Scope)
        requires
            index < self.program_data.scopes@.len(),
        ensures
            *r == self.program_data.scopes@[index as int],
    {
        self.program_data.get_scope_by_index(index)
    }

    pub fn get_scope_by_index_mut(&mut self, index: usize) -> (r: &mut Scope)
        requires
            index < old(self).program_data.scopes@.len(),
        ensures
            *r == old(self).program_data.scopes@[index as int],
            final(self).program_data.scopes@ == old(self).program_data.scopes@.update(index as int, *final(r)),
            final(self).program_data.functions == old(self).program_data.functions,
            final(self).labels == old(self).labels,
            final(self).stack_ptr == old(self).stack_ptr,
    {
        self.program_data.get_scope_by_index_mut(index)
    }

    /// Appends the code of scope `scope` under `label`: its statements, between the function's
    /// prologue and epilogue when it is a function's outermost scope.
    pub fn process_scope(&mut self, scope: usize, label: &str)
        requires
            old(self).program_data.tree_wf(),
            scope < old(self).program_data.scopes@.len(),
            old(self).labels.wf(),
            old(self).labels.contains(label@),
            scope_ok(old(self).program_data, scope as int),
        ensures
            appended_to_label(final(self).labels, old(self).labels, label@, scope_code(old(self).program_data, scope as int)),
            final(self).program_data == old(self).program_data,
            final(self).stack_ptr == old(self).stack_ptr,
    {
        let ghost pd = self.program_data;
        let ghost sc = pd.scopes@[scope as int];
        let ghost mem = pd.function_of(scope as int).stack_mem_allocated as nat;
        let scope_parent = self.get_scope_by_index(scope).parent;
        proof {
            lemma_appended_refl(self.labels, label@);
        }
        if scope_parent == NO_PARENT {
            self.initialize_scope(label, scope);
        }
        let ghost head = if sc.parent == NO_PARENT { spec_create_scope(mem) } else { seq![] };
        let ghost labels0 = old(self).labels;
        let count = self.program_data.scopes[scope].cg_statements.len();
        let mut k: usize = 0;
        assert(sc.cg_statements@.subrange(0, 0) =~= Seq::<CgStatement>::empty());
        assert(head + statements_code(pd, sc.cg_statements@.subrange(0, 0)) =~= head);
        while k < count
            invariant
                self.program_data == pd,
                pd == old(self).program_data,
                pd.tree_wf(),
                scope < pd.scopes@.len(),
                sc == pd.scopes@[scope as int],
                count == sc.cg_statements@.len(),
                k <= count,
                scope_ok(pd, scope as int),
                labels0 == old(self).labels,
                appended_to_label(self.labels, labels0, label@, head + statements_code(pd, sc.cg_statements@.subrange(0, k as int))),
                self.stack_ptr == old(self).stack_ptr,
            decreases count - k,
        {
            let ghost before = self.labels;
            let code = self.compile_statement(&self.program_data.scopes[scope].cg_statements[k]);
            self.push_compiled_code_to_label(label, code.as_str());
            proof {
                lemma_appended_trans(labels0, before, self.labels, label@, head + statements_code(pd, sc.cg_statements@.subrange(0, k as int)), code@);
                let pre = sc.cg_statements@.subrange(0, k + 1);
                assert(pre.drop_last() =~= sc.cg_statements@.subrange(0, k as int));
                assert(pre.last() == sc.cg_statements@[k as int]);
                assert(head + statements_code(pd, sc.cg_statements@.subrange(0, k as int)) + code@ =~= head + statements_code(pd, pre));
            }
            k = k + 1;
        }
        assert(sc.cg_statements@.subrange(0, k as int) =~= sc.cg_statements@);
        if scope_parent == NO_PARENT {
            let ghost before = self.labels;
            self.return_scope(label, scope);
            proof {
                lemma_appended_trans(labels0, before, self.labels, label@, head + statements_code(pd, sc.cg_statements@), spec_destroy_scope(mem));
            }
        } else {
            assert(head + statements_code(pd, sc.cg_statements@) + seq![] =~= head + statements_code(pd, sc.cg_statements@));
        }
    }

    /// Appends the code of scope `scope_index` under `label`, then gives each child scope,
    /// in order, a fresh label named by its index and emits it and its own children there.
    pub fn traverse_scope_children(&mut self, scope_index: usize, label: &str)
        requires
            old(self).program_data.tree_wf(),
            subtree_ok(old(self).program_data, scope_index as int),
            scope_index < old(self).program_data.scopes@.len(),
            old(self).labels.wf(),
            old(self).labels.contains(label@),
        ensures
            final(self).labels.wf(),
            label_map(final(self).labels) == traverse_effect(
                old(self).program_data,
                scope_index as int,
                label@,
                label_map(old(self).labels),
            ),
            final(self).program_data == old(self).program_data,
            final(self).stack_ptr == old(self).stack_ptr,
        decreases old(self).program_data.scopes@.len() - scope_index,
    {
        let ghost pd = self.program_data;
        let ghost m0 = label_map(self.labels);
        proof {
            pd.lemma_tree_scope(scope_index as int);
        }
        self.process_scope(scope_index, label);
        proof {
            lemma_label_map_appended(self.labels, old(self).labels, label@, scope_code(pd, scope_index as int));
        }
        let count = self.program_data.scopes[scope_index].children.len();
        let ghost children = pd.scopes@[scope_index as int].children@;
        let ghost m1 = m0.insert(label@, m0[label@] + scope_code(pd, scope_index as int));
        let mut i: usize = 0;
        while i < count
            invariant
                self.program_data == pd,
                pd == old(self).program_data,
                pd.tree_wf(),
                subtree_ok(pd, scope_index as int),
                scope_index < pd.scopes@.len(),
                children == pd.scopes@[scope_index as int].children@,
                count == children.len(),
                i <= count,
                self.labels.wf(),
                label_map(self.labels) == children_effect(pd, scope_index as int, i as int, m1),
                self.stack_ptr == old(self).stack_ptr,
            decreases count - i,
        {
            let child = self.program_data.scopes[scope_index].children[i];
            assert(scope_index < child < pd.scopes@.len()) by {
                pd.lemma_tree_scope(scope_index as int);
                assert(children[i as int] == child);
            }
            proof {
                lemma_children_ok_at(pd, scope_index as int, count as int, i as int);
            }
            let key = usize_to_string(child);
            let name = usize_to_string(child);
            let ghost before = self.labels;
            self.labels.insert(key, String::new());
            proof {
                lemma_label_map_inserted(self.labels, before, name@, seq![]);
            }
            self.traverse_scope_children(child, name.as_str());
            i = i + 1;
        }
    }

    /// Emits scope `scope_index` and everything nested in it, starting under the label
    /// `func_name`.
    pub fn process_scope_and_children(&mut self, scope_index: usize, func_name: &str)
        requires
            old(self).program_data.tree_wf(),
            subtree_ok(old(self).program_data, scope_index as int),
            scope_index < old(self).program_data.scopes@.len(),
            old(self).labels.wf(),
            old(self).labels.contains(func_name@),
        ensures
            final(self).labels.wf(),
            label_map(final(self).labels) == traverse_effect(
                old(self).program_data,
                scope_index as int,
                func_name@,
                label_map(old(self).labels),
            ),
            final(self).program_data == old(self).program_data,
            final(self).stack_ptr == old(self).stack_ptr,
    {
        self.traverse_scope_children(scope_index, func_name);
    }

    /// Emits every function, in order, each under a label of its own name.
    pub fn process_all_functions(&mut self)
        requires
            old(self).program_data.tree_wf(),
            program_ok(old(self).program_data),
            old(self).labels.wf(),
            old(self).labels.entries@.len() == 0,
        ensures
            final(self).labels.wf(),
            label_map(final(self).labels) == functions_effect(
                old(self).program_data,
                old(self).program_data.functions.entries@.len() as int,
            ),
            forall|j: int|
                0 <= j < old(self).program_data.functions.entries@.len() ==> final(self).labels.contains(
                    #[trigger] old(self).program_data.functions.key_at(j),
                ),
            final(self).program_data == old(self).program_data,
            final(self).stack_ptr == old(self).stack_ptr,
    {
        let ghost pd = self.program_data;
        let count = self.program_data.functions.len();
        let mut i: usize = 0;
        assert(label_map(self.labels) =~= Map::<Seq<char>, Seq<char>>::empty());
        while i < count
            invariant
                self.program_data == pd,
                pd.tree_wf(),
                program_ok(pd),
                count == pd.functions.entries@.len(),
                i <= count,
                self.labels.wf(),
                label_map(self.labels) == functions_effect(pd, i as int),
                self.stack_ptr == old(self).stack_ptr,
            decreases count - i,
        {
            proof {
                pd.lemma_tree_function(i as int);
            }
            let key = self.program_data.functions.entries[i].0.clone();
            let name = self.program_data.functions.entries[i].0.clone();
            let first_scope = self.program_data.functions.entries[i].1.first_scope;
            proof {
                lemma_program_subtree_ok(pd, first_scope as int);
            }
            let ghost before = self.labels;
            self.labels.insert(key, String::new());
            proof {
                lemma_label_map_inserted(self.labels, before, name@, seq![]);
            }
            self.process_scope_and_children(first_scope, name.as_str());
            i = i + 1;
        }
        proof {
            lemma_every_function_labelled(pd, count as int);
            assert forall|j: int| 0 <= j < count implies self.labels.contains(#[trigger] pd.functions.key_at(j)) by {
                assert(label_map(self.labels).dom().contains(pd.functions.key_at(j)));
            }
        }
    }

    /// The assembly text of all labels, in the order they were created: each as
    /// `_<name>:`, its code, and a blank line.
    pub fn process_labels(&self) -> (r: String)
        ensures
            r@ == labels_text(self.labels.entries@),
    {
        let mut result = String::new();
        let mut i: usize = 0;
        assert(self.labels.entries@.subrange(0, 0) =~= Seq::<(String, String)>::empty());
        while i < self.labels.entries.len()
            invariant
                i <= self.labels.entries@.len(),
                result@ == labels_text(self.labels.entries@.subrange(0, i as int)),
            decreases self.labels.entries@.len() - i,
        {
            push_str(&mut result, "_");
            push_str(&mut result, self.labels.entries[i].0.as_str());
            push_str(&mut result, ":\n");
            push_str(&mut result, self.labels.entries[i].1.as_str());
            push_str(&mut result, "\n");
            proof {
                let pre = self.labels.entries@.subrange(0, i + 1);
                assert(pre.drop_last() =~= self.labels.entries@.subrange(0, i as int));
                assert(pre.last() == self.labels.entries@[i as int]);
            }
            i = i + 1;
        }
        assert(self.labels.entries@.subrange(0, i as int) =~= self.labels.entries@);
        result
    }

    /// The code that loads `expr` into the scratch register `temp_reg`.
    pub fn expr_to_temp_reg(&self, expr: &CgExpression, temp_reg: TempRegisters) -> (r: String)
        requires
            reg_loadable(*expr),
        ensures
            r@ == reg_load_code(*expr, temp_reg),
    {
        match expr {
            CgExpression::Literal(Literal::Number(num)) => {
                let reg = temp_reg_for_type(VariableType::I64, false, temp_reg);
                mov_num_to_reg(reg.as_str(), *num)
            },
            CgExpression::Identifier(CgIdentifiers::StackVariableData(stack_var_data)) => {
                let reg = temp_reg_for_type(stack_var_data.variable_type.duplicate(), true, temp_reg);
                variable_to_reg(reg.as_str(), stack_var_data.offset, stack_var_data.variable_type.duplicate())
            },
            _ => String::new(),
        }
    }

    /// The code that stores `expression`, as type `variable_type`, into the slot
    /// `target_offset` bytes above `sp`.
    pub fn init_var(&self, target_offset: usize, variable_type: VariableType, expression: &CgExpression) -> (r: String)
        requires
            init_ok(target_offset as nat, variable_type, *expression),
        ensures
            r@ == init_code(target_offset as nat, variable_type, *expression),
        decreases expression,
    {
        match expression {
            CgExpression::Literal(Literal::Number(num)) => store_literal_to_stack(variable_type, *num, target_offset),
            CgExpression::Identifier(CgIdentifiers::StackVariableData(stack_var_data)) => {
                let load_reg = temp_reg_for_type(variable_type.duplicate(), true, TempRegisters::T0);
                let mut code = variable_to_reg(load_reg.as_str(), stack_var_data.offset, variable_type.duplicate());
                let store_reg = temp_reg_for_type(variable_type.duplicate(), false, TempRegisters::T0);
                let store = store_reg_to_stack(store_reg.as_str(), target_offset, variable_type);
                push_str(&mut code, store.as_str());
                code
            },
            CgExpression::Literal(Literal::Array(arr_expr)) => {
                let arr = match variable_type {
                    VariableType::Array(arr) => arr,
                    _ => return String::new(),
                };
                let ghost all = arr_expr.cg_items@;
                let item_type = *arr.variable_type;
                let item_size = item_type.get_variable_size();
                let mut res = String::new();
                let mut i: usize = 0;
                assert(all.subrange(0, 0) =~= Seq::<CgExpression>::empty());
                while i < arr_expr.cg_items.len()
                    invariant
                        i <= all.len(),
                        item_size == item_type.spec_size(),
                        items_init_ok(target_offset as nat, item_type, all),
                        res@ == items_init_code(target_offset as nat, item_type, all.subrange(0, i as int)),
                        *expression == CgExpression::Literal(Literal::Array(*arr_expr)),
                        all == arr_expr.cg_items@,

                    decreases all.len() - i,
                {
                    proof {
                        lemma_items_init_prefix(target_offset as nat, item_type, all, i as int + 1);
                        let pre = all.subrange(0, i + 1);
                        assert(pre.drop_last() =~= all.subrange(0, i as int));
                        assert(pre.last() == all[i as int]);
                        broadcast use vstd::std_specs::vec::axiom_vec_index_decreases;
                        assert(decreases_to!(arr_expr.cg_items => arr_expr.cg_items[i as int]));
                        assert(decreases_to!(*expression => (*expression)->Literal_0));
                        assert(decreases_to!((*expression)->Literal_0 => (*expression)->Literal_0->Array_0));
                        assert(decreases_to!(*arr_expr => arr_expr.cg_items));
                        assert(decreases_to!(*expression => arr_expr.cg_items[i as int]));
                    }
                    let offset = i * item_size + target_offset;
                    let init_code = self.init_var(offset, item_type.duplicate(), &arr_expr.cg_items[i]);
                    push_str(&mut res, init_code.as_str());
                    i = i + 1;
                }
                assert(all.subrange(0, i as int) =~= all);
                res
            },
            _ => String::new(),
        }
    }
}

/// Whether `e` can be loaded into a scratch register.
pub fn is_reg_loadable(e: &CgExpression) -> (r: bool)
    ensures
        r == reg_loadable(*e),
{
    match e {
        CgExpression::Literal(Literal::Number(_)) => true,
        CgExpression::Identifier(CgIdentifiers::StackVariableData(d)) => d.variable_type.is_number_type(),
        _ => false,
    }
}

/// Whether the code that stores `e`, as type `t`, at `target` can be emitted.
pub fn can_init(target: usize, t: &VariableType, e: &CgExpression) -> (r: bool)
    ensures
        r == init_ok(target as nat, *t, *e),
    decreases e,
{
    match e {
        CgExpression::Literal(Literal::Number(_)) => t.is_number_type(),
        CgExpression::Identifier(CgIdentifiers::StackVariableData(_)) => t.is_number_type(),
        CgExpression::Literal(Literal::Array(arr_expr)) => {
            let arr = match t {
                VariableType::Array(arr) => arr,
                _ => return false,
            };
            let item_type: &VariableType = &arr.variable_type;
            let item_size = match item_type.checked_size() {
                Some(n) => n,
                None => return false,
            };
            let ghost all = arr_expr.cg_items@;
            let mut i: usize = 0;
            assert(all.subrange(0, 0) =~= Seq::<CgExpression>::empty());
            while i < arr_expr.cg_items.len()
                invariant
                    i <= all.len(),
                    all == arr_expr.cg_items@,
                    item_type.size_fits(),
                    item_size == item_type.spec_size(),
                    items_init_ok(target as nat, *item_type, all.subrange(0, i as int)),
                    *e == CgExpression::Literal(Literal::Array(*arr_expr)),
                    *t == VariableType::Array(*arr),
                    *item_type == *arr.variable_type,
                decreases all.len() - i,
            {
                proof {
                    broadcast use vstd::std_specs::vec::axiom_vec_index_decreases;
                    assert(decreases_to!(arr_expr.cg_items => arr_expr.cg_items[i as int]));
                    assert(decreases_to!(*e => (*e)->Literal_0));
                    assert(decreases_to!((*e)->Literal_0 => (*e)->Literal_0->Array_0));
                    assert(decreases_to!(*arr_expr => arr_expr.cg_items));
                    assert(decreases_to!(*e => arr_expr.cg_items[i as int]));
                }
                let ok = match i.checked_mul(item_size) {
                    Some(off) => match target.checked_add(off) {
                        Some(slot) => can_init(slot, item_type, &arr_expr.cg_items[i]),
                        None => false,
                    },
                    None => false,
                };
                let ghost pre = all.subrange(0, i + 1);
                proof {
                    assert(pre.drop_last() =~= all.subrange(0, i as int));
                    assert(pre.last() == all[i as int]);
                }
                if !ok {
                    proof {
                        if items_init_ok(target as nat, *item_type, all) {
                            lemma_items_init_prefix(target as nat, *item_type, all, i as int + 1);
                        }
                    }
                    return false;
                }
                i = i + 1;
            }
            assert(all.subrange(0, i as int) =~= all);
            true
        },
        _ => false,
    }
}

/// Whether the code of a compare can be emitted.
pub fn can_compare(c: &CgCompare) -> (r: bool)
    ensures
        r == compare_ok(*c),
{
    match (&c.expressions[0], &c.expressions[1]) {
        (CgExpression::Literal(Literal::Number(_)), CgExpression::Literal(Literal::Number(_))) => true,
        _ => {
            let swap = match (&c.expressions[0], &c.expressions[1]) {
                (CgExpression::Literal(_), CgExpression::Identifier(CgIdentifiers::StackVariableData(_))) => true,
                _ => false,
            };
            if swap {
                is_reg_loadable(&c.expressions[1]) && is_reg_loadable(&c.expressions[0])
            } else {
                is_reg_loadable(&c.expressions[0]) && is_reg_loadable(&c.expressions[1])
            }
        },
    }
}

/// Whether the code that passes `a` for parameter `p` can be emitted, `m` bytes of stack
/// arguments having been reserved.
pub fn can_pass_arg(p: &FunctionArg, a: &CgExpression, m: usize) -> (r: bool)
    ensures
        r == arg_ok(*p, *a, m as nat),
{
    match &p.memory_location {
        MemoryLocationsAst::Register(_) => match a {
            CgExpression::Literal(Literal::Number(_)) => true,
            CgExpression::Identifier(CgIdentifiers::StackVariableData(d)) => d.variable_type.is_number_type()
                && m.checked_add(d.offset).is_some(),
            _ => false,
        },
        MemoryLocationsAst::Stack(off) => match a {
            CgExpression::Literal(Literal::Number(_)) => {
                if !p.arg_var_type.is_number_type() {
                    return false;
                }
                let size = p.arg_var_type.get_variable_size();
                match off.checked_add(size) {
                    Some(end) => end <= m,
                    None => false,
                }
            },
            CgExpression::Identifier(CgIdentifiers::StackVariableData(d)) => {
                if !d.variable_type.is_number_type() {
                    return false;
                }
                let size = d.variable_type.get_variable_size();
                let fits = match off.checked_add(size) {
                    Some(end) => end <= m,
                    None => false,
                };
                fits && d.offset.checked_add(m).is_some()
            },
            _ => false,
        },
    }
}

/// Whether the code of a lowered statement can be emitted.
pub fn can_emit_statement(pd: &ProgramData, st: &CgStatement) -> (r: bool)
    requires
        pd.functions.wf(),
    ensures
        r == statement_ok(*pd, *st),
{
    match &st.statement_type {
        CgStatementType::Compare(c) => can_compare(c),
        CgStatementType::VariableAssignment(va) => match &va.assign_type {
            CgVariableAssignmentType::CompileTimeStackOffset(off) => can_init(*off, &va.variable_type, &va.assign_value),
            _ => true,
        },
        CgStatementType::BuiltInFunction(CgBuiltInFunctions::BranchLinked(bl)) => match pd.functions.get(
            bl.function_name.as_str(),
        ) {
            Some(f) => {
                if bl.args.len() < f.args.len() {
                    return false;
                }
                let mut i: usize = 0;
                while i < f.args.len()
                    invariant
                        i <= f.args@.len(),
                        bl.args@.len() >= f.args@.len(),
                        pd.functions.lookup(bl.function_name@) == Some(*f),
                        st.statement_type == CgStatementType::BuiltInFunction(CgBuiltInFunctions::BranchLinked(*bl)),
                        forall|j: int|
                            0 <= j < i ==> arg_ok(#[trigger] f.args@[j], bl.args@[j], f.arg_stack_mem_allocated as nat),
                    decreases f.args@.len() - i,
                {
                    if !can_pass_arg(&f.args[i], &bl.args[i], f.arg_stack_mem_allocated) {
                        assert(!arg_ok(f.args@[i as int], bl.args@[i as int], f.arg_stack_mem_allocated as nat));
                        return false;
                    }
                    i = i + 1;
                }
                true
            },
            None => false,
        },
        _ => true,
    }
}

/// The labels are the same, in the same places, with the same code, but under `label`,
/// which has `code` appended.
pub open spec fn appended_to_label(new: NameMap<String>, old: NameMap<String>, label: Seq<char>, code: Seq<char>) -> bool {
    &&& new.wf()
    &&& new.entries@.len() == old.entries@.len()
    &&& forall|j: int| 0 <= j < old.entries@.len() ==> #[trigger] new.key_at(j) == old.key_at(j)
    &&& forall|j: int| 0 <= j < old.entries@.len() && old.key_at(j) != label ==> #[trigger] new.value_at(j) == old.value_at(j)
    &&& new.contains(label)
    &&& new.lookup(label)->0@ == old.lookup(label)->0@ + code
    &&& forall|k: Seq<char>| k != label ==> #[trigger] new.lookup(k) == old.lookup(k)
}

/// Appending code under a label changes only that label's code.
pub proof fn lemma_label_map_appended(new: NameMap<String>, old: NameMap<String>, label: Seq<char>, code: Seq<char>)
    requires
        old.contains(label),
        appended_to_label(new, old, label, code),
    ensures
        label_map(new) == label_map(old).insert(label, label_map(old)[label] + code),
{
    assert forall|k: Seq<char>| k != label implies #[trigger] new.contains(k) == old.contains(k) by {
        assert(new.lookup(k) == old.lookup(k));
    }
    assert(label_map(new) =~= label_map(old).insert(label, label_map(old)[label] + code));
}

/// Storing a value under a name changes only that name's entry.
pub proof fn lemma_label_map_inserted(new: NameMap<String>, old: NameMap<String>, k: Seq<char>, v: Seq<char>)
    requires
        new.lookup(k) matches Some(s) && s@ == v,
        forall|k2: Seq<char>| k2 != k ==> #[trigger] new.lookup(k2) == old.lookup(k2),
    ensures
        label_map(new) == label_map(old).insert(k, v),
{
    assert forall|k2: Seq<char>| k2 != k implies #[trigger] new.contains(k2) == old.contains(k2) by {
        assert(new.lookup(k2) == old.lookup(k2));
    }
    assert(label_map(new) =~= label_map(old).insert(k, v));
}

/// A prefix of items that can be emitted is made of items that can be emitted.
pub proof fn lemma_items_init_prefix(target: nat, t: VariableType, items: Seq<CgExpression>, n: int)
    requires
        items_init_ok(target, t, items),
        0 < n <= items.len(),
    ensures
        items_init_ok(target, t, items.subrange(0, n)),
        ((n - 1) as nat) * t.spec_size() <= usize::MAX,
        init_ok(target + ((n - 1) as nat) * t.spec_size(), t, items[n - 1]),
    decreases items.len(),
{
    if n < items.len() {
        assert(items.drop_last().subrange(0, n) =~= items.subrange(0, n));
        lemma_items_init_prefix(target, t, items.drop_last(), n);
    } else {
        assert(items.subrange(0, n) =~= items);
    }
}

} // verus!

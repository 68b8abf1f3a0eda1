//! Builders for the ARM64 instruction sequences the code generator emits.
use vstd::prelude::*;
use crate::text::{i64_to_string, int_decimal, nat_decimal, push_str, usize_to_string};
use crate::datatypes::ast_statements::VariableType;

verus! {

pub enum StackDestination {
    StackPointer,
    StackFramePointer,
}

#[derive(Clone, Copy, Debug, PartialEq, Eq, Structural)]
pub enum TempRegisters {
    T0,
    T1,
    T2,
}

/// The 64-bit (`x`) or 32-bit (`w`) name of a scratch register.
pub open spec fn spec_reg_name(reg: TempRegisters, wide: bool) -> Seq<char> {
    match reg {
        TempRegisters::T0 => if wide { "x10"@ } else { "w10"@ },
        TempRegisters::T1 => if wide { "x11"@ } else { "w11"@ },
        TempRegisters::T2 => if wide { "x12"@ } else { "w12"@ },
    }
}

/// Whether a value of type `t` lives in the 64-bit view of a register: 64-bit types
/// always, signed narrow types when loaded (they are sign-extended to 64 bits).
pub open spec fn uses_wide_reg(t: VariableType, load_instruction: bool) -> bool {
    match t {
        VariableType::I64 | VariableType::U64 => true,
        VariableType::I8 | VariableType::I16 | VariableType::I32 => load_instruction,
        _ => false,
    }
}

pub open spec fn spec_temp_reg_for_type(t: VariableType, load_instruction: bool, reg: TempRegisters) -> Seq<char> {
    spec_reg_name(reg, uses_wide_reg(t, load_instruction))
}

/// The scratch register that holds a value of type `var_type`.
pub fn temp_reg_for_type(var_type: VariableType, load_instruction: bool, reg: TempRegisters) -> (r: String)
    requires
        var_type.is_number(),
    ensures
        r@ == spec_temp_reg_for_type(var_type, load_instruction, reg),
{
    let wide = match var_type {
        VariableType::I64 | VariableType::U64 => true,
        VariableType::I8 | VariableType::I16 | VariableType::I32 => load_instruction,
        _ => false,
    };
    match reg {
        TempRegisters::T0 => if wide { "x10".to_owned() } else { "w10".to_owned() },
        TempRegisters::T1 => if wide { "x11".to_owned() } else { "w11".to_owned() },
        TempRegisters::T2 => if wide { "x12".to_owned() } else { "w12".to_owned() },
    }
}

pub open spec fn spec_load_instruction(t: VariableType) -> Seq<char> {
    match t {
        VariableType::I8 => "ldrsb"@,
        VariableType::I16 => "ldrsh"@,
        VariableType::I32 => "ldrsw"@,
        VariableType::I64 => "ldr"@,
        VariableType::U8 => "ldrb"@,
        VariableType::U16 => "ldrh"@,
        VariableType::U32 => "ldr"@,
        VariableType::U64 => "ldr"@,
        _ => seq![],
    }
}

/// The load mnemonic for a value of type `var_type` (sign-extending for signed types).
pub fn load_instruction_for_type(var_type: VariableType) -> (r: String)
    requires
        var_type.is_number(),
    ensures
        r@ == spec_load_instruction(var_type),
{
    match var_type {
        VariableType::I8 => "ldrsb".to_owned(),
        VariableType::I16 => "ldrsh".to_owned(),
        VariableType::I32 => "ldrsw".to_owned(),
        VariableType::I64 => "ldr".to_owned(),
        VariableType::U8 => "ldrb".to_owned(),
        VariableType::U16 => "ldrh".to_owned(),
        VariableType::U32 => "ldr".to_owned(),
        VariableType::U64 => "ldr".to_owned(),
        _ => String::new(),
    }
}

pub open spec fn spec_store_instruction(t: VariableType) -> Seq<char> {
    match t {
        VariableType::I8 => "strb"@,
        VariableType::I16 => "strh"@,
        VariableType::I32 => "str"@,
        VariableType::I64 => "str"@,
        VariableType::U8 => "strb"@,
        VariableType::U16 => "strh"@,
        VariableType::U32 => "str"@,
        VariableType::U64 => "str"@,
        _ => seq![],
    }
}

/// The store mnemonic for a value of type `var_type`.
pub fn store_instruction_for_type(var_type: VariableType) -> (r: String)
    requires
        var_type.is_number(),
    ensures
        r@ == spec_store_instruction(var_type),
{
    match var_type {
        VariableType::I8 => "strb".to_owned(),
        VariableType::I16 => "strh".to_owned(),
        VariableType::I32 => "str".to_owned(),
        VariableType::I64 => "str".to_owned(),
        VariableType::U8 => "strb".to_owned(),
        VariableType::U16 => "strh".to_owned(),
        VariableType::U32 => "str".to_owned(),
        VariableType::U64 => "str".to_owned(),
        _ => String::new(),
    }
}

pub open spec fn spec_store_reg_to_stack(reg: Seq<char>, offset: nat, t: VariableType) -> Seq<char> {
    spec_store_instruction(t) + " "@ + reg + ", [sp, #"@ + nat_decimal(offset) + "]\n"@
}

/// Stores register `reg` into the stack slot `offset` bytes above `sp`.
pub fn store_reg_to_stack(reg: &str, offset: usize, var_type: VariableType) -> (r: String)
    requires
        var_type.is_number(),
    ensures
        r@ == spec_store_reg_to_stack(reg@, offset as nat, var_type),
{
    let mut s = store_instruction_for_type(var_type);
    push_str(&mut s, " ");
    push_str(&mut s, reg);
    push_str(&mut s, ", [sp, #");
    let o = usize_to_string(offset);
    push_str(&mut s, o.as_str());
    push_str(&mut s, "]\n");
    s
}

pub open spec fn spec_mov_num_to_reg(reg: Seq<char>, num: int) -> Seq<char> {
    "mov "@ + reg + ", #"@ + int_decimal(num) + "\n"@
}

/// Loads the constant `num` into register `reg`.
pub fn mov_num_to_reg(reg: &str, num: i64) -> (r: String)
    ensures
        r@ == spec_mov_num_to_reg(reg@, num as int),
{
    let mut s = "mov ".to_owned();
    push_str(&mut s, reg);
    push_str(&mut s, ", #");
    let n = i64_to_string(num);
    push_str(&mut s, n.as_str());
    push_str(&mut s, "\n");
    s
}

pub open spec fn spec_store_literal_to_stack(t: VariableType, num: int, offset: nat) -> Seq<char> {
    let reg = spec_temp_reg_for_type(t, false, TempRegisters::T0);
    spec_mov_num_to_reg(reg, num) + spec_store_reg_to_stack(reg, offset, t)
}

/// Writes the constant `num` into the stack slot `offset` bytes above `sp`, through the
/// first scratch register.
pub fn store_literal_to_stack(var_type: VariableType, num: i64, offset: usize) -> (r: String)
    requires
        var_type.is_number(),
    ensures
        r@ == spec_store_literal_to_stack(var_type, num as int, offset as nat),
{
    let temp_reg = temp_reg_for_type(var_type.duplicate(), false, TempRegisters::T0);
    let mut s = mov_num_to_reg(temp_reg.as_str(), num);
    let store = store_reg_to_stack(temp_reg.as_str(), offset, var_type);
    push_str(&mut s, store.as_str());
    s
}

pub open spec fn spec_allocate_stack_memory(bytes: nat) -> Seq<char> {
    "sub sp, sp, #"@ + nat_decimal(bytes) + "\n"@
}

/// Moves `sp` down by `bytes`.
pub fn allocate_stack_memory(bytes: usize) -> (r: String)
    ensures
        r@ == spec_allocate_stack_memory(bytes as nat),
{
    let mut s = "sub sp, sp, #".to_owned();
    let n = usize_to_string(bytes);
    push_str(&mut s, n.as_str());
    push_str(&mut s, "\n");
    s
}

pub open spec fn spec_deallocate_stack_memory(bytes: nat) -> Seq<char> {
    "add sp, sp, #"@ + nat_decimal(bytes) + "\n"@
}

/// Moves `sp` up by `bytes`.
pub fn deallocate_stack_memory(bytes: usize) -> (r: String)
    ensures
        r@ == spec_deallocate_stack_memory(bytes as nat),
{
    let mut s = "add sp, sp, #".to_owned();
    let n = usize_to_string(bytes);
    push_str(&mut s, n.as_str());
    push_str(&mut s, "\n");
    s
}

pub open spec fn spec_jump_to_function(name: Seq<char>) -> Seq<char> {
    "bl _"@ + name + "\n"@
}

/// Calls the label `_<function_name>`, saving the return address.
pub fn jump_to_function(function_name: &str) -> (r: String)
    ensures
        r@ == spec_jump_to_function(function_name@),
{
    let mut s = "bl _".to_owned();
    push_str(&mut s, function_name);
    push_str(&mut s, "\n");
    s
}

pub open spec fn spec_goto(label: Seq<char>) -> Seq<char> {
    "b _"@ + label + "\n"@
}

/// Branches to the label `_<label>`.
pub fn goto(label: &str) -> (r: String)
    ensures
        r@ == spec_goto(label@),
{
    let mut s = "b _".to_owned();
    push_str(&mut s, label);
    push_str(&mut s, "\n");
    s
}

pub open spec fn spec_create_scope(bytes: nat) -> Seq<char> {
    if bytes == 0 {
        "str x30, [sp, #-16]!\n"@
    } else {
        "str x30, [sp, #-16]!\n"@ + spec_allocate_stack_memory(bytes)
    }
}

/// Function prologue: saves the link register, then reserves `stack_memory_allocate`
/// bytes of frame when there are any.
pub fn create_scope(stack_memory_allocate: usize) -> (r: String)
    ensures
        r@ == spec_create_scope(stack_memory_allocate as nat),
{
    let mut s = "str x30, [sp, #-16]!\n".to_owned();
    if stack_memory_allocate != 0 {
        let alloc = allocate_stack_memory(stack_memory_allocate);
        push_str(&mut s, alloc.as_str());
    }
    s
}

pub open spec fn spec_destroy_scope(bytes: nat) -> Seq<char> {
    if bytes == 0 {
        "ldr x30, [sp], #16\nret\n"@
    } else {
        spec_deallocate_stack_memory(bytes) + "ldr x30, [sp], #16\nret\n"@
    }
}

/// Function epilogue: releases the frame, restores the link register and returns.
pub fn destroy_scope(stack_memory_allocated: usize) -> (r: String)
    ensures
        r@ == spec_destroy_scope(stack_memory_allocated as nat),
{
    let mut s = String::new();
    if stack_memory_allocated != 0 {
        s = deallocate_stack_memory(stack_memory_allocated);
    }
    push_str(&mut s, "ldr x30, [sp], #16\nret\n");
    s
}

pub open spec fn spec_variable_to_reg(reg: Seq<char>, offset: nat, t: VariableType) -> Seq<char> {
    spec_load_instruction(t) + " "@ + reg + ", [sp, #"@ + nat_decimal(offset) + "]\n"@
}

/// Loads the stack slot `offset` bytes above `sp` into register `reg`.
pub fn variable_to_reg(reg: &str, offset: usize, var_type: VariableType) -> (r: String)
    requires
        var_type.is_number(),
    ensures
        r@ == spec_variable_to_reg(reg@, offset as nat, var_type),
{
    let mut s = load_instruction_for_type(var_type);
    push_str(&mut s, " ");
    push_str(&mut s, reg);
    push_str(&mut s, ", [sp, #");
    let o = usize_to_string(offset);
    push_str(&mut s, o.as_str());
    push_str(&mut s, "]\n");
    s
}

/// The bytes a store of a value of type `t` writes, read off its instruction: `strb` one,
/// `strh` two, `str` of a 32-bit (`w`) register four, of a 64-bit (`x`) register eight.
pub open spec fn store_width(t: VariableType) -> nat {
    let instr = spec_store_instruction(t);
    let reg = spec_temp_reg_for_type(t, false, TempRegisters::T0);
    if instr == "strb"@ {
        1
    } else if instr == "strh"@ {
        2
    } else if instr == "str"@ && reg == "w10"@ {
        4
    } else if instr == "str"@ && reg == "x10"@ {
        8
    } else {
        0
    }
}

/// The bytes a load of a value of type `t` reads, read off its instruction: the byte loads
/// one, the halfword loads two, `ldrsw` four, `ldr` four into a `w` register and eight into
/// an `x` register.
pub open spec fn load_width(t: VariableType) -> nat {
    let instr = spec_load_instruction(t);
    let reg = spec_temp_reg_for_type(t, true, TempRegisters::T0);
    if instr == "ldrb"@ || instr == "ldrsb"@ {
        1
    } else if instr == "ldrh"@ || instr == "ldrsh"@ {
        2
    } else if instr == "ldrsw"@ || (instr == "ldr"@ && reg == "w10"@) {
        4
    } else if instr == "ldr"@ && reg == "x10"@ {
        8
    } else {
        0
    }
}

/// A variable's size is the width its loads and stores move: every integer type takes as
/// many bytes on the stack as the instructions that read and write it.
pub proof fn lemma_size_is_access_width(t: VariableType)
    requires
        t.is_number(),
    ensures
        store_width(t) == t.spec_size(),
        load_width(t) == t.spec_size(),
{
    reveal_strlit("strb");
    reveal_strlit("strh");
    reveal_strlit("str");
    reveal_strlit("w10");
    reveal_strlit("x10");
    reveal_strlit("ldrb");
    reveal_strlit("ldrsb");
    reveal_strlit("ldrh");
    reveal_strlit("ldrsh");
    reveal_strlit("ldrsw");
    reveal_strlit("ldr");
    assert("str"@ != "strb"@) by {
        assert("str"@.len() != "strb"@.len());
    }
    assert("str"@ != "strh"@) by {
        assert("str"@.len() != "strh"@.len());
    }
    assert("w10"@ != "x10"@) by {
        assert("w10"@[0] != "x10"@[0]);
    }
    assert("strb"@ != "strh"@) by {
        assert("strb"@[3] != "strh"@[3]);
    }
    assert("ldrb"@ != "ldrh"@) by {
        assert("ldrb"@[3] != "ldrh"@[3]);
    }
    assert("ldrsb"@ != "ldrsh"@) by {
        assert("ldrsb"@[4] != "ldrsh"@[4]);
    }
    assert("ldrsb"@ != "ldrsw"@) by {
        assert("ldrsb"@[4] != "ldrsw"@[4]);
    }
    assert("ldrsh"@ != "ldrsw"@) by {
        assert("ldrsh"@[4] != "ldrsw"@[4]);
    }
    assert("ldrb"@ != "ldrsb"@) by {
        assert("ldrb"@.len() != "ldrsb"@.len());
    }
    assert("ldrh"@ != "ldrsh"@) by {
        assert("ldrh"@.len() != "ldrsh"@.len());
    }
    assert("ldr"@ != "ldrb"@) by {
        assert("ldr"@.len() != "ldrb"@.len());
    }
    assert("ldr"@ != "ldrh"@) by {
        assert("ldr"@.len() != "ldrh"@.len());
    }
    assert("ldr"@ != "ldrsb"@) by {
        assert("ldr"@.len() != "ldrsb"@.len());
    }
    assert("ldr"@ != "ldrsh"@) by {
        assert("ldr"@.len() != "ldrsh"@.len());
    }
    assert("ldr"@ != "ldrsw"@) by {
        assert("ldr"@.len() != "ldrsw"@.len());
    }
    assert("ldrb"@ != "ldrsh"@) by {
        assert("ldrb"@.len() != "ldrsh"@.len());
    }
    assert("ldrh"@ != "ldrsb"@) by {
        assert("ldrh"@.len() != "ldrsb"@.len());
    }
    assert("ldrb"@ != "ldrsw"@) by {
        assert("ldrb"@.len() != "ldrsw"@.len());
    }
    assert("ldrh"@ != "ldrsw"@) by {
        assert("ldrh"@.len() != "ldrsw"@.len());
    }
}

} // verus!

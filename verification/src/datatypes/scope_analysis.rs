//! Scope analysis: builds the scope tree of each function, places variables in their
//! scopes, and files each statement under the scope it belongs to.
use vstd::prelude::*;
use crate::datatypes::ast_statements::{copies_of, same_expr, same_stmt, 
    CmpCondition, Compare, Function, Statement, Statements, VariableDeclaration, duplicate_args, duplicate_statements,
};
use crate::datatypes::name_map::NameMap;
use crate::datatypes::program_data::ProgramData;
use crate::datatypes::scope::{NO_PARENT, Scope, StackVariable};
use crate::text::push_str;

verus! {

/// The two scopes agree on everything but their statement lists.
pub open spec fn same_scope_shape(a: Scope, b: Scope) -> bool {
    &&& a.variables == b.variables
    &&& a.stack_mem_allocated == b.stack_mem_allocated
    &&& a.children == b.children
    &&& a.parent == b.parent
    &&& a.function == b.function
}

/// Changing only the statement lists of scopes keeps the forest and the variable layout.
pub proof fn lemma_same_shape(new: &ProgramData, old: &ProgramData)
    requires
        old.tree_wf(),
        old.vars_wf(),
        new.functions == old.functions,
        new.scopes@.len() == old.scopes@.len(),
        forall|i: int| 0 <= i < old.scopes@.len() ==> same_scope_shape(#[trigger] new.scopes@[i], old.scopes@[i]),
    ensures
        new.tree_wf(),
        new.vars_wf(),
{
    reveal(ProgramData::tree_wf);
    reveal(ProgramData::vars_wf);
    assert forall|i: int, k: int|
        0 <= i < new.scopes@.len() && 0 <= k < new.scopes@[i].children@.len() implies {
            &&& i < #[trigger] new.scopes@[i].children@[k] < new.scopes@.len()
            &&& new.scopes@[new.scopes@[i].children@[k] as int].parent == i
        } by {
        assert(same_scope_shape(new.scopes@[i], old.scopes@[i]));
        assert(old.scopes@[i].children@[k] == new.scopes@[i].children@[k]);
        assert(same_scope_shape(new.scopes@[new.scopes@[i].children@[k] as int], old.scopes@[old.scopes@[i].children@[k] as int]));
    }
    assert forall|i: int|
        0 <= i < new.scopes@.len() && (#[trigger] new.scopes@[i]).parent != NO_PARENT implies {
            &&& new.scopes@[i].parent < i
            &&& new.scopes@[new.scopes@[i].parent as int].children@.contains(i as usize)
            &&& new.scopes@[i].function@ == new.scopes@[new.scopes@[i].parent as int].function@
        } by {
        assert(same_scope_shape(new.scopes@[i], old.scopes@[i]));
        assert(old.scopes@[i].parent != NO_PARENT);
        assert(same_scope_shape(new.scopes@[new.scopes@[i].parent as int], old.scopes@[old.scopes@[i].parent as int]));
    }
    assert forall|j: int| 0 <= j < new.functions.entries@.len() implies {
        &&& (#[trigger] new.functions.value_at(j)).first_scope < new.scopes@.len()
        &&& new.scopes@[new.functions.value_at(j).first_scope as int].parent == NO_PARENT
        &&& new.scopes@[new.functions.value_at(j).first_scope as int].function@ == new.functions.key_at(j)
    } by {
        assert(old.functions.value_at(j).first_scope < old.scopes@.len());
        assert(same_scope_shape(new.scopes@[new.functions.value_at(j).first_scope as int], old.scopes@[old.functions.value_at(j).first_scope as int]));
    }
    assert forall|i: int|
        0 <= i < new.scopes@.len() && (#[trigger] new.scopes@[i]).parent == NO_PARENT
            implies new.functions.lookup(new.scopes@[i].function@)->0.first_scope == i by {
        assert(same_scope_shape(new.scopes@[i], old.scopes@[i]));
    }
    assert forall|i: int| 0 <= i < new.scopes@.len() implies new.functions.contains((#[trigger] new.scopes@[i]).function@) by {
        assert(same_scope_shape(new.scopes@[i], old.scopes@[i]));
    }
    assert forall|i: int| 0 <= i < new.scopes@.len() implies (#[trigger] new.scopes@[i]).variables.wf() by {
        assert(same_scope_shape(new.scopes@[i], old.scopes@[i]));
    }
    assert forall|i: int, k: int|
        0 <= i < new.scopes@.len() && 0 <= k < new.scopes@[i].variables.entries@.len() implies {
            let v = #[trigger] new.scopes@[i].variables.value_at(k);
            &&& v.variable_type.size_fits()
            &&& v.variable_size == v.variable_type.spec_size()
            &&& v.offset + v.variable_size <= new.scopes@[i].stack_mem_allocated
            &&& forall|k2: int|
                k < k2 < new.scopes@[i].variables.entries@.len() ==> v.offset + v.variable_size
                    <= (#[trigger] new.scopes@[i].variables.value_at(k2)).offset
        } by {
        assert(same_scope_shape(new.scopes@[i], old.scopes@[i]));
        assert(old.scopes@[i].variables.value_at(k) == new.scopes@[i].variables.value_at(k));
    }
}


/// `new` is `old` with an empty child scope added under scope `p`, at the end.
pub open spec fn child_added(new: &ProgramData, old: &ProgramData, p: int) -> bool {
    let n = old.scopes@.len() as int;
    &&& 0 <= p < n
    &&& p != NO_PARENT
    &&& n < usize::MAX
    &&& new.functions == old.functions
    &&& new.scopes@.len() == n + 1
    &&& forall|i: int| 0 <= i < n && i != p ==> #[trigger] new.scopes@[i] == old.scopes@[i]
    &&& new.scopes@[p].variables == old.scopes@[p].variables
    &&& new.scopes@[p].stack_mem_allocated == old.scopes@[p].stack_mem_allocated
    &&& new.scopes@[p].parent == old.scopes@[p].parent
    &&& new.scopes@[p].function == old.scopes@[p].function
    &&& new.scopes@[p].children@ == old.scopes@[p].children@.push(n as usize)
    &&& new.scopes@[n].variables.entries@.len() == 0
    &&& new.scopes@[n].stack_mem_allocated == 0
    &&& new.scopes@[n].children@.len() == 0
    &&& new.scopes@[n].parent == p
    &&& new.scopes@[n].function@ == old.scopes@[p].function@
}

proof fn lemma_add_child_children(new: &ProgramData, old: &ProgramData, p: int)
    requires
        old.tree_wf(),
        child_added(new, old, p),
    ensures
        forall|i: int, k: int|
            0 <= i < new.scopes@.len() && 0 <= k < new.scopes@[i].children@.len() ==> {
                &&& i < #[trigger] new.scopes@[i].children@[k] < new.scopes@.len()
                &&& new.scopes@[new.scopes@[i].children@[k] as int].parent == i
            },
{
    let n = old.scopes@.len() as int;
    assert forall|i: int, k: int|
        0 <= i < new.scopes@.len() && 0 <= k < new.scopes@[i].children@.len() implies {
            &&& i < #[trigger] new.scopes@[i].children@[k] < new.scopes@.len()
            &&& new.scopes@[new.scopes@[i].children@[k] as int].parent == i
        } by {
        old.lemma_tree_scope(p);
        if i == p {
            if k < old.scopes@[p].children@.len() {
                assert(new.scopes@[i].children@[k] == old.scopes@[p].children@[k]);
                let c = old.scopes@[p].children@[k] as int;
                assert(p < c < n);
                assert(new.scopes@[c] == old.scopes@[c]);
            } else {
                assert(new.scopes@[i].children@[k] == n as usize);
            }
        } else if i < n {
            old.lemma_tree_scope(i);
            assert(new.scopes@[i] == old.scopes@[i]);
            assert(new.scopes@[i].children@[k] == old.scopes@[i].children@[k]);
            let c = old.scopes@[i].children@[k] as int;
            assert(i < c < n);
            if c == p {
                assert(old.scopes@[p].parent == i);
            } else {
                assert(new.scopes@[c] == old.scopes@[c]);
            }
        } else {
            assert(new.scopes@[i].children@.len() == 0);
        }
    }
}

proof fn lemma_add_child_parents(new: &ProgramData, old: &ProgramData, p: int)
    requires
        old.tree_wf(),
        child_added(new, old, p),
    ensures
        forall|i: int|
            0 <= i < new.scopes@.len() && (#[trigger] new.scopes@[i]).parent != NO_PARENT ==> {
                &&& new.scopes@[i].parent < i
                &&& new.scopes@[new.scopes@[i].parent as int].children@.contains(i as usize)
                &&& new.scopes@[i].function@ == new.scopes@[new.scopes@[i].parent as int].function@
            },
{
    let n = old.scopes@.len() as int;
    assert forall|i: int|
        0 <= i < new.scopes@.len() && (#[trigger] new.scopes@[i]).parent != NO_PARENT implies {
            &&& new.scopes@[i].parent < i
            &&& new.scopes@[new.scopes@[i].parent as int].children@.contains(i as usize)
            &&& new.scopes@[i].function@ == new.scopes@[new.scopes@[i].parent as int].function@
        } by {
        if i == n {
            assert(new.scopes@[p].children@[old.scopes@[p].children@.len() as int] == n as usize);
        } else {
            old.lemma_tree_scope(i);
            let q = old.scopes@[i].parent as int;
            if q == p {
                let k = choose|k: int|
                    0 <= k < old.scopes@[p].children@.len() && old.scopes@[p].children@[k] == i as usize;
                assert(new.scopes@[p].children@[k] == i as usize);
            }
        }
    }
}

/// Adding an empty child scope under scope `p` keeps the forest and the variable layout.
pub proof fn lemma_add_child(new: &ProgramData, old: &ProgramData, p: int)
    requires
        old.tree_wf(),
        old.vars_wf(),
        child_added(new, old, p),
    ensures
        new.tree_wf(),
        new.vars_wf(),
{
    lemma_add_child_children(new, old, p);
    lemma_add_child_parents(new, old, p);
    reveal(ProgramData::tree_wf);
    let n = old.scopes@.len() as int;
    assert forall|j: int| 0 <= j < new.functions.entries@.len() implies {
        &&& (#[trigger] new.functions.value_at(j)).first_scope < new.scopes@.len()
        &&& new.scopes@[new.functions.value_at(j).first_scope as int].parent == NO_PARENT
        &&& new.scopes@[new.functions.value_at(j).first_scope as int].function@ == new.functions.key_at(j)
    } by {
        assert(old.functions.value_at(j).first_scope < old.scopes@.len());
    }
    assert forall|i: int|
        0 <= i < new.scopes@.len() && (#[trigger] new.scopes@[i]).parent == NO_PARENT
            implies new.functions.lookup(new.scopes@[i].function@)->0.first_scope == i by {
        assert(i != n);
    }
    assert forall|i: int| 0 <= i < new.scopes@.len() implies new.functions.contains((#[trigger] new.scopes@[i]).function@) by {
        if i == n {
            assert(old.functions.contains(old.scopes@[p].function@));
        }
    }
    assert forall|i: int| 0 <= i < new.scopes@.len() implies (#[trigger] new.scopes@[i]).variables.wf() by {
        if i < n {
            assert(old.scopes@[i].variables.wf());
        }
    }
    lemma_add_child_vars(new, old, p);
}

proof fn lemma_add_child_vars(new: &ProgramData, old: &ProgramData, p: int)
    requires
        old.vars_wf(),
        child_added(new, old, p),
    ensures
        new.vars_wf(),
{
    reveal(ProgramData::vars_wf);
    let n = old.scopes@.len() as int;
    assert forall|i: int, k: int|
        0 <= i < new.scopes@.len() && 0 <= k < new.scopes@[i].variables.entries@.len() implies {
            let v = #[trigger] new.scopes@[i].variables.value_at(k);
            &&& v.variable_type.size_fits()
            &&& v.variable_size == v.variable_type.spec_size()
            &&& v.offset + v.variable_size <= new.scopes@[i].stack_mem_allocated
            &&& forall|k2: int|
                k < k2 < new.scopes@[i].variables.entries@.len() ==> v.offset + v.variable_size
                    <= (#[trigger] new.scopes@[i].variables.value_at(k2)).offset
        } by {
        assert(i < n);
        assert(old.scopes@[i].variables.value_at(k) == new.scopes@[i].variables.value_at(k));
    }
}

/// Adding the outermost scope of a new function, and the function itself, keeps the forest
/// and the variable layout.
#[verifier::rlimit(30)]
pub proof fn lemma_add_function(new: &ProgramData, old: &ProgramData, name: Seq<char>, f: Function)
    requires
        old.tree_wf(),
        old.vars_wf(),
        !old.functions.contains(name),
        new.functions.wf(),
        new.functions.keys() == old.functions.keys().push(name),
        new.functions.entries@.len() == old.functions.entries@.len() + 1,
        forall|j: int| 0 <= j < old.functions.entries@.len() ==> #[trigger] new.functions.entries@[j] == old.functions.entries@[j],
        new.functions.lookup(name) == Some(f),
        f.first_scope == old.scopes@.len(),
        new.scopes@.len() == old.scopes@.len() + 1,
        forall|i: int| 0 <= i < old.scopes@.len() ==> #[trigger] new.scopes@[i] == old.scopes@[i],
        new.scopes@[old.scopes@.len() as int].variables.entries@.len() == 0,
        new.scopes@[old.scopes@.len() as int].stack_mem_allocated == 0,
        new.scopes@[old.scopes@.len() as int].children@.len() == 0,
        new.scopes@[old.scopes@.len() as int].parent == NO_PARENT,
        new.scopes@[old.scopes@.len() as int].function@ == name,
    ensures
        new.tree_wf(),
        new.vars_wf(),
{
    reveal(ProgramData::tree_wf);
    reveal(ProgramData::vars_wf);
    let n = old.scopes@.len() as int;
    let m = old.functions.entries@.len() as int;
    assert(new.functions.key_at(m) == name) by {
        assert(new.functions.keys()[m] == name);
    }
    assert forall|j: int| 0 <= j < m implies #[trigger] new.functions.key_at(j) == old.functions.key_at(j) by {
        assert(new.functions.entries@[j] == old.functions.entries@[j]);
    }
    assert forall|k: Seq<char>| k != name implies #[trigger] new.functions.lookup(k) == old.functions.lookup(k) by {
        if old.functions.contains(k) {
            let j = old.functions.index_of(k);
            old.functions.lemma_lookup_at(j);
            assert(new.functions.key_at(j) == k);
            new.functions.lemma_lookup_at(j);
        } else if new.functions.contains(k) {
            let j = new.functions.index_of(k);
            if j < m {
                assert(old.functions.key_at(j) == k);
            }
        }
    }
    assert forall|i: int, k: int|
        0 <= i < new.scopes@.len() && 0 <= k < new.scopes@[i].children@.len() implies {
            &&& i < #[trigger] new.scopes@[i].children@[k] < new.scopes@.len()
            &&& new.scopes@[new.scopes@[i].children@[k] as int].parent == i
        } by {
        assert(i < n);
    }
    assert forall|i: int|
        0 <= i < new.scopes@.len() && (#[trigger] new.scopes@[i]).parent != NO_PARENT implies {
            &&& new.scopes@[i].parent < i
            &&& new.scopes@[new.scopes@[i].parent as int].children@.contains(i as usize)
            &&& new.scopes@[i].function@ == new.scopes@[new.scopes@[i].parent as int].function@
        } by {
        assert(i < n);
    }
    assert forall|j: int| 0 <= j < new.functions.entries@.len() implies {
        &&& (#[trigger] new.functions.value_at(j)).first_scope < new.scopes@.len()
        &&& new.scopes@[new.functions.value_at(j).first_scope as int].parent == NO_PARENT
        &&& new.scopes@[new.functions.value_at(j).first_scope as int].function@ == new.functions.key_at(j)
    } by {
        if j < m {
            assert(new.functions.entries@[j] == old.functions.entries@[j]);
            assert(old.functions.value_at(j).first_scope < old.scopes@.len());
        } else {
            new.functions.lemma_lookup_at(m);
        }
    }
    assert forall|i: int|
        0 <= i < new.scopes@.len() && (#[trigger] new.scopes@[i]).parent == NO_PARENT
            implies new.functions.lookup(new.scopes@[i].function@)->0.first_scope == i by {
        if i < n {
            assert(old.functions.contains(old.scopes@[i].function@));
            assert(old.scopes@[i].function@ != name);
        }
    }
    assert forall|i: int| 0 <= i < new.scopes@.len() implies new.functions.contains((#[trigger] new.scopes@[i]).function@) by {
        if i < n {
            assert(old.functions.contains(old.scopes@[i].function@));
            assert(old.scopes@[i].function@ != name);
            assert(new.functions.lookup(old.scopes@[i].function@) == old.functions.lookup(old.scopes@[i].function@));
        } else {
            assert(new.functions.key_at(m) == name);
        }
    }
    assert forall|i: int| 0 <= i < new.scopes@.len() implies (#[trigger] new.scopes@[i]).variables.wf() by {
        if i < n {
            assert(old.scopes@[i].variables.wf());
        }
    }
    assert forall|i: int, k: int|
        0 <= i < new.scopes@.len() && 0 <= k < new.scopes@[i].variables.entries@.len() implies {
            let v = #[trigger] new.scopes@[i].variables.value_at(k);
            &&& v.variable_type.size_fits()
            &&& v.variable_size == v.variable_type.spec_size()
            &&& v.offset + v.variable_size <= new.scopes@[i].stack_mem_allocated
            &&& forall|k2: int|
                k < k2 < new.scopes@[i].variables.entries@.len() ==> v.offset + v.variable_size
                    <= (#[trigger] new.scopes@[i].variables.value_at(k2)).offset
        } by {
        assert(i < n);
        assert(old.scopes@[i].variables.value_at(k) == new.scopes@[i].variables.value_at(k));
    }
}

/// Placing a new variable at the end of scope `i`'s allocation keeps the forest and the
/// variable layout.
#[verifier::rlimit(30)]
pub proof fn lemma_add_var(new: &ProgramData, old: &ProgramData, i: int, name: String, v: StackVariable)
    requires
        old.tree_wf(),
        old.vars_wf(),
        0 <= i < old.scopes@.len(),
        new.functions == old.functions,
        new.scopes@.len() == old.scopes@.len(),
        forall|j: int| 0 <= j < old.scopes@.len() && j != i ==> #[trigger] new.scopes@[j] == old.scopes@[j],
        new.scopes@[i].children == old.scopes@[i].children,
        new.scopes@[i].parent == old.scopes@[i].parent,
        new.scopes@[i].function == old.scopes@[i].function,
        new.scopes@[i].variables.wf(),
        new.scopes@[i].variables.entries@ == old.scopes@[i].variables.entries@.push((name, v)),
        v.offset == old.scopes@[i].stack_mem_allocated,
        v.variable_type.size_fits(),
        v.variable_size == v.variable_type.spec_size(),
        new.scopes@[i].stack_mem_allocated == old.scopes@[i].stack_mem_allocated + v.variable_size,
    ensures
        new.tree_wf(),
        new.vars_wf(),
{
    reveal(ProgramData::tree_wf);
    reveal(ProgramData::vars_wf);
    let m = old.scopes@[i].variables.entries@.len() as int;
    assert forall|a: int, k: int|
        0 <= a < new.scopes@.len() && 0 <= k < new.scopes@[a].children@.len() implies {
            &&& a < #[trigger] new.scopes@[a].children@[k] < new.scopes@.len()
            &&& new.scopes@[new.scopes@[a].children@[k] as int].parent == a
        } by {
        assert(new.scopes@[a].children@[k] == old.scopes@[a].children@[k]);
        let c = old.scopes@[a].children@[k] as int;
        assert(new.scopes@[c].parent == old.scopes@[c].parent);
    }
    assert forall|a: int|
        0 <= a < new.scopes@.len() && (#[trigger] new.scopes@[a]).parent != NO_PARENT implies {
            &&& new.scopes@[a].parent < a
            &&& new.scopes@[new.scopes@[a].parent as int].children@.contains(a as usize)
            &&& new.scopes@[a].function@ == new.scopes@[new.scopes@[a].parent as int].function@
        } by {
        assert(old.scopes@[a].parent != NO_PARENT);
        let q = old.scopes@[a].parent as int;
        assert(new.scopes@[q].children == old.scopes@[q].children);
        assert(new.scopes@[q].function == old.scopes@[q].function);
    }
    assert forall|j: int| 0 <= j < new.functions.entries@.len() implies {
        &&& (#[trigger] new.functions.value_at(j)).first_scope < new.scopes@.len()
        &&& new.scopes@[new.functions.value_at(j).first_scope as int].parent == NO_PARENT
        &&& new.scopes@[new.functions.value_at(j).first_scope as int].function@ == new.functions.key_at(j)
    } by {
        assert(old.functions.value_at(j).first_scope < old.scopes@.len());
    }
    assert forall|a: int|
        0 <= a < new.scopes@.len() && (#[trigger] new.scopes@[a]).parent == NO_PARENT
            implies new.functions.lookup(new.scopes@[a].function@)->0.first_scope == a by {
        assert(old.scopes@[a].parent == NO_PARENT);
    }
    assert forall|a: int| 0 <= a < new.scopes@.len() implies new.functions.contains((#[trigger] new.scopes@[a]).function@) by {
        assert(old.functions.contains(old.scopes@[a].function@));
    }
    assert forall|a: int| 0 <= a < new.scopes@.len() implies (#[trigger] new.scopes@[a]).variables.wf() by {
        if a != i {
            assert(old.scopes@[a].variables.wf());
        }
    }
    assert forall|a: int, k: int|
        0 <= a < new.scopes@.len() && 0 <= k < new.scopes@[a].variables.entries@.len() implies {
            let w = #[trigger] new.scopes@[a].variables.value_at(k);
            &&& w.variable_type.size_fits()
            &&& w.variable_size == w.variable_type.spec_size()
            &&& w.offset + w.variable_size <= new.scopes@[a].stack_mem_allocated
            &&& forall|k2: int|
                k < k2 < new.scopes@[a].variables.entries@.len() ==> w.offset + w.variable_size
                    <= (#[trigger] new.scopes@[a].variables.value_at(k2)).offset
        } by {
        if a != i {
            assert(old.scopes@[a].variables.value_at(k) == new.scopes@[a].variables.value_at(k));
        } else if k < m {
            let w = old.scopes@[i].variables.value_at(k);
            assert(new.scopes@[a].variables.value_at(k) == w);
            assert forall|k2: int|
                k < k2 < new.scopes@[a].variables.entries@.len() implies w.offset + w.variable_size
                    <= (#[trigger] new.scopes@[a].variables.value_at(k2)).offset by {
                if k2 < m {
                    assert(new.scopes@[a].variables.value_at(k2) == old.scopes@[i].variables.value_at(k2));
                } else {
                    assert(new.scopes@[a].variables.value_at(k2) == v);
                }
            }
        } else {
            assert(new.scopes@[a].variables.value_at(k) == v);
        }
    }
}


/// `before` is a prefix of `after`.
pub open spec fn seq_extends<T>(after: Seq<T>, before: Seq<T>) -> bool {
    &&& before.len() <= after.len()
    &&& forall|i: int| 0 <= i < before.len() ==> after[i] == before[i]
}

/// The outcome of declaring `var` in scope `c`: a name already visible from `c` is a
/// duplicate; a type whose size, or the scope's allocation after it, does not fit in `usize`
/// does not fit in memory; otherwise the variable takes the next bytes of `c`'s allocation.
pub open spec fn var_placed(new: ProgramData, old: ProgramData, c: int, var: VariableDeclaration) -> bool {
    let before = old.scopes@[c];
    let after = new.scopes@[c];
    if old.var_scope(c, var.name@) is Some {
        &&& same_scope_shape(after, before)
        &&& new.errors@.len() == old.errors@.len() + 1
        &&& new.errors@.last()@ == "Duplicate variable: "@ + var.name@
    } else if !var.variable_type.size_fits() || before.stack_mem_allocated + var.variable_type.spec_size() > usize::MAX {
        &&& same_scope_shape(after, before)
        &&& new.errors@.len() == old.errors@.len() + 1
        &&& new.errors@.last()@ == "Variable does not fit in memory: "@ + var.name@
    } else {
        &&& new.errors == old.errors
        &&& after.variables.lookup(var.name@) == Some(
            StackVariable {
                variable_type: var.variable_type,
                variable_size: var.variable_type.spec_size() as usize,
                offset: before.stack_mem_allocated,
            },
        )
        &&& after.stack_mem_allocated == before.stack_mem_allocated + var.variable_type.spec_size()
        &&& after.variables.entries@.len() == before.variables.entries@.len() + 1
        &&& after.variables.entries@.subrange(0, before.variables.entries@.len() as int) == before.variables.entries@
        &&& after.variables.key_at(before.variables.entries@.len() as int) == var.name@
        &&& after.variables.value_at(before.variables.entries@.len() as int) == StackVariable {
            variable_type: var.variable_type,
            variable_size: var.variable_type.spec_size() as usize,
            offset: before.stack_mem_allocated,
        }
    }
}

/// The bytes that the variables `entries` take, one after the other.
pub open spec fn sizes_sum(entries: Seq<(String, StackVariable)>) -> nat
    decreases entries.len(),
{
    if entries.len() == 0 {
        0
    } else {
        sizes_sum(entries.drop_last()) + (entries.last().1.variable_size as nat)
    }
}

/// The variables of `sc` lie one after the other in the order they were declared, the first
/// at offset 0, and together they take exactly the scope's allocation.
pub open spec fn packed(sc: Scope) -> bool {
    let entries = sc.variables.entries@;
    &&& forall|k: int| 0 <= k < entries.len() ==> (#[trigger] entries[k]).1.offset == sizes_sum(entries.take(k))
    &&& sc.stack_mem_allocated == sizes_sum(entries)
}

/// Declaring a variable keeps a scope's variables packed: each new variable takes the bytes
/// right after the last one, and the allocation grows by its size.
pub proof fn lemma_declaration_keeps_packed(new: ProgramData, old: ProgramData, c: int, var: VariableDeclaration)
    requires
        0 <= c < old.scopes@.len(),
        c < new.scopes@.len(),
        var_placed(new, old, c, var),
        packed(old.scopes@[c]),
    ensures
        packed(new.scopes@[c]),
{
    let before = old.scopes@[c];
    let after = new.scopes@[c];
    if old.var_scope(c, var.name@) is Some || !var.variable_type.size_fits() || before.stack_mem_allocated
        + var.variable_type.spec_size() > usize::MAX {
        assert(after.variables == before.variables);
    } else {
        let e0 = before.variables.entries@;
        let e1 = after.variables.entries@;
        assert(e1.drop_last() =~= e0);
        assert forall|k: int| 0 <= k < e1.len() implies (#[trigger] e1[k]).1.offset == sizes_sum(e1.take(k)) by {
            if k < e0.len() {
                assert(e1.take(k) =~= e0.take(k));
                assert(e1[k] == e0[k]);
            } else {
                assert(e1.take(k) =~= e0);
            }
        }
    }
}

/// `stored` is the statement `st` as a scope holds it once filed: a compare keeps its place,
/// its compared expressions and its conditions (kinds and bodies), each condition now naming a
/// scope of its own; any other statement is a copy of `st`.
pub open spec fn filed_copy(stored: Statement, st: Statement) -> bool {
    match st.statement_type {
        Statements::Compare(c) => {
            &&& stored.col == st.col
            &&& stored.line == st.line
            &&& stored.start_pos == st.start_pos
            &&& stored.end_pos == st.end_pos
            &&& stored.statement_type matches Statements::Compare(sc)
            &&& (c.expressions[0].vec_free() ==> sc.expressions[0] == c.expressions[0])
            &&& (c.expressions[1].vec_free() ==> sc.expressions[1] == c.expressions[1])
            &&& same_expr(sc.expressions[0], c.expressions[0])
            &&& same_expr(sc.expressions[1], c.expressions[1])
            &&& sc.conditions@.len() == c.conditions@.len()
            &&& forall|k: int|
                0 <= k < c.conditions@.len() ==> (#[trigger] sc.conditions@[k]).condition_type == c.conditions@[k].condition_type
                    && copies_of(sc.conditions@[k].body@, c.conditions@[k].body@)
        },
        _ => stored.same_shape(st) && (st.statement_type.vec_free() ==> stored == st) && same_stmt(stored, st),
    }
}

/// `stored` are the statements that filing `body` in a scope appends to it, in order: one
/// for each statement of `body` but function declarations (refused inside a scope).
pub open spec fn filed_list(stored: Seq<Statement>, body: Seq<Statement>) -> bool
    decreases body.len(),
{
    if body.len() == 0 {
        stored.len() == 0
    } else if body.last().statement_type is FunctionDeclaration {
        filed_list(stored, body.drop_last())
    } else {
        stored.len() > 0 && filed_copy(stored.last(), body.last()) && filed_list(stored.drop_last(), body.drop_last())
    }
}

/// Filing one more statement `st` extends the filed list by what `st` leaves in the scope.
proof fn lemma_filed_step(t: Seq<Statement>, t2: Seq<Statement>, start: int, prefix: Seq<Statement>, st: Statement)
    requires
        0 <= start <= t.len(),
        filed_list(t.subrange(start, t.len() as int), prefix),
        st.statement_type is FunctionDeclaration ==> t2 == t,
        !(st.statement_type is FunctionDeclaration) ==> {
            &&& t2.len() == t.len() + 1
            &&& t2.subrange(0, t.len() as int) == t
            &&& filed_copy(t2.last(), st)
        },
    ensures
        start <= t2.len(),
        filed_list(t2.subrange(start, t2.len() as int), prefix.push(st)),
{
    let whole = prefix.push(st);
    assert(whole.drop_last() =~= prefix);
    assert(whole.last() == st);
    if !(st.statement_type is FunctionDeclaration) {
        let b = t2.subrange(start, t2.len() as int);
        assert(b.drop_last() =~= t.subrange(start, t.len() as int));
        assert(b.last() == t2.last());
    }
}

/// What filing the statement `st` does, taking the pass from `old` to `new`: inside an open
/// scope, the statement (a compare with a fresh scope for each branch) is appended to the
/// innermost one, and a declaration places its variable there; a function declaration at the
/// top level registers the function, opens its outermost scope and files its body there.
pub open spec fn statement_filed(new: ScopeAnalysis, old: ScopeAnalysis, st: Statement) -> bool {
    &&& (new.keeps(&old))
    &&& (new.confined(&old))
    &&& (new.scope_stack@ == old.scope_stack@)
    &&& (forall|k: Seq<char>|
        old.program_data.functions.contains(k) ==> #[trigger] new.program_data.functions.contains(k))
    &&& (old.scope_stack@.len() > 0 ==> new.program_data.functions == old.program_data.functions)
    &&& (old.scope_stack@.len() > 0 && !(st.statement_type is FunctionDeclaration)
        ==> new.program_data.scopes@[old.top()].statements@.len()
        == old.program_data.scopes@[old.top()].statements@.len() + 1)
    &&& (old.scope_stack@.len() > 0 && !(st.statement_type is FunctionDeclaration)
        && !(st.statement_type is Compare)
        ==> new.program_data.scopes@[old.top()].statements@.last().same_shape(st)
        && same_stmt(new.program_data.scopes@[old.top()].statements@.last(), st))
    &&& (old.scope_stack@.len() > 0 && st.statement_type.vec_free()
        ==> new.program_data.scopes@[old.top()].statements@.last() == st)
    &&& (old.scope_stack@.len() > 0 && !(st.statement_type is FunctionDeclaration)
        && !(st.statement_type is VariableDeclaration) && !(st.statement_type is Compare)
        ==> new.program_data.errors
        == old.program_data.errors)
    &&& (old.scope_stack@.len() > 0 ==> (st.statement_type matches Statements::VariableDeclaration(d)
        ==> var_placed(new.program_data, old.program_data, old.top(), d)))
    &&& (old.scope_stack@.len() > 0 && st.statement_type is Compare ==> ({
        let comparison = st.statement_type->Compare_0;
        let stored = new.program_data.scopes@[old.top()].statements@.last();
        &&& filed_copy(stored, st)
        &&& stored.statement_type is Compare
        &&& stored.statement_type->Compare_0.conditions@.len() == comparison.conditions@.len()
        &&& forall|k: int|
            0 <= k < comparison.conditions@.len() ==> {
                let c = #[trigger] stored.statement_type->Compare_0.conditions@[k];
                &&& c.condition_type == comparison.conditions@[k].condition_type
                &&& old.program_data.scopes@.len() <= c.scope < new.program_data.scopes@.len()
                &&& new.program_data.scopes@[c.scope as int].parent == old.top()
                &&& filed_list(new.program_data.scopes@[c.scope as int].statements@, comparison.conditions@[k].body@)
            }
    }))
    &&& (st.statement_type matches Statements::FunctionDeclaration(fd) ==> ({
        let before = old.program_data;
        let after = new.program_data;
        if old.scope_stack@.len() > 0 {
            &&& after.scopes == before.scopes
            &&& after.errors@.len() == before.errors@.len() + 1
            &&& after.errors@.last()@ == "Scope len invalid"@
        } else if before.functions.contains(fd.name@) {
            &&& after.scopes == before.scopes
            &&& after.functions == before.functions
            &&& after.errors@.len() == before.errors@.len() + 1
            &&& after.errors@.last()@ == "Duplicate function: "@ + fd.name@
        } else {
            &&& after.functions.lookup(fd.name@) matches Some(f)
            &&& f.first_scope == before.scopes@.len()
            &&& f.args@ == fd.args@
            &&& f.return_type == fd.return_type
            &&& f.arg_stack_mem_allocated == fd.args_stack_mem_allocated
            &&& f.stack_mem_allocated == 0
            &&& after.scopes@[before.scopes@.len() as int].parent == NO_PARENT
            &&& after.scopes@[before.scopes@.len() as int].function@ == fd.name@
            &&& filed_list(after.scopes@[before.scopes@.len() as int].statements@, fd.body@)
        }
    }))
}

/// Filing the statements `stmts` one after the other takes the pass from `old` to `new`.
pub open spec fn statements_filed(new: ScopeAnalysis, old: ScopeAnalysis, stmts: Seq<Statement>) -> bool
    decreases stmts.len(),
{
    if stmts.len() == 0 {
        new == old
    } else {
        exists|mid: ScopeAnalysis|
            statements_filed(mid, old, stmts.drop_last()) && #[trigger] statement_filed(new, mid, stmts.last())
    }
}

/// One step of filing the top-level statements, from `prev` to `new`: a copy of the statement
/// at the current position is filed, then the position moves past it.
pub open spec fn top_level_step(new: ScopeAnalysis, prev: ScopeAnalysis) -> bool {
    exists|st: Statement, filed: ScopeAnalysis|
        #![trigger statement_filed(filed, prev, st)]
        {
            let orig = prev.program_data.statements@[prev.position as int];
            &&& prev.position < prev.program_data.statements@.len()
            &&& st.same_shape(orig)
            &&& (orig.statement_type.vec_free() ==> st == orig)
            &&& statement_filed(filed, prev, st)
            &&& new.program_data == filed.program_data
            &&& new.scope_stack == filed.scope_stack
            &&& new.position == if filed.position < filed.program_data.statements@.len() {
                filed.position + 1
            } else {
                filed.position as int
            }
        }
}

/// `n` steps of filing the top-level statements take the pass from `old` to `new`.
pub open spec fn top_level_filed(new: ScopeAnalysis, old: ScopeAnalysis, n: nat) -> bool
    decreases n,
{
    if n == 0 {
        new == old
    } else {
        exists|mid: ScopeAnalysis| top_level_filed(mid, old, (n - 1) as nat) && #[trigger] top_level_step(new, mid)
    }
}

pub struct ScopeAnalysis {
    pub program_data: ProgramData,
    pub position: usize,
    pub scope_stack: Vec<usize>,
}

impl ScopeAnalysis {
    /// The scope forest and variable layout are sound, and the stack names existing scopes.
    pub open spec fn wf(&self) -> bool {
        &&& self.program_data.tree_wf()
        &&& self.program_data.vars_wf()
        &&& self.position <= self.program_data.statements@.len()
        &&& forall|k: int|
            0 <= k < self.scope_stack@.len() ==> (#[trigger] self.scope_stack@[k]) < self.program_data.scopes@.len()
    }

    /// The innermost open scope, or -1 when none is open.
    pub open spec fn top(&self) -> int {
        if self.scope_stack@.len() > 0 {
            self.scope_stack@.last() as int
        } else {
            -1
        }
    }

    /// The tokens, the top-level statements and the sources stay; errors and scopes only grow.
    pub open spec fn keeps(&self, old: &ScopeAnalysis) -> bool {
        &&& self.program_data.tokens == old.program_data.tokens
        &&& self.program_data.statements == old.program_data.statements
        &&& self.program_data.source_code == old.program_data.source_code
        &&& self.program_data.source_codes == old.program_data.source_codes
        &&& seq_extends(self.program_data.errors@, old.program_data.errors@)
        &&& old.program_data.scopes@.len() <= self.program_data.scopes@.len()
        &&& old.position <= self.position
        &&& (self.position == old.position || self.program_data.errors@.len() > old.program_data.errors@.len())
    }

    /// Scopes that existed before, other than the innermost open one, are untouched; the
    /// innermost open one keeps its place, its statements and its children, and may gain
    /// more of both.
    pub open spec fn confined(&self, old: &ScopeAnalysis) -> bool {
        &&& forall|j: int|
            0 <= j < old.program_data.scopes@.len() && j != old.top() ==> #[trigger] self.program_data.scopes@[j]
                == old.program_data.scopes@[j]
        &&& old.top() >= 0 ==> {
            let c = old.top();
            &&& self.program_data.scopes@[c].parent == old.program_data.scopes@[c].parent
            &&& self.program_data.scopes@[c].function == old.program_data.scopes@[c].function
            &&& seq_extends(self.program_data.scopes@[c].statements@, old.program_data.scopes@[c].statements@)
            &&& seq_extends(self.program_data.scopes@[c].children@, old.program_data.scopes@[c].children@)
        }
    }

    /// A pass over `program_data`, at its first statement, with no scope open. Over a
    /// program with no scopes and no functions yet, it starts out sound.
    pub fn new(program_data: ProgramData) -> (r: Self)
        ensures
            r.program_data == program_data,
            r.position == 0,
            r.scope_stack@.len() == 0,
            program_data.scopes@.len() == 0 && program_data.functions.entries@.len() == 0 ==> r.wf(),
    {
        let r = ScopeAnalysis { position: 0, scope_stack: Vec::new(), program_data };
        proof {
            reveal(ProgramData::tree_wf);
            reveal(ProgramData::vars_wf);
        }
        r
    }

    pub fn advance_position(&mut self)
        ensures
            final(self).program_data == old(self).program_data,
            final(self).scope_stack == old(self).scope_stack,
            final(self).position == if old(self).position < old(self).program_data.statements@.len() {
                old(self).position + 1
            } else {
                old(self).position as int
            },
    {
        if self.position < self.program_data.statements.len() {
            self.position = self.position + 1;
        }
    }

    /// Records `err` and moves past the current top-level statement.
    pub fn throw_err(&mut self, err: &str)
        ensures
            final(self).program_data.errors@ == old(self).program_data.errors@.push(final(self).program_data.errors@.last()),
            final(self).program_data.errors@.last()@ == err@,
            final(self).program_data.scopes == old(self).program_data.scopes,
            final(self).program_data.functions == old(self).program_data.functions,
            final(self).program_data.tokens == old(self).program_data.tokens,
            final(self).program_data.statements == old(self).program_data.statements,
            final(self).program_data.source_code == old(self).program_data.source_code,
            final(self).program_data.source_codes == old(self).program_data.source_codes,
            final(self).scope_stack == old(self).scope_stack,
            final(self).position == if old(self).position < old(self).program_data.statements@.len() {
                old(self).position + 1
            } else {
                old(self).position as int
            },
    {
        self.program_data.errors.push(err.to_owned());
        self.advance_position();
    }

    pub fn get_scope_by_index(&self, scope: usize) -> (r: &Scope)
        requires
            scope < self.program_data.scopes@.len(),
        ensures
            *r == self.program_data.scopes@[scope as int],
    {
        self.program_data.get_scope_by_index(scope)
    }

    /// The innermost open scope.
    pub fn get_current_scope_index(&self) -> (r: usize)
        requires
            self.scope_stack@.len() > 0,
        ensures
            r == self.top(),
    {
        self.scope_stack[self.scope_stack.len() - 1]
    }

    /// The innermost open scope, for changing it.
    pub fn get_current_scope(&mut self) -> (r: &mut Scope)
        requires
            old(self).wf(),
            old(self).scope_stack@.len() > 0,
        ensures
            *r == old(self).program_data.scopes@[old(self).top()],
            final(self).program_data.scopes@ == old(self).program_data.scopes@.update(old(self).top(), *final(r)),
            final(self).program_data.functions == old(self).program_data.functions,
            final(self).program_data.statements == old(self).program_data.statements,
            final(self).program_data.tokens == old(self).program_data.tokens,
            final(self).program_data.errors == old(self).program_data.errors,
            final(self).program_data.source_code == old(self).program_data.source_code,
            final(self).program_data.source_codes == old(self).program_data.source_codes,
            final(self).scope_stack == old(self).scope_stack,
            final(self).position == old(self).position,
    {
        let current_index = self.get_current_scope_index();
        self.program_data.get_scope_by_index_mut(current_index)
    }

    /// Closes the innermost open scope.
    pub fn pop_scope(&mut self)
        ensures
            final(self).program_data == old(self).program_data,
            final(self).position == old(self).position,
            old(self).scope_stack@.len() > 0 ==> final(self).scope_stack@ == old(self).scope_stack@.drop_last(),
            old(self).scope_stack@.len() == 0 ==> final(self).scope_stack@.len() == 0,
    {
        let _ = self.scope_stack.pop();
    }

    /// Files a copy of `statement` under the innermost open scope.
    pub fn add_statement_to_current_scope(&mut self, statement: &Statement)
        requires
            old(self).wf(),
            old(self).scope_stack@.len() > 0,
        ensures
            final(self).wf(),
            final(self).keeps(old(self)),
            final(self).confined(old(self)),
            final(self).program_data.functions == old(self).program_data.functions,
            final(self).program_data.errors == old(self).program_data.errors,
            final(self).scope_stack == old(self).scope_stack,
            final(self).position == old(self).position,
            final(self).program_data.scopes@.len() == old(self).program_data.scopes@.len(),
            ({
                let c = old(self).top();
                let before = old(self).program_data.scopes@[c];
                let after = final(self).program_data.scopes@[c];
                &&& same_scope_shape(after, before)
                &&& after.statements@.len() == before.statements@.len() + 1
                &&& after.statements@.last().same_shape(*statement)
                &&& statement.statement_type.vec_free() ==> after.statements@.last() == *statement
                &&& same_stmt(after.statements@.last(), *statement)
            }),
    {
        let ghost old_pd = self.program_data;
        let copy = statement.duplicate();
        let scope = self.get_current_scope();
        scope.statements.push(copy);
        proof {
            lemma_same_shape(&self.program_data, &old_pd);
        }
    }

    /// Files `statement` itself under the innermost open scope.
    fn file_statement(&mut self, statement: Statement)
        requires
            old(self).wf(),
            old(self).scope_stack@.len() > 0,
        ensures
            final(self).wf(),
            final(self).keeps(old(self)),
            final(self).confined(old(self)),
            final(self).program_data.functions == old(self).program_data.functions,
            final(self).program_data.errors == old(self).program_data.errors,
            final(self).scope_stack == old(self).scope_stack,
            final(self).position == old(self).position,
            final(self).program_data.scopes@.len() == old(self).program_data.scopes@.len(),
            ({
                let c = old(self).top();
                let before = old(self).program_data.scopes@[c];
                let after = final(self).program_data.scopes@[c];
                &&& same_scope_shape(after, before)
                &&& after.statements@ == before.statements@.push(statement)
            }),
    {
        let ghost old_pd = self.program_data;
        let scope = self.get_current_scope();
        scope.statements.push(statement);
        proof {
            lemma_same_shape(&self.program_data, &old_pd);
        }
    }

    /// Whether a variable named like `var` is visible from the innermost open scope.
    pub fn check_if_var_exists(&self, var: &VariableDeclaration) -> (r: bool)
        requires
            self.wf(),
            self.scope_stack@.len() > 0,
        ensures
            r == self.program_data.var_scope(self.top(), var.name@) is Some,
    {
        let mut current_scope_index = self.get_current_scope_index();
        loop
            invariant
                self.wf(),
                current_scope_index < self.program_data.scopes@.len(),
                self.program_data.var_scope(self.top(), var.name@) is Some <==> self.program_data.var_scope(
                    current_scope_index as int,
                    var.name@,
                ) is Some,
            decreases current_scope_index,
        {
            proof {
                self.program_data.lemma_tree_scope(current_scope_index as int);
            }
            let scope_borrow = self.get_scope_by_index(current_scope_index);
            if scope_borrow.variables.contains_key(var.name.as_str()) {
                return true;
            }
            if scope_borrow.parent == NO_PARENT {
                return false;
            }
            current_scope_index = scope_borrow.parent;
        }
    }

    /// Opens a new scope nested in the innermost open one, in the same function.
    pub fn create_new_scope(&mut self) -> (r: usize)
        requires
            old(self).wf(),
            old(self).scope_stack@.len() > 0,
        ensures
            final(self).wf(),
            final(self).keeps(old(self)),
            final(self).confined(old(self)),
            final(self).program_data.functions == old(self).program_data.functions,
            final(self).program_data.errors == old(self).program_data.errors,
            final(self).position == old(self).position,
            r == old(self).program_data.scopes@.len(),
            final(self).program_data.scopes@.len() == r + 1,
            final(self).scope_stack@ == old(self).scope_stack@.push(r),
            final(self).program_data.scopes@[r as int].parent == old(self).top(),
            final(self).program_data.scopes@[r as int].statements@.len() == 0,
            final(self).program_data.scopes@[r as int].cg_statements@.len() == 0,
            final(self).program_data.scopes@[r as int].variables.entries@.len() == 0,
            final(self).program_data.scopes@[r as int].stack_mem_allocated == 0,
            final(self).program_data.scopes@[r as int].children@.len() == 0,
            final(self).program_data.scopes@[r as int].function@ == old(self).program_data.scopes@[old(self).top()].function@,
            final(self).program_data.scopes@[old(self).top()].statements
                == old(self).program_data.scopes@[old(self).top()].statements,
            final(self).program_data.scopes@[old(self).top()].children@
                == old(self).program_data.scopes@[old(self).top()].children@.push(r),
            forall|j: int|
                0 <= j < old(self).program_data.scopes@.len() && j != old(self).top() ==> #[trigger] final(self).program_data.scopes@[j]
                    == old(self).program_data.scopes@[j],
    {
        broadcast use vstd::std_specs::vec::axiom_spec_len;
        let ghost old_pd = self.program_data;
        let new_scope_index = self.program_data.scopes.len();
        let parent = self.get_current_scope_index();
        let function_name = self.get_scope_by_index(parent).function.clone();
        self.program_data.scopes.push(Scope::new(parent, function_name));
        let len_after = self.program_data.scopes.len();
        assert(len_after == new_scope_index + 1);
        self.program_data.get_scope_by_index_mut(parent).children.push(new_scope_index);
        proof {
            assert(child_added(&self.program_data, &old_pd, parent as int));
            lemma_add_child(&self.program_data, &old_pd, parent as int);
        }
        self.scope_stack.push(new_scope_index);
        new_scope_index
    }

    /// Places the variable `var` declares at the end of the innermost open scope's
    /// allocation; a name already visible there, or a type too large to place, is an error.
    pub fn add_var_to_scope(&mut self, var: &VariableDeclaration)
        requires
            old(self).wf(),
            old(self).scope_stack@.len() > 0,
        ensures
            final(self).wf(),
            final(self).keeps(old(self)),
            final(self).confined(old(self)),
            final(self).program_data.functions == old(self).program_data.functions,
            final(self).scope_stack == old(self).scope_stack,
            final(self).program_data.scopes@.len() == old(self).program_data.scopes@.len(),
            final(self).program_data.scopes@[old(self).top()].statements
                == old(self).program_data.scopes@[old(self).top()].statements,
            final(self).program_data.scopes@[old(self).top()].children
                == old(self).program_data.scopes@[old(self).top()].children,
            var_placed(final(self).program_data, old(self).program_data, old(self).top(), *var),
            final(self).program_data.errors@.len() > old(self).program_data.errors@.len() ==> final(self).program_data.scopes
                == old(self).program_data.scopes,
    {
        let ghost old_pd = self.program_data;
        if self.check_if_var_exists(var) {
            let mut msg = "Duplicate variable: ".to_owned();
            push_str(&mut msg, var.name.as_str());
            self.throw_err(msg.as_str());
            proof {
                lemma_same_shape(&self.program_data, &old_pd);
            }
            return;
        }
        let current = self.get_current_scope_index();
        let allocated = self.get_scope_by_index(current).stack_mem_allocated;
        if !var.variable_type.fits_in_memory() {
            let mut msg = "Variable does not fit in memory: ".to_owned();
            push_str(&mut msg, var.name.as_str());
            self.throw_err(msg.as_str());
            proof {
                lemma_same_shape(&self.program_data, &old_pd);
            }
            return;
        }
        let size = var.variable_type.get_variable_size();
        if size > usize::MAX - allocated {
            let mut msg = "Variable does not fit in memory: ".to_owned();
            push_str(&mut msg, var.name.as_str());
            self.throw_err(msg.as_str());
            proof {
                lemma_same_shape(&self.program_data, &old_pd);
            }
            return;
        }
        proof {
            old_pd.lemma_tree_scope(current as int);
            assert(!old_pd.scopes@[current as int].variables.contains(var.name@));
        }
        let variable = StackVariable { variable_type: var.variable_type.duplicate(), variable_size: size, offset: allocated };
        let ghost v = variable;
        let name = var.name.clone();
        let ghost key = name;
        let current_scope = self.get_current_scope();
        current_scope.variables.insert(name, variable);
        current_scope.stack_mem_allocated = allocated + size;
        proof {
            lemma_add_var(&self.program_data, &old_pd, current as int, key, v);
            let e0 = old_pd.scopes@[current as int].variables.entries@;
            let e1 = self.program_data.scopes@[current as int].variables.entries@;
            assert(e1 == e0.push((key, v)));
            assert(e1.subrange(0, e0.len() as int) =~= e0);
            assert(e1[e0.len() as int] == (key, v));
        }
    }

    /// The current top-level statement.
    pub fn current_statement(&mut self) -> (r: &mut Statement)
        requires
            old(self).position < old(self).program_data.statements@.len(),
        ensures
            *r == old(self).program_data.statements@[old(self).position as int],
            final(self).program_data.statements@ == old(self).program_data.statements@.update(
                old(self).position as int,
                *final(r),
            ),
            final(self).program_data.scopes == old(self).program_data.scopes,
            final(self).program_data.functions == old(self).program_data.functions,
            final(self).program_data.tokens == old(self).program_data.tokens,
            final(self).program_data.errors == old(self).program_data.errors,
            final(self).program_data.source_code == old(self).program_data.source_code,
            final(self).program_data.source_codes == old(self).program_data.source_codes,
            final(self).scope_stack == old(self).scope_stack,
            final(self).position == old(self).position,
    {
        &mut self.program_data.statements[self.position]
    }

    /// Files each of `statements`, in order, under the innermost open scope.
    pub fn process_statements(&mut self, statements: &Vec<Statement>)
        requires
            old(self).wf(),
            old(self).scope_stack@.len() > 0,
        ensures
            final(self).wf(),
            final(self).keeps(old(self)),
            final(self).confined(old(self)),
            final(self).scope_stack@ == old(self).scope_stack@,
            final(self).program_data.functions == old(self).program_data.functions,
            statements_filed(*final(self), *old(self), statements@),
            ({
                let c = old(self).top();
                let t = final(self).program_data.scopes@[c].statements@;
                filed_list(t.subrange(old(self).program_data.scopes@[c].statements@.len() as int, t.len() as int), statements@)
            }),
        decreases statements,
    {
        let mut i: usize = 0;
        let ghost c = old(self).top();
        let ghost start = old(self).program_data.scopes@[c].statements@.len() as int;
        proof {
            assert(statements@.subrange(0, 0) =~= Seq::<Statement>::empty());
            assert(self.program_data.scopes@[c].statements@.subrange(start, start) =~= Seq::<Statement>::empty());
        }
        while i < statements.len()
            invariant
                self.wf(),
                self.scope_stack@.len() > 0,
                self.keeps(old(self)),
                self.confined(old(self)),
                self.scope_stack@ == old(self).scope_stack@,
                self.program_data.functions == old(self).program_data.functions,
                i <= statements@.len(),
                statements_filed(*self, *old(self), statements@.subrange(0, i as int)),
                c == old(self).top(),
                start == old(self).program_data.scopes@[c].statements@.len(),
                start <= self.program_data.scopes@[c].statements@.len(),
                filed_list(
                    self.program_data.scopes@[c].statements@.subrange(start, self.program_data.scopes@[c].statements@.len() as int),
                    statements@.subrange(0, i as int),
                ),
            decreases statements@.len() - i,
        {
            proof {
                broadcast use vstd::std_specs::vec::axiom_vec_index_decreases;
                assert(decreases_to!(statements => statements[i as int]));
            }
            let ghost before = *self;
            self.process_statement(&statements[i]);
            proof {
                let prefix = statements@.subrange(0, i + 1);
                assert(prefix.drop_last() =~= statements@.subrange(0, i as int));
                assert(prefix.last() == statements@[i as int]);
                assert(statement_filed(*self, before, prefix.last()));
                let st = statements@[i as int];
                let t = before.program_data.scopes@[c].statements@;
                let t2 = self.program_data.scopes@[c].statements@;
                if !(st.statement_type is FunctionDeclaration) {
                    assert(t2.subrange(0, t.len() as int) =~= t);
                    assert(filed_copy(t2.last(), st));
                }
                lemma_filed_step(t, t2, start, statements@.subrange(0, i as int), st);
                assert(statements@.subrange(0, i as int).push(st) =~= prefix);
            }
            i = i + 1;
        }
        proof {
            assert(statements@.subrange(0, statements@.len() as int) =~= statements@);
        }
    }

    /// Opens a scope for each condition, nested in the innermost open one, and files the
    /// condition's body there. Returns the conditions with their scopes filled in.
    pub fn process_conditions(&mut self, conditions: &Vec<CmpCondition>) -> (r: Vec<CmpCondition>)
        requires
            old(self).wf(),
            old(self).scope_stack@.len() > 0,
        ensures
            final(self).wf(),
            final(self).keeps(old(self)),
            final(self).scope_stack@ == old(self).scope_stack@,
            final(self).program_data.functions == old(self).program_data.functions,
            forall|j: int|
                0 <= j < old(self).program_data.scopes@.len() && j != old(self).top() ==> #[trigger] final(self).program_data.scopes@[j]
                    == old(self).program_data.scopes@[j],
            final(self).program_data.scopes@[old(self).top()].parent == old(self).program_data.scopes@[old(self).top()].parent,
            final(self).program_data.scopes@[old(self).top()].function == old(self).program_data.scopes@[old(self).top()].function,
            final(self).program_data.scopes@[old(self).top()].statements == old(self).program_data.scopes@[old(self).top()].statements,
            seq_extends(
                final(self).program_data.scopes@[old(self).top()].children@,
                old(self).program_data.scopes@[old(self).top()].children@,
            ),
            r@.len() == conditions@.len(),
            forall|k: int|
                0 <= k < conditions@.len() ==> {
                    let c = #[trigger] r@[k];
                    &&& c.condition_type == conditions@[k].condition_type
                    &&& old(self).program_data.scopes@.len() <= c.scope < final(self).program_data.scopes@.len()
                    &&& final(self).program_data.scopes@[c.scope as int].parent == old(self).top()
                    &&& copies_of(c.body@, conditions@[k].body@)
                    &&& filed_list(final(self).program_data.scopes@[c.scope as int].statements@, conditions@[k].body@)
                },
        decreases conditions,
    {
        let top = self.get_current_scope_index();
        let mut result: Vec<CmpCondition> = Vec::new();
        let mut c: usize = 0;
        while c < conditions.len()
            invariant
                self.wf(),
                self.keeps(old(self)),
                top == old(self).top(),
                0 <= top < old(self).program_data.scopes@.len(),
                self.scope_stack@ == old(self).scope_stack@,
                self.program_data.functions == old(self).program_data.functions,
                forall|j: int|
                    0 <= j < old(self).program_data.scopes@.len() && j != top ==> #[trigger] self.program_data.scopes@[j]
                        == old(self).program_data.scopes@[j],
                self.program_data.scopes@[top as int].parent == old(self).program_data.scopes@[top as int].parent,
                self.program_data.scopes@[top as int].function == old(self).program_data.scopes@[top as int].function,
                self.program_data.scopes@[top as int].statements == old(self).program_data.scopes@[top as int].statements,
                seq_extends(self.program_data.scopes@[top as int].children@, old(self).program_data.scopes@[top as int].children@),
                c <= conditions@.len(),
                result@.len() == c,
                forall|k: int|
                    0 <= k < c ==> {
                        let cd = #[trigger] result@[k];
                        &&& cd.condition_type == conditions@[k].condition_type
                        &&& old(self).program_data.scopes@.len() <= cd.scope < self.program_data.scopes@.len()
                        &&& self.program_data.scopes@[cd.scope as int].parent == top
                        &&& copies_of(cd.body@, conditions@[k].body@)
                        &&& filed_list(self.program_data.scopes@[cd.scope as int].statements@, conditions@[k].body@)
                    },
            decreases conditions@.len() - c,
        {
            let scope_index = self.create_new_scope();
            proof {
                broadcast use vstd::std_specs::vec::axiom_vec_index_decreases;
                assert(decreases_to!(conditions => conditions[c as int]));
                assert(decreases_to!(conditions[c as int] => conditions[c as int].body));
            }
            let condition = &conditions[c];
            let ghost opened = self.program_data;
            proof {
                assert(opened.scopes@[scope_index as int].statements@.subrange(0, 0) =~= Seq::<Statement>::empty());
            }
            self.process_statements(&condition.body);
            proof {
                let t = self.program_data.scopes@[scope_index as int].statements@;
                assert(t.subrange(0, t.len() as int) =~= t);
            }
            self.pop_scope();
            result.push(
                CmpCondition {
                    condition_type: condition.condition_type,
                    body: duplicate_statements(&condition.body),
                    scope: scope_index,
                },
            );
            c = c + 1;
        }
        result
    }

    /// Files `statement` under the innermost open scope. A function declaration at the top
    /// level opens the function's outermost scope and registers the function; each branch of
    /// a compare gets a scope of its own nested in the enclosing one; a declaration places its
    /// variable.
    pub fn process_statement(&mut self, statement: &Statement)
        requires
            old(self).wf(),
            old(self).scope_stack@.len() > 0 || statement.statement_type is FunctionDeclaration,
        ensures
            final(self).wf(),
            statement_filed(*final(self), *old(self), *statement),
        decreases statement,
    {
        let ghost old_pd = self.program_data;
        match &statement.statement_type {
            Statements::FunctionDeclaration(func_declaration) => {
                if self.scope_stack.len() != 0 {
                    self.throw_err("Scope len invalid");
                    proof {
                        lemma_same_shape(&self.program_data, &old_pd);
                    }
                    return;
                }
                proof {
                    reveal(ProgramData::tree_wf);
                }
                if self.program_data.functions.contains_key(func_declaration.name.as_str()) {
                    let mut msg = "Duplicate function: ".to_owned();
                    push_str(&mut msg, func_declaration.name.as_str());
                    self.throw_err(msg.as_str());
                    proof {
                        lemma_same_shape(&self.program_data, &old_pd);
                    }
                    return;
                }
                let scope_index = self.program_data.scopes.len();
                self.program_data.scopes.push(Scope::default(func_declaration.name.clone()));
                let function = Function {
                    stack_mem_allocated: 0,
                    first_scope: scope_index,
                    args: duplicate_args(&func_declaration.args),
                    return_type: func_declaration.return_type.duplicate(),
                    arg_stack_mem_allocated: func_declaration.args_stack_mem_allocated,
                };
                let ghost f = function;
                self.program_data.functions.insert(func_declaration.name.clone(), function);
                proof {
                    lemma_add_function(&self.program_data, &old_pd, func_declaration.name@, f);
                    assert forall|k: Seq<char>| old_pd.functions.contains(k) implies #[trigger] self.program_data.functions.contains(k) by {
                        if k != func_declaration.name@ {
                            assert(self.program_data.functions.lookup(k) == old_pd.functions.lookup(k));
                        }
                    }
                }
                self.scope_stack.push(scope_index);
                proof {
                    assert(self.program_data.scopes@[scope_index as int].statements@.subrange(0, 0) =~= Seq::<Statement>::empty());
                }
                self.process_statements(&func_declaration.body);
                proof {
                    let t = self.program_data.scopes@[scope_index as int].statements@;
                    assert(t.subrange(0, t.len() as int) =~= t);
                }
                self.pop_scope();
                assert(self.scope_stack@ =~= old(self).scope_stack@);
            },
            Statements::Compare(comparison) => {
                let conditions = self.process_conditions(&comparison.conditions);
                let stored = Statement {
                    col: statement.col,
                    line: statement.line,
                    start_pos: statement.start_pos,
                    end_pos: statement.end_pos,
                    statement_type: Statements::Compare(
                        Compare {
                            expressions: [comparison.expressions[0].duplicate(), comparison.expressions[1].duplicate()],
                            conditions,
                        },
                    ),
                };
                self.file_statement(stored);
            },
            Statements::VariableDeclaration(var_declaration) => {
                self.add_var_to_scope(var_declaration);
                self.add_statement_to_current_scope(statement);
            },
            _ => {
                self.add_statement_to_current_scope(statement);
            },
        }
    }

    /// Files every top-level statement, from the current one to the last.
    pub fn process_all(&mut self)
        requires
            old(self).wf(),
            old(self).scope_stack@.len() == 0,
            forall|i: int|
                0 <= i < old(self).program_data.statements@.len() ==> (#[trigger] old(self).program_data.statements@[i]).statement_type is FunctionDeclaration,
        ensures
            final(self).wf(),
            final(self).program_data.tokens == old(self).program_data.tokens,
            final(self).program_data.statements == old(self).program_data.statements,
            final(self).program_data.source_code == old(self).program_data.source_code,
            final(self).program_data.source_codes == old(self).program_data.source_codes,
            seq_extends(final(self).program_data.errors@, old(self).program_data.errors@),
            old(self).program_data.scopes@.len() <= final(self).program_data.scopes@.len(),
            final(self).scope_stack@.len() == 0,
            final(self).position >= old(self).program_data.statements@.len(),
            forall|i: int|
                old(self).position <= i < final(self).position ==> ((#[trigger] old(self).program_data.statements@[i]).statement_type matches Statements::FunctionDeclaration(fd)
                    ==> final(self).program_data.functions.contains(fd.name@) || final(self).program_data.errors@.len()
                    > old(self).program_data.errors@.len()),
            exists|n: nat| #[trigger] top_level_filed(*final(self), *old(self), n),
    {
        let ghost mut steps: nat = 0;
        loop
            invariant
                top_level_filed(*self, *old(self), steps),
                self.wf(),
                self.program_data.tokens == old(self).program_data.tokens,
                self.program_data.statements == old(self).program_data.statements,
                self.program_data.source_code == old(self).program_data.source_code,
                self.program_data.source_codes == old(self).program_data.source_codes,
                seq_extends(self.program_data.errors@, old(self).program_data.errors@),
                old(self).program_data.scopes@.len() <= self.program_data.scopes@.len(),
                self.scope_stack@.len() == 0,
                old(self).position <= self.position,
                forall|i: int|
                    0 <= i < self.program_data.statements@.len() ==> (#[trigger] self.program_data.statements@[i]).statement_type is FunctionDeclaration,
                forall|i: int|
                    old(self).position <= i < self.position ==> ((#[trigger] old(self).program_data.statements@[i]).statement_type matches Statements::FunctionDeclaration(fd)
                        ==> self.program_data.functions.contains(fd.name@) || self.program_data.errors@.len()
                        > old(self).program_data.errors@.len()),
            ensures
                self.wf(),
                self.program_data.tokens == old(self).program_data.tokens,
                self.program_data.statements == old(self).program_data.statements,
                self.program_data.source_code == old(self).program_data.source_code,
                self.program_data.source_codes == old(self).program_data.source_codes,
                seq_extends(self.program_data.errors@, old(self).program_data.errors@),
                old(self).program_data.scopes@.len() <= self.program_data.scopes@.len(),
                self.scope_stack@.len() == 0,
                self.position >= self.program_data.statements@.len(),
                forall|i: int|
                    old(self).position <= i < self.position ==> ((#[trigger] old(self).program_data.statements@[i]).statement_type matches Statements::FunctionDeclaration(fd)
                        ==> self.program_data.functions.contains(fd.name@) || self.program_data.errors@.len()
                        > old(self).program_data.errors@.len()),
                top_level_filed(*self, *old(self), steps),
            decreases self.program_data.statements@.len() - self.position,
        {
            if self.position >= self.program_data.statements.len() {
                break;
            }
            let current_statement = self.program_data.statements[self.position].duplicate();
            assert(old(self).program_data.statements@[self.position as int] == self.program_data.statements@[self.position as int]);
            let ghost before = *self;
            self.process_statement(&current_statement);
            let ghost filed = *self;
            self.advance_position();
            proof {
                assert(statement_filed(filed, before, current_statement));
                assert(top_level_step(*self, before));
                steps = steps + 1;
                assert(top_level_filed(*self, *old(self), steps));
            }
        }
    }
}

} // verus!

//! Properties that hold of every run.
use crate::machine::{initial, outcome, BfError, Machine, WrapPolicy, ITERATION_LIMIT};
use vstd::arithmetic::div_mod::{
    lemma_add_mod_noop, lemma_mod_add_multiples_vanish, lemma_mod_self_0, lemma_mod_twice,
    lemma_small_mod, lemma_sub_mod_noop,
};
use vstd::prelude::*;
use vstd::utf8::{decode_utf8, valid_utf8};

verus! {

/// A program that reads no input gives the same result whatever input is
/// offered: two runs of one machine agree.
pub proof fn lemma_deterministic(m: Machine, a: Seq<u8>, b: Seq<u8>)
    requires
        m.wf(),
        forall|k: int| 0 <= k < m.code.len() ==> m.code[k] != ',',
    ensures
        outcome(m, a) == outcome(m, b),
    decreases ITERATION_LIMIT + 1 - m.iters, m.code.len() - m.pc,
{
    if m.running() {
        assert(m.code[m.pc] != ',');
        lemma_pointer_in_range(m, 0);
        if let Ok(t) = m.step() {
            lemma_deterministic(t, a, b);
        }
    }
}

/// The empty program writes nothing and fails on no tape: its output is the
/// empty text.
pub proof fn lemma_empty_program(capacity: nat, policy: WrapPolicy, input: Seq<u8>)
    ensures
        outcome(initial(seq![], capacity, policy), input) == Ok::<Seq<u8>, BfError>(seq![]),
        valid_utf8(seq![]),
        decode_utf8(seq![]) == Seq::<char>::empty(),
{
    assert(valid_utf8(seq![]));
}

/// Once the iteration limit is passed the run stops without error, with the
/// output produced so far.
pub proof fn lemma_iteration_cap(m: Machine, input: Seq<u8>)
    requires
        m.iters > ITERATION_LIMIT,
    ensures
        outcome(m, input) == Ok::<Seq<u8>, BfError>(m.out),
{
}

/// A machine that has stopped gives its output again, without error, on
/// every later run: running one engine twice yields identical output.
pub proof fn lemma_stopped_reruns_same(m: Machine, input: Seq<u8>)
    requires
        !m.running(),
    ensures
        outcome(m, input) == Ok::<Seq<u8>, BfError>(m.out),
{
}

/// Every step and every read keeps the pointer inside the tape, whose size
/// never changes, however long the run.
pub proof fn lemma_pointer_in_range(m: Machine, b: u8)
    requires
        m.wf(),
        m.running(),
    ensures
        m.code[m.pc] != ',' ==> (m.step() matches Ok(t) ==> t.wf() && t.tape.len() == m.tape.len()),
        m.code[m.pc] == ',' ==> m.fed(b).wf() && m.fed(b).tape.len() == m.tape.len(),
{
    let cap = m.tape.len() as int;
    if m.ptr + 1 < cap {
        lemma_small_mod((m.ptr + 1) as nat, cap as nat);
    } else {
        lemma_mod_self_0(cap);
    }
    if m.ptr > 0 {
        lemma_small_mod((m.ptr - 1) as nat, cap as nat);
        lemma_mod_add_multiples_vanish(m.ptr - 1, cap);
    } else {
        lemma_small_mod((cap - 1) as nat, cap as nat);
    }
}

/// Under the unchecked policy, `k` moves to the right in a row leave the
/// pointer at `(ptr + k) mod capacity`, however large `k` is.
pub proof fn lemma_moves_right_wrap(m: Machine, k: nat, input: Seq<u8>)
    requires
        m.wf(),
        m.policy == WrapPolicy::Unchecked,
        m.iters <= ITERATION_LIMIT,
        m.pc + k <= m.code.len(),
        forall|j: int| m.pc <= j < m.pc + k ==> m.code[j] == '>',
    ensures
        outcome(m, input) == outcome(
            (Machine { ptr: (m.ptr + k) % (m.tape.len() as int), pc: m.pc + k, ..m }),
            input,
        ),
    decreases k,
{
    let cap = m.tape.len() as int;
    if k == 0 {
        lemma_small_mod(m.ptr as nat, cap as nat);
        assert((Machine { ptr: (m.ptr + k) % cap, pc: m.pc + k, ..m }) == m);
    } else {
        assert(m.code[m.pc] == '>');
        lemma_pointer_in_range(m, 0);
        let t = m.step()->Ok_0;
        lemma_moves_right_wrap(t, (k - 1) as nat, input);
        lemma_add_mod_noop(m.ptr + 1, k - 1, cap);
        lemma_add_mod_noop((m.ptr + 1) % cap, k - 1, cap);
        lemma_mod_twice(m.ptr + 1, cap);
        assert(((t.ptr + (k - 1)) % cap) == (m.ptr + k) % cap);
    }
}

/// Under the unchecked policy, `k` moves to the left in a row leave the
/// pointer at `(ptr - k) mod capacity`, however large `k` is.
pub proof fn lemma_moves_left_wrap(m: Machine, k: nat, input: Seq<u8>)
    requires
        m.wf(),
        m.policy == WrapPolicy::Unchecked,
        m.iters <= ITERATION_LIMIT,
        m.pc + k <= m.code.len(),
        forall|j: int| m.pc <= j < m.pc + k ==> m.code[j] == '<',
    ensures
        outcome(m, input) == outcome(
            (Machine { ptr: (m.ptr - k) % (m.tape.len() as int), pc: m.pc + k, ..m }),
            input,
        ),
    decreases k,
{
    let cap = m.tape.len() as int;
    if k == 0 {
        lemma_small_mod(m.ptr as nat, cap as nat);
        assert((Machine { ptr: (m.ptr - k) % cap, pc: m.pc + k, ..m }) == m);
    } else {
        assert(m.code[m.pc] == '<');
        lemma_pointer_in_range(m, 0);
        let t = m.step()->Ok_0;
        lemma_moves_left_wrap(t, (k - 1) as nat, input);
        lemma_sub_mod_noop(m.ptr - 1 + cap, k - 1, cap);
        lemma_sub_mod_noop((m.ptr - 1 + cap) % cap, k - 1, cap);
        lemma_mod_twice(m.ptr - 1 + cap, cap);
        lemma_mod_add_multiples_vanish(m.ptr - k, cap);
        assert(((t.ptr - (k - 1)) % cap) == (m.ptr - k) % cap);
    }
}

} // verus!

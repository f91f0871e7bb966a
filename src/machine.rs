//! The execution engine: its mathematical model and the program that runs it.
use crate::bits::{bit_at, cleared, set_bit, touched_bits, TouchedSet};
use crate::brackets::{
    balanced, check_balanced, closes_fwd, jump_bwd, jump_fwd, lemma_closes_fwd_unique,
    lemma_opens_bwd_unique, opens_bwd,
};
use crate::text::{chars_of, utf8_text};
use vstd::prelude::*;
use vstd::utf8::{decode_utf8, valid_utf8};

verus! {

/// The most loop-jumps one run takes; the run stops, without error, past it.
pub const ITERATION_LIMIT: u32 = 1000;

/// What a pointer move off either edge of the tape does.
#[derive(Clone, Copy, Debug, PartialEq, Eq, Structural)]
pub enum WrapPolicy {
    /// The pointer wraps round to the other edge.
    Unchecked,
    /// Wrapping round is allowed only at a cell that has been written: moving
    /// the pointer off a never-written cell over an edge, or taking a
    /// never-written cell past 0 or 255, is an error.
    Guarded,
}

/// Why construction or a run failed.
#[derive(Clone, Copy, Debug, PartialEq, Eq, Structural)]
pub enum BfError {
    /// Wrong number of arguments, or a tape with no cell.
    InvalidArguments,
    /// A `[` or `]` has no partner.
    UnbalancedProgram,
    /// Under the guarded policy, a never-written cell was wrapped round past an
    /// edge of the tape or past 0 or 255.
    WrappingMemoryAccess,
    /// The output bytes are not valid UTF-8.
    InvalidEncoding,
    /// A `,` found no input byte left.
    InputFailure,
}

impl BfError {
    /// A short description of the error.
    pub fn message(&self) -> (r: &'static str)
        ensures
            *self == BfError::InvalidArguments ==> r@ == "Incorrect number of arguments"@,
            *self == BfError::UnbalancedProgram ==> r@ == "Unbalanced program"@,
            *self == BfError::WrappingMemoryAccess ==> r@ == "Wrapping memory access"@,
            *self == BfError::InvalidEncoding ==> r@ == "Bad UTF-8 encoding"@,
            *self == BfError::InputFailure ==> r@ == "Bad IO read"@,
    {
        match self {
            BfError::InvalidArguments => "Incorrect number of arguments",
            BfError::UnbalancedProgram => "Unbalanced program",
            BfError::WrappingMemoryAccess => "Wrapping memory access",
            BfError::InvalidEncoding => "Bad UTF-8 encoding",
            BfError::InputFailure => "Bad IO read",
        }
    }
}

/// Where a run paused.
#[derive(Clone, Copy, Debug, PartialEq, Eq, Structural)]
pub enum Pause {
    /// The program ran off its end or reached the iteration limit.
    Halted,
    /// The instruction at the program counter is a `,` awaiting a byte.
    AwaitingInput,
}

/// The whole state of the machine.
pub struct Machine {
    pub code: Seq<char>,
    pub policy: WrapPolicy,
    pub tape: Seq<u8>,
    pub touched: Seq<bool>,
    pub ptr: int,
    pub pc: int,
    pub iters: int,
    pub out: Seq<u8>,
}

/// One more, mod 256.
pub open spec fn inc(v: u8) -> u8 {
    if v == 255 {
        0
    } else {
        (v + 1) as u8
    }
}

/// One less, mod 256.
pub open spec fn dec(v: u8) -> u8 {
    if v == 0 {
        255
    } else {
        (v - 1) as u8
    }
}

/// A machine about to run `code` on a zeroed tape of `capacity` cells, with
/// no cell touched yet.
pub open spec fn initial(code: Seq<char>, capacity: nat, policy: WrapPolicy) -> Machine {
    Machine {
        code,
        policy,
        tape: Seq::new(capacity, |i: int| 0u8),
        touched: Seq::new(capacity, |i: int| false),
        ptr: 0,
        pc: 0,
        iters: 0,
        out: seq![],
    }
}

impl Machine {
    /// The tape has a cell, one touched bit per cell, and the pointer, the
    /// program counter and the iteration count are in range.
    pub open spec fn wf(self) -> bool {
        &&& self.tape.len() >= 1
        &&& self.touched.len() == self.tape.len()
        &&& 0 <= self.ptr < self.tape.len()
        &&& 0 <= self.pc <= self.code.len()
        &&& 0 <= self.iters <= ITERATION_LIMIT + 1
    }

    /// Another instruction is due: the program is not done and the
    /// iteration limit is not passed.
    pub open spec fn running(self) -> bool {
        self.pc < self.code.len() && self.iters <= ITERATION_LIMIT
    }

    /// The machine waits for an input byte.
    pub open spec fn awaiting_input(self) -> bool {
        self.running() && self.code[self.pc] == ','
    }

    /// Wrapping round at the current cell, the pointer over an edge of the
    /// tape or the cell's value past 0 or 255, is refused.
    pub open spec fn wrap_refused(self) -> bool {
        self.policy == WrapPolicy::Guarded && !self.touched[self.ptr]
    }

    /// The machine after a `,` that read `b`.
    pub open spec fn fed(self, b: u8) -> Machine {
        Machine { tape: self.tape.update(self.ptr, b), pc: self.pc + 1, ..self }
    }

    /// The effect of the instruction at the program counter, for any
    /// instruction but `,`.
    pub open spec fn step(self) -> Result<Machine, BfError> {
        let cap = self.tape.len() as int;
        let c = self.code[self.pc];
        let cell = self.tape[self.ptr];
        let next = Machine { pc: self.pc + 1, ..self };
        if c == '>' {
            if self.ptr == cap - 1 && self.wrap_refused() {
                Err(BfError::WrappingMemoryAccess)
            } else {
                Ok(Machine { ptr: (self.ptr + 1) % cap, ..next })
            }
        } else if c == '<' {
            if self.ptr == 0 && self.wrap_refused() {
                Err(BfError::WrappingMemoryAccess)
            } else {
                Ok(Machine { ptr: (self.ptr - 1 + cap) % cap, ..next })
            }
        } else if c == '+' && cell == 255 && self.wrap_refused() {
            Err(BfError::WrappingMemoryAccess)
        } else if c == '-' && cell == 0 && self.wrap_refused() {
            Err(BfError::WrappingMemoryAccess)
        } else if c == '+' {
            Ok(
                Machine {
                    tape: self.tape.update(self.ptr, inc(cell)),
                    touched: self.touched.update(self.ptr, true),
                    ..next
                },
            )
        } else if c == '-' {
            Ok(
                Machine {
                    tape: self.tape.update(self.ptr, dec(cell)),
                    touched: self.touched.update(self.ptr, true),
                    ..next
                },
            )
        } else if c == '.' {
            Ok(Machine { out: self.out.push(cell), ..next })
        } else if c == '[' && cell == 0 {
            if exists|k: int| closes_fwd(self.code, self.pc, k) {
                let k = choose|k: int| closes_fwd(self.code, self.pc, k);
                Ok(Machine { pc: k + 1, iters: self.iters + 1, ..self })
            } else {
                Err(BfError::UnbalancedProgram)
            }
        } else if c == ']' && cell != 0 {
            if exists|k: int| opens_bwd(self.code, self.pc, k) {
                let k = choose|k: int| opens_bwd(self.code, self.pc, k);
                Ok(Machine { pc: k + 1, iters: self.iters + 1, ..self })
            } else {
                Err(BfError::UnbalancedProgram)
            }
        } else {
            Ok(next)
        }
    }
}

/// The result of running `m` to the end with `input` as the bytes that the
/// `,` instructions read in turn: the output bytes, or the first error.
pub open spec fn outcome(m: Machine, input: Seq<u8>) -> Result<Seq<u8>, BfError>
    decreases ITERATION_LIMIT + 1 - m.iters, m.code.len() - m.pc,
{
    if !m.running() {
        Ok(m.out)
    } else if m.code[m.pc] == ',' {
        if input.len() == 0 {
            Err(BfError::InputFailure)
        } else {
            outcome(m.fed(input[0]), input.drop_first())
        }
    } else {
        match m.step() {
            Ok(t) => outcome(t, input),
            Err(e) => Err(e),
        }
    }
}

/// The machine that runs one program on one tape.
pub struct Program {
    code: Vec<char>,
    memory: Vec<u8>,
    touched: TouchedSet,
    policy: WrapPolicy,
    ptr: usize,
    pc: usize,
    iters: u32,
    output: Vec<u8>,
}

impl View for Program {
    type V = Machine;

    closed spec fn view(&self) -> Machine {
        Machine {
            code: self.code@,
            policy: self.policy,
            tape: self.memory@,
            touched: touched_bits(self.touched),
            ptr: self.ptr as int,
            pc: self.pc as int,
            iters: self.iters as int,
            out: self.output@,
        }
    }
}

impl Program {
    /// Binds the program text `argv[1]` to `memory`, cleared to zero, under
    /// the guarded policy. `argv` must hold exactly two entries and `memory` at least one
    /// cell; the brackets of the text must balance.
    pub fn new(argv: &[String], memory: Vec<u8>) -> (r: Result<Program, BfError>)
        ensures
            argv@.len() != 2 || memory@.len() == 0 ==> r == Err::<Program, BfError>(
                BfError::InvalidArguments,
            ),
            argv@.len() == 2 && memory@.len() > 0 && !balanced(argv@[1]@) ==> r == Err::<
                Program,
                BfError,
            >(BfError::UnbalancedProgram),
            argv@.len() == 2 && memory@.len() > 0 && balanced(argv@[1]@) ==> (r matches Ok(p)
                && p@ == initial(argv@[1]@, memory@.len(), WrapPolicy::Guarded)),
    {
        if argv.len() != 2 || memory.len() == 0 {
            return Err(BfError::InvalidArguments);
        }
        Program::bind(argv[1].as_str(), memory, WrapPolicy::Guarded)
    }

    /// Binds `source` to a zeroed tape of `capacity` cells under `policy`.
    /// The capacity must be at least one; the brackets must balance.
    pub fn with_capacity(source: &str, capacity: usize, policy: WrapPolicy) -> (r: Result<
        Program,
        BfError,
    >)
        ensures
            capacity == 0 ==> r == Err::<Program, BfError>(BfError::InvalidArguments),
            capacity > 0 && !balanced(source@) ==> r == Err::<Program, BfError>(
                BfError::UnbalancedProgram,
            ),
            capacity > 0 && balanced(source@) ==> (r matches Ok(p) && p@ == initial(
                source@,
                capacity as nat,
                policy,
            )),
    {
        if capacity == 0 {
            return Err(BfError::InvalidArguments);
        }
        let mut memory: Vec<u8> = Vec::new();
        let mut i: usize = 0;
        while i < capacity
            invariant
                i <= capacity,
                memory@.len() == i,
            decreases capacity - i,
        {
            memory.push(0u8);
            i += 1;
        }
        Program::bind(source, memory, policy)
    }

    fn bind(source: &str, memory: Vec<u8>, policy: WrapPolicy) -> (r: Result<Program, BfError>)
        requires
            memory@.len() > 0,
        ensures
            !balanced(source@) ==> r == Err::<Program, BfError>(BfError::UnbalancedProgram),
            balanced(source@) ==> (r matches Ok(p) && p@ == initial(
                source@,
                memory@.len(),
                policy,
            )),
    {
        let code = chars_of(source);
        if !check_balanced(&code) {
            return Err(BfError::UnbalancedProgram);
        }
        let mut memory = memory;
        let ghost len = memory@.len();
        let mut i: usize = 0;
        while i < memory.len()
            invariant
                memory@.len() == len,
                i <= len,
                forall|j: int| 0 <= j < i ==> memory@[j] == 0u8,
            decreases len - i,
        {
            memory[i] = 0u8;
            i += 1;
        }
        assert(memory@ =~= Seq::new(len, |j: int| 0u8));
        let touched = cleared(memory.len());
        let p = Program {
            code,
            memory,
            touched,
            policy,
            ptr: 0,
            pc: 0,
            iters: 0,
            output: Vec::new(),
        };
        assert(p@ =~= initial(source@, len, policy));
        Ok(p)
    }

    /// The same machine under another wrap policy.
    pub fn with_policy(self, policy: WrapPolicy) -> (r: Program)
        ensures
            r@ == (Machine { policy, ..self@ }),
    {
        Program { policy, ..self }
    }

    /// The state stays in range.
    pub open spec fn inv(&self) -> bool {
        self@.wf()
    }

    fn wrap_refused(&self) -> (r: bool)
        requires
            self.inv(),
        ensures
            r == self@.wrap_refused(),
    {
        match self.policy {
            WrapPolicy::Unchecked => false,
            WrapPolicy::Guarded => match bit_at(&self.touched, self.ptr) {
                Some(b) => !b,
                None => false,
            },
        }
    }

    /// Executes the instruction at the program counter, which is not a `,`.
    fn exec_step(&mut self) -> (r: Result<(), BfError>)
        requires
            old(self).inv(),
            old(self)@.running(),
            old(self)@.code[old(self)@.pc] != ',',
        ensures
            final(self).inv(),
            old(self)@.step() == (match r {
                Ok(_) => Ok::<Machine, BfError>(final(self)@),
                Err(e) => Err::<Machine, BfError>(e),
            }),
    {
        let ghost m = self@;
        let cap = self.memory.len();
        let pc = self.pc;
        assert(pc < self.code.len());
        let c = self.code[pc];
        let cell = self.memory[self.ptr];
        if c == '>' {
            if self.ptr == cap - 1 {
                if self.wrap_refused() {
                    return Err(BfError::WrappingMemoryAccess);
                }
                self.ptr = 0;
                proof {
                    vstd::arithmetic::div_mod::lemma_mod_self_0(cap as int);
                }
            } else {
                self.ptr = self.ptr + 1;
                proof {
                    vstd::arithmetic::div_mod::lemma_small_mod(self.ptr as nat, cap as nat);
                }
            }
            self.pc = pc + 1;
        } else if c == '<' {
            if self.ptr == 0 {
                if self.wrap_refused() {
                    return Err(BfError::WrappingMemoryAccess);
                }
                self.ptr = cap - 1;
            } else {
                self.ptr = self.ptr - 1;
            }
            proof {
                vstd::arithmetic::div_mod::lemma_small_mod(self.ptr as nat, cap as nat);
                vstd::arithmetic::div_mod::lemma_mod_add_multiples_vanish(m.ptr - 1, cap as int);
            }
            self.pc = pc + 1;
        } else if (c == '+' && cell == 255 || c == '-' && cell == 0) && self.wrap_refused() {
            return Err(BfError::WrappingMemoryAccess);
        } else if c == '+' {
            self.memory[self.ptr] = if cell == 255 {
                0
            } else {
                cell + 1
            };
            set_bit(&mut self.touched, self.ptr, true);
            self.pc = pc + 1;
        } else if c == '-' {
            self.memory[self.ptr] = if cell == 0 {
                255
            } else {
                cell - 1
            };
            set_bit(&mut self.touched, self.ptr, true);
            self.pc = pc + 1;
        } else if c == '.' {
            self.output.push(cell);
            self.pc = pc + 1;
        } else if c == '[' && cell == 0 {
            match jump_fwd(&self.code, self.pc) {
                Some(k) => {
                    proof {
                        let j = choose|j: int| closes_fwd(m.code, m.pc, j);
                        lemma_closes_fwd_unique(m.code, m.pc, k as int, j);
                    }
                    self.pc = k + 1;
                    self.iters = self.iters + 1;
                },
                None => {
                    return Err(BfError::UnbalancedProgram);
                },
            }
        } else if c == ']' && cell != 0 {
            match jump_bwd(&self.code, self.pc) {
                Some(k) => {
                    proof {
                        let j = choose|j: int| opens_bwd(m.code, m.pc, j);
                        lemma_opens_bwd_unique(m.code, m.pc, k as int, j);
                    }
                    self.pc = k + 1;
                    self.iters = self.iters + 1;
                },
                None => {
                    return Err(BfError::UnbalancedProgram);
                },
            }
        } else {
            self.pc = pc + 1;
        }
        assert(self@ =~= m.step()->Ok_0);
        Ok(())
    }

    /// Runs until the program halts, an error stops it, or a `,` waits for a
    /// byte. Whatever the input still to come, the run's outcome is unchanged.
    pub fn resume(&mut self) -> (r: Result<Pause, BfError>)
        requires
            old(self).inv(),
        ensures
            final(self).inv(),
            r matches Ok(_) ==> forall|input: Seq<u8>|
                #[trigger] outcome(old(self)@, input) == outcome(final(self)@, input),
            r == Ok::<Pause, BfError>(Pause::Halted) ==> !final(self)@.running(),
            r == Ok::<Pause, BfError>(Pause::AwaitingInput) ==> final(self)@.awaiting_input(),
            r matches Err(e) ==> forall|input: Seq<u8>|
                #[trigger] outcome(old(self)@, input) == Err::<Seq<u8>, BfError>(e),
    {
        let ghost start = self@;
        while self.pc < self.code.len() && self.iters <= ITERATION_LIMIT && self.code[self.pc]
            != ','
            invariant
                self.inv(),
                start == old(self)@,
                forall|input: Seq<u8>| #[trigger] outcome(start, input) == outcome(self@, input),
            decreases ITERATION_LIMIT + 1 - self@.iters, self@.code.len() - self@.pc,
        {
            let ghost before = self@;
            let r = self.exec_step();
            assert forall|input: Seq<u8>| #[trigger]
                outcome(before, input) == (match r {
                    Ok(_) => outcome(self@, input),
                    Err(e) => Err::<Seq<u8>, BfError>(e),
                }) by {}
            if let Err(e) = r {
                assert forall|input: Seq<u8>| #[trigger]
                    outcome(start, input) == Err::<Seq<u8>, BfError>(e) by {
                    assert(outcome(start, input) == outcome(before, input));
                }
                return Err(e);
            }
        }
        if self.pc < self.code.len() && self.iters <= ITERATION_LIMIT {
            Ok(Pause::AwaitingInput)
        } else {
            Ok(Pause::Halted)
        }
    }

    /// Hands `byte` to the `,` that waits for it.
    pub fn feed(&mut self, byte: u8)
        requires
            old(self).inv(),
            old(self)@.awaiting_input(),
        ensures
            final(self).inv(),
            final(self)@ == old(self)@.fed(byte),
            forall|input: Seq<u8>| #[trigger]
                outcome(old(self)@, seq![byte] + input) == outcome(final(self)@, input),
    {
        let ghost m = self@;
        assert(self.pc < self.code.len());
        self.memory[self.ptr] = byte;
        self.pc = self.pc + 1;
        assert(self@ =~= m.fed(byte));
        assert forall|input: Seq<u8>| #[trigger]
            outcome(m, seq![byte] + input) == outcome(self@, input) by {
            assert((seq![byte] + input).drop_first() =~= input);
        }
    }

    /// Runs to the end, reading the bytes of `input` in turn at each `,`,
    /// and returns the output bytes.
    pub fn run_bytes(&mut self, input: &[u8]) -> (r: Result<Vec<u8>, BfError>)
        requires
            old(self).inv(),
        ensures
            final(self).inv(),
            outcome(old(self)@, input@) == (match r {
                Ok(v) => Ok::<Seq<u8>, BfError>(v@),
                Err(e) => Err::<Seq<u8>, BfError>(e),
            }),
            r matches Ok(v) ==> !final(self)@.running() && final(self)@.out == v@,
    {
        let ghost start = self@;
        let mut pos: usize = 0;
        assert(input@.subrange(0, input@.len() as int) =~= input@);
        loop
            invariant
                self.inv(),
                start == old(self)@,
                pos <= input@.len(),
                outcome(start, input@) == outcome(self@, input@.subrange(pos as int, input@.len() as int)),
            decreases input@.len() - pos,
        {
            let ghost rest = input@.subrange(pos as int, input@.len() as int);
            let ghost cur = self@;
            match self.resume() {
                Err(e) => {
                    assert(outcome(cur, rest) == Err::<Seq<u8>, BfError>(e));
                    return Err(e);
                },
                Ok(Pause::Halted) => {
                    assert(outcome(cur, rest) == outcome(self@, rest));
                    let out = self.output.clone();
                    assert(out@ =~= self.output@);
                    return Ok(out);
                },
                Ok(Pause::AwaitingInput) => {
                    assert(outcome(cur, rest) == outcome(self@, rest));
                    if pos == input.len() {
                        assert(rest.len() == 0);
                        return Err(BfError::InputFailure);
                    }
                    self.feed(input[pos]);
                    pos = pos + 1;
                    assert(rest =~= seq![input@[pos - 1]] + input@.subrange(pos as int, input@.len() as int));
                },
            }
        }
    }

    /// Runs to the end as `run_bytes` does, and returns the output as text.
    pub fn run(&mut self, input: &[u8]) -> (r: Result<String, BfError>)
        requires
            old(self).inv(),
        ensures
            final(self).inv(),
            outcome(old(self)@, input@) matches Err(e) ==> r == Err::<String, BfError>(e),
            outcome(old(self)@, input@) matches Ok(out) ==> (if valid_utf8(out) {
                r matches Ok(s) && s@ == decode_utf8(out)
            } else {
                r == Err::<String, BfError>(BfError::InvalidEncoding)
            }),
            r matches Ok(s) ==> !final(self)@.running() && s@ == decode_utf8(final(self)@.out),
    {
        match self.run_bytes(input) {
            Err(e) => Err(e),
            Ok(bytes) => match utf8_text(bytes.as_slice()) {
                Some(s) => Ok(s),
                None => Err(BfError::InvalidEncoding),
            },
        }
    }

    /// The output so far, as text.
    pub fn output_text(&self) -> (r: Result<String, BfError>)
        ensures
            valid_utf8(self@.out) ==> (r matches Ok(s) && s@ == decode_utf8(self@.out)),
            !valid_utf8(self@.out) ==> r == Err::<String, BfError>(BfError::InvalidEncoding),
    {
        match utf8_text(self.output.as_slice()) {
            Some(s) => Ok(s),
            None => Err(BfError::InvalidEncoding),
        }
    }
}

} // verus!

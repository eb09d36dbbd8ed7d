//! The executable machine: a resumable interpreter proved to follow the
//! step semantics of [`crate::model`] exactly.

use std::collections::HashMap;
use vstd::prelude::*;

use crate::model::{
    initial_memory, loaded, mem_read, mode_of, opcode_of, op_length, read_param, run_post,
    run_trace, step, stopped, steps, valid_opcode, write_param, StepOutcome, VmError, VmState,
    STEP_LIMIT,
};
use crate::parse::{parse_program_text, program_values};

verus! {

broadcast use vstd::std_specs::hash::group_hash_axioms;

/// One machine instance, holding everything needed to resume it: the
/// sparse memory, the instruction pointer, the relative base, the queue of
/// input values not yet consumed, the log of emitted values, and the flag
/// that is cleared once the halt instruction is reached.
pub struct IntcodeProgram {
    /// Sparse program memory; unset addresses read as zero.
    pub memory: HashMap<u64, i64>,
    /// Offset added to relative-mode operands.
    pub relative_base: i64,
    /// Address of the next instruction to execute.
    pub instruction_pointer: u64,
    /// Input values not yet consumed, oldest first.
    pub input: Vec<i64>,
    /// Values the program has emitted, oldest first.
    pub output: Vec<i64>,
    /// False once the halt instruction has been reached.
    pub active: bool,
}

impl View for IntcodeProgram {
    type V = VmState;

    open spec fn view(&self) -> VmState {
        VmState {
            mem: self.memory@,
            ip: self.instruction_pointer,
            rel_base: self.relative_base,
            input: self.input@,
            output: self.output@,
            active: self.active,
        }
    }
}

/// One decoded instruction: its opcode, its length in memory cells, and
/// the addressing-mode digit of each of its three possible parameters.
struct IntcodeOperation {
    opcode: u8,
    len: u8,
    modes: [u8; 3],
}

/// `op` is the correct decoding of the instruction value `instr`.
spec fn decodes(instr: i64, op: IntcodeOperation) -> bool {
    &&& instr >= 0
    &&& valid_opcode(opcode_of(instr))
    &&& op.opcode as int == opcode_of(instr)
    &&& op.len as int == op_length(opcode_of(instr))
    &&& op.modes@[0] as int == mode_of(instr, 1)
    &&& op.modes@[1] as int == mode_of(instr, 2)
    &&& op.modes@[2] as int == mode_of(instr, 3)
}

impl IntcodeOperation {
    /// Decode an instruction value: the low two decimal digits select the
    /// operation, the digits above them give the parameter modes, least
    /// significant digit first.
    fn new(instr: i64) -> (r: Result<IntcodeOperation, VmError>)
        ensures
            match r {
                Ok(op) => decodes(instr, op),
                Err(e) => {
                    &&& e == VmError::InvalidOpcode
                    &&& (instr < 0 || !valid_opcode(opcode_of(instr)))
                },
            },
    {
        if instr < 0 {
            return Err(VmError::InvalidOpcode);
        }
        let v = instr as u64;
        let code: u8 = (v % 100) as u8;
        if !(code >= 1 && code <= 9 || code == 99) {
            return Err(VmError::InvalidOpcode);
        }
        let m1: u8 = ((v / 100) % 10) as u8;
        let m2: u8 = ((v / 1000) % 10) as u8;
        let m3: u8 = ((v / 10000) % 10) as u8;
        let len: u8 = if code == 1 || code == 2 || code == 7 || code == 8 {
            4
        } else if code == 5 || code == 6 {
            3
        } else if code == 99 {
            1
        } else {
            2
        };
        Ok(IntcodeOperation { opcode: code, len: len, modes: [m1, m2, m3] })
    }
}

impl IntcodeProgram {
    /// Value stored in program memory at `address`; unset addresses read
    /// as zero.
    pub fn get_value(&self, address: u64) -> (value: i64)
        ensures
            value == mem_read(self@.mem, address),
    {
        match self.memory.get(&address) {
            Some(v) => *v,
            None => 0,
        }
    }

    /// Store `value` in program memory at `address`, allocating the cell
    /// if it was never written before.
    pub fn set_value(&mut self, address: u64, value: i64)
        ensures
            final(self)@ == (VmState { mem: old(self)@.mem.insert(address, value), ..old(self)@ }),
    {
        let _ = self.memory.insert(address, value);
    }

    /// Resolve source parameter `p` of the current instruction to the
    /// value it reads, following `mode`.
    fn read_operand(&self, p: u64, mode: u8) -> (r: Result<i64, VmError>)
        requires
            1 <= p <= 3,
            mode as int == mode_of(mem_read(self@.mem, self@.ip), p as int),
        ensures
            r == read_param(self@, p as int),
    {
        let pa = match self.instruction_pointer.checked_add(p) {
            Some(a) => a,
            None => {
                return Err(VmError::AddressOutOfRange);
            },
        };
        let operand = self.get_value(pa);
        if mode == 0 {
            if operand < 0 {
                Err(VmError::AddressOutOfRange)
            } else {
                Ok(self.get_value(operand as u64))
            }
        } else if mode == 1 {
            Ok(operand)
        } else if mode == 2 {
            let ea = (self.relative_base as i128) + (operand as i128);
            if ea < 0 || ea > (u64::MAX as i128) {
                Err(VmError::AddressOutOfRange)
            } else {
                Ok(self.get_value(ea as u64))
            }
        } else {
            Err(VmError::UnrecognizedParameterMode)
        }
    }

    /// Resolve store parameter `p` of the current instruction to the
    /// address it writes; immediate mode is never a valid destination.
    fn write_operand(&self, p: u64, mode: u8) -> (r: Result<u64, VmError>)
        requires
            1 <= p <= 3,
            mode as int == mode_of(mem_read(self@.mem, self@.ip), p as int),
        ensures
            r == write_param(self@, p as int),
    {
        let pa = match self.instruction_pointer.checked_add(p) {
            Some(a) => a,
            None => {
                return Err(VmError::AddressOutOfRange);
            },
        };
        let operand = self.get_value(pa);
        if mode == 0 {
            if operand < 0 {
                Err(VmError::AddressOutOfRange)
            } else {
                Ok(operand as u64)
            }
        } else if mode == 2 {
            let ea = (self.relative_base as i128) + (operand as i128);
            if ea < 0 || ea > (u64::MAX as i128) {
                Err(VmError::AddressOutOfRange)
            } else {
                Ok(ea as u64)
            }
        } else {
            Err(VmError::UnrecognizedParameterMode)
        }
    }
}

impl IntcodeOperation {
    /// Add the first two parameters and store the sum (opcode 1).
    fn op_add(&self, prg: &mut IntcodeProgram) -> (r: Result<(), VmError>)
        requires
            old(prg)@.active,
            decodes(mem_read(old(prg)@.mem, old(prg)@.ip), *self),
            self.opcode == 1,
        ensures
            match step(old(prg)@) {
                StepOutcome::Progress(t) => r is Ok && final(prg)@ == t,
                StepOutcome::Fail(e) => r == Err::<(), VmError>(e) && final(prg)@ == old(prg)@,
                _ => false,
            },
    {
        let a = match prg.read_operand(1, self.modes[0]) {
            Ok(v) => v,
            Err(e) => {
                return Err(e);
            },
        };
        let b = match prg.read_operand(2, self.modes[1]) {
            Ok(v) => v,
            Err(e) => {
                return Err(e);
            },
        };
        let d = match prg.write_operand(3, self.modes[2]) {
            Ok(v) => v,
            Err(e) => {
                return Err(e);
            },
        };
        let v = match a.checked_add(b) {
            Some(v) => v,
            None => {
                return Err(VmError::ArithmeticOverflow);
            },
        };
        let ip2 = match prg.instruction_pointer.checked_add(4) {
            Some(x) => x,
            None => {
                return Err(VmError::AddressOutOfRange);
            },
        };
        prg.set_value(d, v);
        prg.instruction_pointer = ip2;
        Ok(())
    }

    /// Multiply the first two parameters and store the product (opcode 2).
    fn op_mult(&self, prg: &mut IntcodeProgram) -> (r: Result<(), VmError>)
        requires
            old(prg)@.active,
            decodes(mem_read(old(prg)@.mem, old(prg)@.ip), *self),
            self.opcode == 2,
        ensures
            match step(old(prg)@) {
                StepOutcome::Progress(t) => r is Ok && final(prg)@ == t,
                StepOutcome::Fail(e) => r == Err::<(), VmError>(e) && final(prg)@ == old(prg)@,
                _ => false,
            },
    {
        let a = match prg.read_operand(1, self.modes[0]) {
            Ok(v) => v,
            Err(e) => {
                return Err(e);
            },
        };
        let b = match prg.read_operand(2, self.modes[1]) {
            Ok(v) => v,
            Err(e) => {
                return Err(e);
            },
        };
        let d = match prg.write_operand(3, self.modes[2]) {
            Ok(v) => v,
            Err(e) => {
                return Err(e);
            },
        };
        let v = match a.checked_mul(b) {
            Some(v) => v,
            None => {
                return Err(VmError::ArithmeticOverflow);
            },
        };
        let ip2 = match prg.instruction_pointer.checked_add(4) {
            Some(x) => x,
            None => {
                return Err(VmError::AddressOutOfRange);
            },
        };
        prg.set_value(d, v);
        prg.instruction_pointer = ip2;
        Ok(())
    }

    /// Consume the next queued input value and store it (opcode 3). The
    /// run methods only reach this with a non-empty queue; an empty queue
    /// suspends the machine instead.
    fn op_input(&self, prg: &mut IntcodeProgram) -> (r: Result<(), VmError>)
        requires
            old(prg)@.active,
            decodes(mem_read(old(prg)@.mem, old(prg)@.ip), *self),
            self.opcode == 3,
            old(prg)@.input.len() > 0,
        ensures
            match step(old(prg)@) {
                StepOutcome::Progress(t) => r is Ok && final(prg)@ == t,
                StepOutcome::Fail(e) => r == Err::<(), VmError>(e) && final(prg)@ == old(prg)@,
                _ => false,
            },
    {
        let d = match prg.write_operand(1, self.modes[0]) {
            Ok(v) => v,
            Err(e) => {
                return Err(e);
            },
        };
        let ip2 = match prg.instruction_pointer.checked_add(2) {
            Some(x) => x,
            None => {
                return Err(VmError::AddressOutOfRange);
            },
        };
        let value = prg.input.remove(0);
        prg.set_value(d, value);
        prg.instruction_pointer = ip2;
        proof {
            assert(old(prg)@.input.remove(0) =~= old(prg)@.input.subrange(
                1,
                old(prg)@.input.len() as int,
            ));
        }
        Ok(())
    }

    /// Append the value of the parameter to the output log (opcode 4).
    fn op_output(&self, prg: &mut IntcodeProgram) -> (r: Result<(), VmError>)
        requires
            old(prg)@.active,
            decodes(mem_read(old(prg)@.mem, old(prg)@.ip), *self),
            self.opcode == 4,
        ensures
            match step(old(prg)@) {
                StepOutcome::Progress(t) => r is Ok && final(prg)@ == t,
                StepOutcome::Fail(e) => r == Err::<(), VmError>(e) && final(prg)@ == old(prg)@,
                _ => false,
            },
    {
        let v = match prg.read_operand(1, self.modes[0]) {
            Ok(v) => v,
            Err(e) => {
                return Err(e);
            },
        };
        let ip2 = match prg.instruction_pointer.checked_add(2) {
            Some(x) => x,
            None => {
                return Err(VmError::AddressOutOfRange);
            },
        };
        prg.output.push(v);
        prg.instruction_pointer = ip2;
        Ok(())
    }

    /// Jump to the second parameter if the first is non-zero (opcode 5).
    fn op_jump_true(&self, prg: &mut IntcodeProgram) -> (r: Result<(), VmError>)
        requires
            old(prg)@.active,
            decodes(mem_read(old(prg)@.mem, old(prg)@.ip), *self),
            self.opcode == 5,
        ensures
            match step(old(prg)@) {
                StepOutcome::Progress(t) => r is Ok && final(prg)@ == t,
                StepOutcome::Fail(e) => r == Err::<(), VmError>(e) && final(prg)@ == old(prg)@,
                _ => false,
            },
    {
        let c = match prg.read_operand(1, self.modes[0]) {
            Ok(v) => v,
            Err(e) => {
                return Err(e);
            },
        };
        let t = match prg.read_operand(2, self.modes[1]) {
            Ok(v) => v,
            Err(e) => {
                return Err(e);
            },
        };
        if c != 0 {
            if t < 0 {
                return Err(VmError::AddressOutOfRange);
            }
            prg.instruction_pointer = t as u64;
        } else {
            let ip2 = match prg.instruction_pointer.checked_add(3) {
                Some(x) => x,
                None => {
                    return Err(VmError::AddressOutOfRange);
                },
            };
            prg.instruction_pointer = ip2;
        }
        Ok(())
    }

    /// Jump to the second parameter if the first is zero (opcode 6).
    fn op_jump_false(&self, prg: &mut IntcodeProgram) -> (r: Result<(), VmError>)
        requires
            old(prg)@.active,
            decodes(mem_read(old(prg)@.mem, old(prg)@.ip), *self),
            self.opcode == 6,
        ensures
            match step(old(prg)@) {
                StepOutcome::Progress(t) => r is Ok && final(prg)@ == t,
                StepOutcome::Fail(e) => r == Err::<(), VmError>(e) && final(prg)@ == old(prg)@,
                _ => false,
            },
    {
        let c = match prg.read_operand(1, self.modes[0]) {
            Ok(v) => v,
            Err(e) => {
                return Err(e);
            },
        };
        let t = match prg.read_operand(2, self.modes[1]) {
            Ok(v) => v,
            Err(e) => {
                return Err(e);
            },
        };
        if c == 0 {
            if t < 0 {
                return Err(VmError::AddressOutOfRange);
            }
            prg.instruction_pointer = t as u64;
        } else {
            let ip2 = match prg.instruction_pointer.checked_add(3) {
                Some(x) => x,
                None => {
                    return Err(VmError::AddressOutOfRange);
                },
            };
            prg.instruction_pointer = ip2;
        }
        Ok(())
    }

    /// Store 1 if the first parameter is less than the second, else 0
    /// (opcode 7).
    fn op_less_than(&self, prg: &mut IntcodeProgram) -> (r: Result<(), VmError>)
        requires
            old(prg)@.active,
            decodes(mem_read(old(prg)@.mem, old(prg)@.ip), *self),
            self.opcode == 7,
        ensures
            match step(old(prg)@) {
                StepOutcome::Progress(t) => r is Ok && final(prg)@ == t,
                StepOutcome::Fail(e) => r == Err::<(), VmError>(e) && final(prg)@ == old(prg)@,
                _ => false,
            },
    {
        let a = match prg.read_operand(1, self.modes[0]) {
            Ok(v) => v,
            Err(e) => {
                return Err(e);
            },
        };
        let b = match prg.read_operand(2, self.modes[1]) {
            Ok(v) => v,
            Err(e) => {
                return Err(e);
            },
        };
        let d = match prg.write_operand(3, self.modes[2]) {
            Ok(v) => v,
            Err(e) => {
                return Err(e);
            },
        };
        let ip2 = match prg.instruction_pointer.checked_add(4) {
            Some(x) => x,
            None => {
                return Err(VmError::AddressOutOfRange);
            },
        };
        let v: i64 = if a < b {
            1
        } else {
            0
        };
        prg.set_value(d, v);
        prg.instruction_pointer = ip2;
        Ok(())
    }

    /// Store 1 if the first two parameters are equal, else 0 (opcode 8).
    fn op_equals(&self, prg: &mut IntcodeProgram) -> (r: Result<(), VmError>)
        requires
            old(prg)@.active,
            decodes(mem_read(old(prg)@.mem, old(prg)@.ip), *self),
            self.opcode == 8,
        ensures
            match step(old(prg)@) {
                StepOutcome::Progress(t) => r is Ok && final(prg)@ == t,
                StepOutcome::Fail(e) => r == Err::<(), VmError>(e) && final(prg)@ == old(prg)@,
                _ => false,
            },
    {
        let a = match prg.read_operand(1, self.modes[0]) {
            Ok(v) => v,
            Err(e) => {
                return Err(e);
            },
        };
        let b = match prg.read_operand(2, self.modes[1]) {
            Ok(v) => v,
            Err(e) => {
                return Err(e);
            },
        };
        let d = match prg.write_operand(3, self.modes[2]) {
            Ok(v) => v,
            Err(e) => {
                return Err(e);
            },
        };
        let ip2 = match prg.instruction_pointer.checked_add(4) {
            Some(x) => x,
            None => {
                return Err(VmError::AddressOutOfRange);
            },
        };
        let v: i64 = if a == b {
            1
        } else {
            0
        };
        prg.set_value(d, v);
        prg.instruction_pointer = ip2;
        Ok(())
    }

    /// Add the parameter to the relative base (opcode 9).
    fn op_adj_rel_base(&self, prg: &mut IntcodeProgram) -> (r: Result<(), VmError>)
        requires
            old(prg)@.active,
            decodes(mem_read(old(prg)@.mem, old(prg)@.ip), *self),
            self.opcode == 9,
        ensures
            match step(old(prg)@) {
                StepOutcome::Progress(t) => r is Ok && final(prg)@ == t,
                StepOutcome::Fail(e) => r == Err::<(), VmError>(e) && final(prg)@ == old(prg)@,
                _ => false,
            },
    {
        let v = match prg.read_operand(1, self.modes[0]) {
            Ok(v) => v,
            Err(e) => {
                return Err(e);
            },
        };
        let rb = match prg.relative_base.checked_add(v) {
            Some(x) => x,
            None => {
                return Err(VmError::ArithmeticOverflow);
            },
        };
        let ip2 = match prg.instruction_pointer.checked_add(2) {
            Some(x) => x,
            None => {
                return Err(VmError::AddressOutOfRange);
            },
        };
        prg.relative_base = rb;
        prg.instruction_pointer = ip2;
        Ok(())
    }

    /// Execute the decoded instruction on `prg`: exactly one machine step.
    fn perform(&self, prg: &mut IntcodeProgram) -> (r: Result<(), VmError>)
        requires
            old(prg)@.active,
            decodes(mem_read(old(prg)@.mem, old(prg)@.ip), *self),
            self.opcode != 99,
            self.opcode == 3 ==> old(prg)@.input.len() > 0,
        ensures
            match step(old(prg)@) {
                StepOutcome::Progress(t) => r is Ok && final(prg)@ == t,
                StepOutcome::Fail(e) => r == Err::<(), VmError>(e) && final(prg)@ == old(prg)@,
                _ => false,
            },
    {
        if self.opcode == 1 {
            self.op_add(prg)
        } else if self.opcode == 2 {
            self.op_mult(prg)
        } else if self.opcode == 3 {
            self.op_input(prg)
        } else if self.opcode == 4 {
            self.op_output(prg)
        } else if self.opcode == 5 {
            self.op_jump_true(prg)
        } else if self.opcode == 6 {
            self.op_jump_false(prg)
        } else if self.opcode == 7 {
            self.op_less_than(prg)
        } else if self.opcode == 8 {
            self.op_equals(prg)
        } else {
            self.op_adj_rel_base(prg)
        }
    }
}

impl IntcodeProgram {
    /// Load a machine from program text: comma-separated signed decimal
    /// integers filling memory from address zero. `prg_input` pre-supplies
    /// the input queue; `None` leaves the queue empty, so that the first
    /// input instruction suspends until a caller enqueues a value.
    ///
    /// Fails with `MalformedProgramText` exactly when the text does not
    /// denote a list of 64-bit values (see
    /// [`crate::parse::program_values`]); the machine never starts then.
    pub fn new(data: &String, prg_input: Option<Vec<i64>>) -> (r: Result<IntcodeProgram, VmError>)
        ensures
            match r {
                Ok(prg) => {
                    &&& program_values(data@) is Some
                    &&& prg@ == loaded(
                        program_values(data@)->Some_0,
                        match prg_input {
                            Some(v) => v@,
                            None => Seq::<i64>::empty(),
                        },
                    )
                },
                Err(e) => {
                    &&& e == VmError::MalformedProgramText
                    &&& program_values(data@) is None
                },
            },
    {
        let values = match parse_program_text(data) {
            Ok(v) => v,
            Err(e) => {
                return Err(e);
            },
        };
        let mut prg = Self::from_values(&values);
        match prg_input {
            Some(v) => {
                prg.input = v;
            },
            None => {},
        }
        proof {
            assert(prg@ =~= loaded(
                program_values(data@)->Some_0,
                match prg_input {
                    Some(v) => v@,
                    None => Seq::<i64>::empty(),
                },
            ));
        }
        Ok(prg)
    }

    /// A freshly loaded machine over the given memory values, with an
    /// empty input queue.
    pub fn from_values(values: &Vec<i64>) -> (prg: IntcodeProgram)
        ensures
            prg@ == loaded(values@, Seq::<i64>::empty()),
    {
        let mut memory: HashMap<u64, i64> = HashMap::new();
        let mut i: usize = 0;
        while i < values.len()
            invariant
                i <= values.len(),
                memory@ == initial_memory(values@.subrange(0, i as int)),
            decreases values.len() - i,
        {
            let _ = memory.insert(i as u64, values[i]);
            proof {
                assert(initial_memory(values@.subrange(0, i + 1)) =~= initial_memory(
                    values@.subrange(0, i as int),
                ).insert(i as u64, values@[i as int]));
            }
            i = i + 1;
        }
        proof {
            assert(values@.subrange(0, values@.len() as int) =~= values@);
        }
        IntcodeProgram {
            memory: memory,
            relative_base: 0,
            instruction_pointer: 0,
            input: Vec::new(),
            output: Vec::new(),
            active: true,
        }
    }

    /// Append one value to the input queue. This is how a caller resumes
    /// a machine that suspended on input: enqueue, then run again.
    pub fn inject_input(&mut self, value: i64)
        ensures
            final(self)@ == (VmState { input: old(self)@.input.push(value), ..old(self)@ }),
    {
        self.input.push(value);
    }

    /// Classify the machine as it stands, without executing anything:
    /// `None` when it can still make progress, otherwise how it has
    /// stopped — cleanly, suspended on input, or on which fault.
    fn classify_stopped(&self) -> (r: Option<Result<(), VmError>>)
        ensures
            match r {
                None => !stopped(self@),
                Some(c) => match c {
                    Ok(_) => step(self@) is Halted || step(self@) is NeedInput,
                    Err(e) => step(self@) == StepOutcome::Fail(e),
                },
            },
    {
        if !self.active {
            return Some(Ok(()));
        }
        let instr = self.get_value(self.instruction_pointer);
        let op = match IntcodeOperation::new(instr) {
            Ok(op) => op,
            Err(e) => {
                return Some(Err(e));
            },
        };
        if op.opcode == 99 {
            return None;
        }
        if op.opcode == 3 && self.input.len() == 0 {
            return Some(Ok(()));
        }
        if op.opcode == 1 || op.opcode == 2 || op.opcode == 7 || op.opcode == 8 {
            let a = match self.read_operand(1, op.modes[0]) {
                Ok(v) => v,
                Err(e) => {
                    return Some(Err(e));
                },
            };
            let b = match self.read_operand(2, op.modes[1]) {
                Ok(v) => v,
                Err(e) => {
                    return Some(Err(e));
                },
            };
            let _ = match self.write_operand(3, op.modes[2]) {
                Ok(v) => v,
                Err(e) => {
                    return Some(Err(e));
                },
            };
            if op.opcode == 1 && a.checked_add(b).is_none() {
                return Some(Err(VmError::ArithmeticOverflow));
            }
            if op.opcode == 2 && a.checked_mul(b).is_none() {
                return Some(Err(VmError::ArithmeticOverflow));
            }
            if self.instruction_pointer.checked_add(4).is_none() {
                return Some(Err(VmError::AddressOutOfRange));
            }
            None
        } else if op.opcode == 5 || op.opcode == 6 {
            let c = match self.read_operand(1, op.modes[0]) {
                Ok(v) => v,
                Err(e) => {
                    return Some(Err(e));
                },
            };
            let t = match self.read_operand(2, op.modes[1]) {
                Ok(v) => v,
                Err(e) => {
                    return Some(Err(e));
                },
            };
            let taken = if op.opcode == 5 {
                c != 0
            } else {
                c == 0
            };
            if taken {
                if t < 0 {
                    return Some(Err(VmError::AddressOutOfRange));
                }
                None
            } else {
                if self.instruction_pointer.checked_add(3).is_none() {
                    return Some(Err(VmError::AddressOutOfRange));
                }
                None
            }
        } else if op.opcode == 3 {
            let _ = match self.write_operand(1, op.modes[0]) {
                Ok(v) => v,
                Err(e) => {
                    return Some(Err(e));
                },
            };
            if self.instruction_pointer.checked_add(2).is_none() {
                return Some(Err(VmError::AddressOutOfRange));
            }
            None
        } else if op.opcode == 4 {
            let _ = match self.read_operand(1, op.modes[0]) {
                Ok(v) => v,
                Err(e) => {
                    return Some(Err(e));
                },
            };
            if self.instruction_pointer.checked_add(2).is_none() {
                return Some(Err(VmError::AddressOutOfRange));
            }
            None
        } else {
            let v = match self.read_operand(1, op.modes[0]) {
                Ok(v) => v,
                Err(e) => {
                    return Some(Err(e));
                },
            };
            if self.relative_base.checked_add(v).is_none() {
                return Some(Err(VmError::ArithmeticOverflow));
            }
            if self.instruction_pointer.checked_add(2).is_none() {
                return Some(Err(VmError::AddressOutOfRange));
            }
            None
        }
    }

    /// Run until the machine stops: it reaches the halt instruction, it
    /// reaches an input instruction with an empty input queue (suspension;
    /// enqueue input and run again to resume), or an instruction faults.
    /// A machine that stops at none of these within [`STEP_LIMIT`]
    /// instructions is abandoned with `StepLimitExceeded` — returned
    /// exactly when the machine does not stop within the budget.
    pub fn run(&mut self) -> (r: Result<(), VmError>)
        ensures
            run_post(old(self)@, final(self)@, r),
    {
        let ghost pre = self@;
        let ghost mut n: nat = 0;
        let mut fuel: u64 = STEP_LIMIT;
        while fuel > 0
            invariant
                pre == old(self)@,
                self@ == steps(pre, n),
                n + fuel == STEP_LIMIT as nat,
                forall|m: nat| m < n ==> !stopped(#[trigger] steps(pre, m)),
            decreases fuel,
        {
            let ghost cur = self@;
            if !self.active {
                proof {
                    assert(run_trace(pre, self@, Ok::<(), VmError>(()), n));
                }
                return Ok(());
            }
            let instr = self.get_value(self.instruction_pointer);
            let op = match IntcodeOperation::new(instr) {
                Ok(op) => op,
                Err(e) => {
                    proof {
                        assert(run_trace(pre, self@, Err::<(), VmError>(e), n));
                    }
                    return Err(e);
                },
            };
            if op.opcode == 99 {
                self.active = false;
                proof {
                    n = n + 1;
                    assert(step(cur) == StepOutcome::Progress(self@));
                    assert(run_trace(pre, self@, Ok::<(), VmError>(()), n));
                }
                return Ok(());
            }
            if op.opcode == 3 && self.input.len() == 0 {
                proof {
                    assert(step(cur) is NeedInput);
                    assert(run_trace(pre, self@, Ok::<(), VmError>(()), n));
                }
                return Ok(());
            }
            match op.perform(self) {
                Ok(_) => {
                    proof {
                        n = n + 1;
                    }
                    fuel = fuel - 1;
                },
                Err(e) => {
                    proof {
                        assert(run_trace(pre, self@, Err::<(), VmError>(e), n));
                    }
                    return Err(e);
                },
            }
        }
        match self.classify_stopped() {
            Some(c) => {
                match c {
                    Ok(_) => {
                        proof {
                            assert(run_trace(pre, self@, Ok::<(), VmError>(()), n));
                        }
                        Ok(())
                    },
                    Err(e) => {
                        proof {
                            assert(run_trace(pre, self@, Err::<(), VmError>(e), n));
                        }
                        Err(e)
                    },
                }
            },
            None => {
                proof {
                    assert(run_trace(pre, self@, Err::<(), VmError>(VmError::StepLimitExceeded), n));
                }
                Err(VmError::StepLimitExceeded)
            },
        }
    }

    /// Run until the next point where the machine cannot continue on its
    /// own. Suspension happens only at an input instruction whose queue is
    /// empty, so in batch execution this coincides with [`Self::run`]; the
    /// two names record the two ways callers drive a machine: to
    /// completion, or round by round inside a feedback network.
    pub fn run_until_input(&mut self) -> (r: Result<(), VmError>)
        ensures
            run_post(old(self)@, final(self)@, r),
    {
        self.run()
    }
}

} // verus!

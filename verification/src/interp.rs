//! The tape-machine interpreter: executes a flattened, already-validated
//! statement list against an in-memory byte source and byte sink. The
//! lowering stage's invariants (in-bounds jumps, a terminal `End`) are what
//! keep the instruction pointer valid; Verus checks every tape and
//! statement-list access against them, so the hot path carries no runtime
//! bounds checks of its own.
use vstd::prelude::*;

use crate::lir::{Lir, Stmt};

verus! {

/// Number of cells on the tape.
pub const MEM_SIZE: usize = 32_000;

/// The mutable machine state: the fixed-size wrapping-byte tape, the tape
/// cursor and the instruction pointer.
#[derive(Debug, PartialEq, Eq)]
pub struct Machine {
    pub tape: Vec<u8>,
    pub ptr: usize,
    pub ip: usize,
}

/// Mathematical machine state.
#[verifier::ext_equal]
pub ghost struct MState {
    pub ip: int,
    pub ptr: int,
    pub tape: Seq<u8>,
}

pub open spec fn mview(m: Machine) -> MState {
    MState { ip: m.ip as int, ptr: m.ptr as int, tape: m.tape@ }
}

/// The all-zero tape a run starts from.
pub open spec fn zero_tape() -> Seq<u8> {
    Seq::new(MEM_SIZE as nat, |i: int| 0u8)
}

/// The machine state a fresh run starts from.
pub open spec fn init_state() -> MState {
    MState { ip: 0, ptr: 0, tape: zero_tape() }
}

impl Machine {
    pub open spec fn wf(self) -> bool {
        self.tape@.len() == MEM_SIZE && self.ptr < MEM_SIZE
    }

    /// A fresh machine: zero-initialized tape, cursor and instruction
    /// pointer at 0.
    pub fn new() -> (m: Machine)
        ensures
            m.wf(),
            mview(m) == init_state(),
    {
        let tape: Vec<u8> = vec![0u8; MEM_SIZE];
        proof {
            assert(tape@ =~= zero_tape());
        }
        Machine { tape, ptr: 0, ip: 0 }
    }
}

/// Where the cursor lands after `Right(n)`: moving past the last index is a
/// hard reset to 0.
pub open spec fn right_move(ptr: int, n: int) -> int {
    if ptr + n >= MEM_SIZE {
        0
    } else {
        ptr + n
    }
}

/// Where the cursor lands after `Left(n)`: moving past index 0 wraps to
/// `MEM_SIZE - 1 - (n - ptr)`, the deficit measured from the top, the
/// deficit itself taken modulo the tape size.
pub open spec fn left_move(ptr: int, n: int) -> int {
    if n <= ptr {
        ptr - n
    } else {
        MEM_SIZE - 1 - ((n - ptr) % (MEM_SIZE as int))
    }
}

/// The tape index a cursor-relative offset denotes, wrapped onto the tape.
pub open spec fn cell_index(ptr: int, offset: int) -> int {
    let t = ptr + offset;
    if 0 <= t && t < MEM_SIZE {
        t
    } else if t >= MEM_SIZE {
        t % (MEM_SIZE as int)
    } else {
        let r = (0 - t) % (MEM_SIZE as int);
        if r == 0 {
            0
        } else {
            MEM_SIZE - r
        }
    }
}

/// What one dispatch step does.
#[verifier::ext_equal]
pub ghost enum StepRes {
    /// The machine took a step: its new state, the byte written and flushed
    /// to the sink (if any), and whether the offered input byte was
    /// consumed.
    Next { st: MState, out: Option<u8>, consumed: bool },
    /// The statement is `In` but no input byte is available.
    NeedInput,
    /// The statement is the `End` terminator.
    Halt,
    /// The instruction pointer is out of bounds; unreachable on a
    /// well-formed list.
    Stuck,
}

/// One step of the machine: fetch the statement under the instruction
/// pointer, advance the pointer, dispatch.
pub open spec fn step_spec(prog: Seq<Stmt>, st: MState, inbyte: Option<u8>) -> StepRes {
    if !(0 <= st.ip && st.ip < prog.len()) {
        StepRes::Stuck
    } else {
        let ip1 = st.ip + 1;
        match prog[st.ip] {
            Stmt::Add(n) => StepRes::Next {
                st: MState {
                    ip: ip1,
                    ptr: st.ptr,
                    tape: st.tape.update(
                        st.ptr,
                        vstd::wrapping::u8_specs::wrapping_add(st.tape[st.ptr], n),
                    ),
                },
                out: Option::None,
                consumed: false,
            },
            Stmt::Sub(n) => StepRes::Next {
                st: MState {
                    ip: ip1,
                    ptr: st.ptr,
                    tape: st.tape.update(
                        st.ptr,
                        vstd::wrapping::u8_specs::wrapping_sub(st.tape[st.ptr], n),
                    ),
                },
                out: Option::None,
                consumed: false,
            },
            Stmt::AddOffset { offset, n } => {
                let idx = cell_index(st.ptr, offset as int);
                StepRes::Next {
                    st: MState {
                        ip: ip1,
                        ptr: st.ptr,
                        tape: st.tape.update(
                            idx,
                            vstd::wrapping::u8_specs::wrapping_add(st.tape[idx], n),
                        ),
                    },
                    out: Option::None,
                    consumed: false,
                }
            },
            Stmt::SubOffset { offset, n } => {
                let idx = cell_index(st.ptr, offset as int);
                StepRes::Next {
                    st: MState {
                        ip: ip1,
                        ptr: st.ptr,
                        tape: st.tape.update(
                            idx,
                            vstd::wrapping::u8_specs::wrapping_sub(st.tape[idx], n),
                        ),
                    },
                    out: Option::None,
                    consumed: false,
                }
            },
            Stmt::MoveAddTo { offset } => {
                let v = st.tape[st.ptr];
                let idx = cell_index(st.ptr, offset as int);
                let t1 = st.tape.update(st.ptr, 0u8);
                let t2 = t1.update(idx, vstd::wrapping::u8_specs::wrapping_add(t1[idx], v));
                StepRes::Next {
                    st: MState { ip: ip1, ptr: st.ptr, tape: t2 },
                    out: Option::None,
                    consumed: false,
                }
            },
            Stmt::Right(n) => StepRes::Next {
                st: MState { ip: ip1, ptr: right_move(st.ptr, n as int), tape: st.tape },
                out: Option::None,
                consumed: false,
            },
            Stmt::Left(n) => StepRes::Next {
                st: MState { ip: ip1, ptr: left_move(st.ptr, n as int), tape: st.tape },
                out: Option::None,
                consumed: false,
            },
            Stmt::Out => StepRes::Next {
                st: MState { ip: ip1, ptr: st.ptr, tape: st.tape },
                out: Option::Some(st.tape[st.ptr]),
                consumed: false,
            },
            Stmt::In => match inbyte {
                Option::None => StepRes::NeedInput,
                Option::Some(b) => StepRes::Next {
                    st: MState { ip: ip1, ptr: st.ptr, tape: st.tape.update(st.ptr, b) },
                    out: Option::None,
                    consumed: true,
                },
            },
            Stmt::SetN(n) => StepRes::Next {
                st: MState { ip: ip1, ptr: st.ptr, tape: st.tape.update(st.ptr, n) },
                out: Option::None,
                consumed: false,
            },
            Stmt::JmpIfZero(p) => StepRes::Next {
                st: MState {
                    ip: if st.tape[st.ptr] == 0 {
                        p as int
                    } else {
                        ip1
                    },
                    ptr: st.ptr,
                    tape: st.tape,
                },
                out: Option::None,
                consumed: false,
            },
            Stmt::JmpIfNonZero(p) => StepRes::Next {
                st: MState {
                    ip: if st.tape[st.ptr] != 0 {
                        p as int
                    } else {
                        ip1
                    },
                    ptr: st.ptr,
                    tape: st.tape,
                },
                out: Option::None,
                consumed: false,
            },
            Stmt::End => StepRes::Halt,
        }
    }
}

/// What one executed step asks the driver to do.
#[derive(Clone, Copy, PartialEq, Eq, Structural, Debug)]
pub enum StepEffect {
    /// A step with no input or output.
    Ran,
    /// The offered input byte was stored into the current cell.
    Consumed,
    /// This byte must be written to the sink and the sink flushed.
    Output(u8),
    /// The statement is `In`: obtain one byte and call again with it.
    NeedInput,
    /// The program's `End` was reached.
    Halted,
}

/// Execute one statement. `inbyte` is the input byte on offer: pass `None`
/// first, and if `NeedInput` comes back (the machine unchanged), obtain one
/// byte and call again with `Some`.
pub fn step(m: &mut Machine, code: &Lir, inbyte: Option<u8>) -> (eff: StepEffect)
    requires
        old(m).wf(),
        code.wf(),
        old(m).ip < code.stmts@.len(),
    ensures
        final(m).wf(),
        match step_spec(code.stmts@, mview(*old(m)), inbyte) {
            StepRes::Next { st, out, consumed } => {
                &&& mview(*final(m)) == st
                &&& final(m).ip < code.stmts@.len()
                &&& eff == (match out {
                    Option::Some(b) => StepEffect::Output(b),
                    Option::None => if consumed {
                        StepEffect::Consumed
                    } else {
                        StepEffect::Ran
                    },
                })
            },
            StepRes::NeedInput => eff == StepEffect::NeedInput && mview(*final(m)) == mview(
                *old(m),
            ),
            StepRes::Halt => eff == StepEffect::Halted && mview(*final(m)) == mview(*old(m)),
            StepRes::Stuck => false,
        },
{
    let len = code.stmts.len();
    let instr = code.stmts[m.ip];
    proof {
        assert(m.ip < len);
        assert(code.stmts@.last() == Stmt::End);
        if instr != Stmt::End {
            assert(m.ip < code.stmts@.len() - 1);
        }
        assert(jump_target_ok(instr, code.stmts@.len() as int)) by {
            assert(crate::lir::jump_ok(code.stmts@[m.ip as int], code.stmts@.len() as int));
        }
    }
    let ip1 = m.ip + 1;
    match instr {
        Stmt::Add(n) => {
            m.ip = ip1;
            let v = m.tape[m.ptr];
            m.tape[m.ptr] = v.wrapping_add(n);
            StepEffect::Ran
        },
        Stmt::Sub(n) => {
            m.ip = ip1;
            let v = m.tape[m.ptr];
            m.tape[m.ptr] = v.wrapping_sub(n);
            StepEffect::Ran
        },
        Stmt::AddOffset { offset, n } => {
            m.ip = ip1;
            let idx = offset_index(m.ptr, offset);
            let v = m.tape[idx];
            m.tape[idx] = v.wrapping_add(n);
            StepEffect::Ran
        },
        Stmt::SubOffset { offset, n } => {
            m.ip = ip1;
            let idx = offset_index(m.ptr, offset);
            let v = m.tape[idx];
            m.tape[idx] = v.wrapping_sub(n);
            StepEffect::Ran
        },
        Stmt::MoveAddTo { offset } => {
            m.ip = ip1;
            let v = m.tape[m.ptr];
            m.tape[m.ptr] = 0;
            let idx = offset_index(m.ptr, offset);
            let w = m.tape[idx];
            m.tape[idx] = w.wrapping_add(v);
            StepEffect::Ran
        },
        Stmt::Right(n) => {
            m.ip = ip1;
            if n >= MEM_SIZE - m.ptr {
                m.ptr = 0;
            } else {
                m.ptr = m.ptr + n;
            }
            StepEffect::Ran
        },
        Stmt::Left(n) => {
            m.ip = ip1;
            if n <= m.ptr {
                m.ptr = m.ptr - n;
            } else {
                let d = n - m.ptr;
                m.ptr = MEM_SIZE - 1 - (d % MEM_SIZE);
            }
            StepEffect::Ran
        },
        Stmt::Out => {
            m.ip = ip1;
            StepEffect::Output(m.tape[m.ptr])
        },
        Stmt::In => {
            match inbyte {
                None => StepEffect::NeedInput,
                Some(b) => {
                    m.ip = ip1;
                    m.tape[m.ptr] = b;
                    StepEffect::Consumed
                },
            }
        },
        Stmt::SetN(n) => {
            m.ip = ip1;
            m.tape[m.ptr] = n;
            StepEffect::Ran
        },
        Stmt::JmpIfZero(p) => {
            if m.tape[m.ptr] == 0 {
                m.ip = p;
            } else {
                m.ip = ip1;
            }
            StepEffect::Ran
        },
        Stmt::JmpIfNonZero(p) => {
            if m.tape[m.ptr] != 0 {
                m.ip = p;
            } else {
                m.ip = ip1;
            }
            StepEffect::Ran
        },
        Stmt::End => StepEffect::Halted,
    }
}

/// Jump targets of this statement are below `len`.
pub open spec fn jump_target_ok(st: Stmt, len: int) -> bool {
    crate::lir::jump_ok(st, len)
}

/// How a run ended.
#[derive(Clone, Copy, PartialEq, Eq, Structural, Debug)]
pub enum RunStatus {
    /// The program's `End` was reached.
    Done,
    /// The step bound ran out before the program ended.
    OutOfFuel,
    /// An `In` found the byte source exhausted: a fatal failure of the run.
    InputFailed,
}

/// Everything a run produced: the bytes written to the sink, how many times
/// the sink was flushed (once per `Out`), and how the run ended.
#[derive(Debug, PartialEq, Eq)]
pub struct RunResult {
    pub output: Vec<u8>,
    pub flushes: u64,
    pub status: RunStatus,
}

/// Mathematical shape of a finished run.
#[verifier::ext_equal]
pub ghost struct RunResultV {
    pub done: bool,
    pub fuel_out: bool,
    pub input_failed: bool,
    pub m: MState,
    pub inpos: int,
    pub out: Seq<u8>,
    pub flushes: int,
}

/// Run the machine until `End`, an input failure, or `fuel` executed
/// statements, consuming input bytes in order and collecting output bytes.
pub open spec fn run_from(
    prog: Seq<Stmt>,
    input: Seq<u8>,
    st: MState,
    inpos: int,
    out: Seq<u8>,
    flushes: int,
    fuel: nat,
) -> RunResultV
    decreases fuel,
{
    if fuel == 0 {
        RunResultV {
            done: false,
            fuel_out: true,
            input_failed: false,
            m: st,
            inpos,
            out,
            flushes,
        }
    } else {
        let ib: Option<u8> = if inpos < input.len() {
            Option::Some(input[inpos])
        } else {
            Option::None
        };
        match step_spec(prog, st, ib) {
            StepRes::Next { st: st2, out: ob, consumed } => run_from(
                prog,
                input,
                st2,
                inpos + (if consumed {
                    1int
                } else {
                    0int
                }),
                match ob {
                    Option::Some(b) => out.push(b),
                    Option::None => out,
                },
                flushes + (if ob is Some {
                    1int
                } else {
                    0int
                }),
                (fuel - 1) as nat,
            ),
            StepRes::NeedInput => RunResultV {
                done: false,
                fuel_out: false,
                input_failed: true,
                m: st,
                inpos,
                out,
                flushes,
            },
            StepRes::Halt => RunResultV {
                done: true,
                fuel_out: false,
                input_failed: false,
                m: st,
                inpos,
                out,
                flushes,
            },
            StepRes::Stuck => RunResultV {
                done: true,
                fuel_out: false,
                input_failed: false,
                m: st,
                inpos,
                out,
                flushes,
            },
        }
    }
}

/// What a run of a whole program on a given input means.
pub open spec fn run_spec(prog: Seq<Stmt>, input: Seq<u8>, fuel: nat) -> RunResultV {
    run_from(prog, input, init_state(), 0, Seq::empty(), 0, fuel)
}

/// Does the executable result say exactly what the mathematical one does?
pub open spec fn result_matches(r: RunResult, rv: RunResultV) -> bool {
    &&& r.output@ == rv.out
    &&& r.flushes == rv.flushes
    &&& (r.status == RunStatus::Done <==> rv.done)
    &&& (r.status == RunStatus::OutOfFuel <==> rv.fuel_out)
    &&& (r.status == RunStatus::InputFailed <==> rv.input_failed)
}

/// Execute a validated program against an in-memory byte source, for at
/// most `fuel` statements. Every `Out` appends its byte to the output and
/// counts one flush; an `In` with the input exhausted fails the run.
pub fn run(code: &Lir, input: &Vec<u8>, fuel: u64) -> (r: RunResult)
    requires
        code.wf(),
    ensures
        result_matches(r, run_spec(code.stmts@, input@, fuel as nat)),
{
    let mut m = Machine::new();
    let mut inpos: usize = 0;
    let mut output: Vec<u8> = Vec::new();
    let mut flushes: u64 = 0;
    let mut remaining: u64 = fuel;
    let mut status = RunStatus::OutOfFuel;
    loop
        invariant_except_break
            code.wf(),
            m.wf(),
            m.ip < code.stmts@.len(),
            inpos <= input@.len(),
            flushes <= fuel - remaining,
            remaining <= fuel,
            run_spec(code.stmts@, input@, fuel as nat) == run_from(
                code.stmts@,
                input@,
                mview(m),
                inpos as int,
                output@,
                flushes as int,
                remaining as nat,
            ),
        ensures
            result_matches(
                (RunResult { output, flushes, status }),
                run_spec(code.stmts@, input@, fuel as nat),
            ),
        decreases remaining,
    {
        if remaining == 0 {
            status = RunStatus::OutOfFuel;
            break;
        }
        let ib: Option<u8> = if inpos < input.len() {
            Some(input[inpos])
        } else {
            None
        };
        let eff = step(&mut m, code, ib);
        match eff {
            StepEffect::Halted => {
                status = RunStatus::Done;
                break;
            },
            StepEffect::NeedInput => {
                status = RunStatus::InputFailed;
                break;
            },
            StepEffect::Ran => {
                remaining = remaining - 1;
            },
            StepEffect::Consumed => {
                inpos = inpos + 1;
                remaining = remaining - 1;
            },
            StepEffect::Output(b) => {
                output.push(b);
                flushes = flushes + 1;
                remaining = remaining - 1;
            },
        }
    }
    RunResult { output, flushes, status }
}

/// The in-bounds tape index for a cursor-relative offset.
fn offset_index(ptr: usize, offset: i32) -> (idx: usize)
    requires
        ptr < MEM_SIZE,
    ensures
        idx == cell_index(ptr as int, offset as int),
        idx < MEM_SIZE,
{
    if offset >= 0 {
        let off = offset as usize;
        if off < MEM_SIZE - ptr {
            ptr + off
        } else {
            (ptr + off) % MEM_SIZE
        }
    } else {
        let mag = (-(offset as i64)) as usize;
        if mag <= ptr {
            ptr - mag
        } else {
            let d = mag - ptr;
            let r = d % MEM_SIZE;
            if r == 0 {
                0
            } else {
                MEM_SIZE - r
            }
        }
    }
}

} // verus!

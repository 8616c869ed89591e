//! The execution engine: loads a deserialized object artifact, sizes its
//! typed memory segments from the addresses actually referenced, and
//! interprets the quadruple stream with a single instruction pointer and a
//! call-return stack.
//!
//! Float values live in memory as IEEE-754 bit patterns. The engine owns
//! every decision — address classification, division-by-zero and
//! uninitialized-read failures, jumps, the call protocol — and asks its
//! caller to carry out each actual float computation: `run` pauses with a
//! `FloatRequest`, the caller computes and hands the result back through a
//! resume call, and `run` continues. `run` takes an explicit step budget,
//! so cancellation is the caller's choice.

use vstd::prelude::*;
use crate::quadruples::{Quadruple, OpCode, MemoryAddresses};
use crate::objcode::{ObjectProgram, LoadError, parse_object, line_views, parse_effect, parse_init};

verus! {

/// A runtime value: a 32-bit integer, an IEEE-754 double's bit pattern, or
/// a boolean.
#[derive(Debug, Clone, Copy, PartialEq, Eq, Structural)]
pub enum Value {
    Int(i32),
    Float(u64),
    Bool(bool),
}

/// One line of program output: the printed value, by type.
#[derive(Debug, Clone, Copy, PartialEq, Eq, Structural)]
pub enum PrintItem {
    Int(i32),
    Float(u64),
    Bool(bool),
}

/// Why execution failed; every failure aborts immediately.
#[derive(Debug, Clone, Copy, PartialEq, Eq, Structural)]
pub enum RuntimeError {
    EmptyProgram,
    UnmappedAddress(i32),
    UninitializedRead(i32),
    TypeMismatch(i32),
    DivisionByZero,
    InvalidJump(i32),
    InvalidComparison(i32),
    UnknownFunction(i32),
    ParamCountMismatch(i32),
    InvalidParamIndex(i32),
    InvalidReturn,
    UnknownOpcode(i32),
    PendingFloat,
    MissingReturn,
}

/// A float computation the engine asks its caller to perform: a binary
/// arithmetic operation, a comparison, or a conversion of an integer to a
/// double. Operands arrive as runtime values whose `Float` holds bits.
#[derive(Debug, Clone, Copy, PartialEq, Eq, Structural)]
pub enum FloatRequest {
    Arith { op: i32, left: Value, right: Value },
    Cmp { op: i32, left: Value, right: Value },
    Convert { value: i32 },
}

/// Where a resumed float result goes.
#[derive(Debug, Clone, Copy, PartialEq, Eq, Structural)]
pub enum Pending {
    StoreBits { dest: i32 },
    StoreCmp { dest: i32 },
    GosubConvert { dest: i32, start_key: i32, next_k: usize },
}

/// What a call of `run` ended with.
#[derive(Debug, Clone, Copy, PartialEq, Eq, Structural)]
pub enum RunOutcome {
    Finished,
    OutOfFuel,
    Paused(FloatRequest),
    Failed(RuntimeError),
}

/// What a resume call ended with: ready to `run` again, paused on another
/// request, finished, or failed.
#[derive(Debug, Clone, Copy, PartialEq, Eq, Structural)]
pub enum StepOutcome {
    Ready,
    Paused(FloatRequest),
    Failed(RuntimeError),
}

/// One callable function as the engine sees it, keyed by its start index.
#[derive(Debug)]
pub struct VMFunctionInfo {
    pub name: Vec<u8>,
    pub param_count: usize,
    pub param_addresses: Vec<i32>,
}

/// The machine: the instruction stream, the instruction pointer, the three
/// typed memories (each the concatenation of its variable, constant, and
/// temporary segments), the call stack, the function table, the staged
/// parameters between `ERA` and `GOSUB`, the collected output, and the
/// pending float request if one is outstanding.
#[derive(Debug)]
pub struct VM {
    pub quads: Vec<Quadruple>,
    pub ip: usize,
    pub int_memory: Vec<Option<i32>>,
    pub float_memory: Vec<Option<u64>>,
    pub bool_memory: Vec<Option<bool>>,
    pub call_stack: Vec<usize>,
    pub functions: Vec<(i32, VMFunctionInfo)>,
    pub max_int_addr: i32,
    pub max_float_addr: i32,
    pub max_bool_addr: i32,
    pub max_cte_int_addr: i32,
    pub max_cte_float_addr: i32,
    pub max_cte_bool_addr: i32,
    pub max_temp_int_addr: i32,
    pub max_temp_float_addr: i32,
    pub max_temp_bool_addr: i32,
    pub staged_params: Vec<Value>,
    pub outputs: Vec<PrintItem>,
    pub pending: Option<Pending>,
}

/// A bit pattern that denotes a zero double: positive or negative zero.
pub open spec fn is_float_zero(bits: u64) -> bool {
    bits == 0 || bits == 0x8000_0000_0000_0000
}

/// A runtime value is zero for division purposes: the integer zero, a zero
/// bit pattern, or `false`.
pub open spec fn divisor_is_zero(v: Value) -> bool {
    match v {
        Value::Int(i) => i == 0,
        Value::Float(bits) => is_float_zero(bits),
        Value::Bool(b) => !b,
    }
}

/// The machine's state as mathematics: every field of the machine, with
/// the vectors as sequences. The engine's contracts speak of this state;
/// `abs` reads it off a machine.
#[verifier::ext_equal]
pub struct MachineState {
    pub quads: Seq<Quadruple>,
    pub ip: int,
    pub int_memory: Seq<Option<i32>>,
    pub float_memory: Seq<Option<u64>>,
    pub bool_memory: Seq<Option<bool>>,
    pub call_stack: Seq<usize>,
    pub functions: Seq<(i32, VMFunctionInfo)>,
    pub max_int_addr: i32,
    pub max_float_addr: i32,
    pub max_bool_addr: i32,
    pub max_cte_int_addr: i32,
    pub max_cte_float_addr: i32,
    pub max_cte_bool_addr: i32,
    pub max_temp_int_addr: i32,
    pub max_temp_float_addr: i32,
    pub max_temp_bool_addr: i32,
    pub staged_params: Seq<Value>,
    pub outputs: Seq<PrintItem>,
    pub pending: Option<Pending>,
}

/// The abstract state of a machine.
pub open spec fn abs(v: VM) -> MachineState {
    MachineState {
        quads: v.quads@,
        ip: v.ip as int,
        int_memory: v.int_memory@,
        float_memory: v.float_memory@,
        bool_memory: v.bool_memory@,
        call_stack: v.call_stack@,
        functions: v.functions@,
        max_int_addr: v.max_int_addr,
        max_float_addr: v.max_float_addr,
        max_bool_addr: v.max_bool_addr,
        max_cte_int_addr: v.max_cte_int_addr,
        max_cte_float_addr: v.max_cte_float_addr,
        max_cte_bool_addr: v.max_cte_bool_addr,
        max_temp_int_addr: v.max_temp_int_addr,
        max_temp_float_addr: v.max_temp_float_addr,
        max_temp_bool_addr: v.max_temp_bool_addr,
        staged_params: v.staged_params@,
        outputs: v.outputs@,
        pending: v.pending,
    }
}

/// Each segment bound sits in its address range.
pub open spec fn bounds_wf(v: VM) -> bool {
    st_bounds_wf(abs(v))
}

/// Each segment bound sits in its address range.
pub open spec fn st_bounds_wf(s: MachineState) -> bool {
    &&& MemoryAddresses::INT_START - 1 <= s.max_int_addr < MemoryAddresses::FLOAT_START
    &&& MemoryAddresses::FLOAT_START - 1 <= s.max_float_addr < MemoryAddresses::BOOL_START
    &&& MemoryAddresses::BOOL_START - 1 <= s.max_bool_addr < MemoryAddresses::CTE_INT_START
    &&& MemoryAddresses::CTE_INT_START - 1 <= s.max_cte_int_addr < MemoryAddresses::CTE_FLOAT_START
    &&& MemoryAddresses::CTE_FLOAT_START - 1 <= s.max_cte_float_addr
        < MemoryAddresses::CTE_BOOL_START
    &&& MemoryAddresses::CTE_BOOL_START - 1 <= s.max_cte_bool_addr
        < MemoryAddresses::TEMP_INT_START
    &&& MemoryAddresses::TEMP_INT_START - 1 <= s.max_temp_int_addr
        < MemoryAddresses::TEMP_FLOAT_START
    &&& MemoryAddresses::TEMP_FLOAT_START - 1 <= s.max_temp_float_addr
        < MemoryAddresses::TEMP_BOOL_START
    &&& MemoryAddresses::TEMP_BOOL_START - 1 <= s.max_temp_bool_addr
        < MemoryAddresses::TEMP_BOOL_END
}

/// Well-formedness of a state: each segment bound in its address range and
/// each typed memory exactly as long as its three segments together.
pub open spec fn st_wf(s: MachineState) -> bool {
    &&& st_bounds_wf(s)
    &&& s.int_memory.len() == int_seg_len(s) + cte_int_seg_len(s) + temp_int_seg_len(s)
    &&& s.float_memory.len() == float_seg_len(s) + cte_float_seg_len(s) + temp_float_seg_len(s)
    &&& s.bool_memory.len() == bool_seg_len(s) + cte_bool_seg_len(s) + temp_bool_seg_len(s)
}

/// Well-formedness of the machine.
pub open spec fn vm_wf(v: VM) -> bool {
    st_wf(abs(v))
}

/// Length of the integer variable segment.
pub open spec fn int_seg_len(s: MachineState) -> int {
    s.max_int_addr + 1 - MemoryAddresses::INT_START
}

/// Length of the integer constant segment.
pub open spec fn cte_int_seg_len(s: MachineState) -> int {
    s.max_cte_int_addr + 1 - MemoryAddresses::CTE_INT_START
}

/// Length of the integer temporary segment.
pub open spec fn temp_int_seg_len(s: MachineState) -> int {
    s.max_temp_int_addr + 1 - MemoryAddresses::TEMP_INT_START
}

/// Length of the float variable segment.
pub open spec fn float_seg_len(s: MachineState) -> int {
    s.max_float_addr + 1 - MemoryAddresses::FLOAT_START
}

/// Length of the float constant segment.
pub open spec fn cte_float_seg_len(s: MachineState) -> int {
    s.max_cte_float_addr + 1 - MemoryAddresses::CTE_FLOAT_START
}

/// Length of the float temporary segment.
pub open spec fn temp_float_seg_len(s: MachineState) -> int {
    s.max_temp_float_addr + 1 - MemoryAddresses::TEMP_FLOAT_START
}

/// Length of the boolean variable segment.
pub open spec fn bool_seg_len(s: MachineState) -> int {
    s.max_bool_addr + 1 - MemoryAddresses::BOOL_START
}

/// Length of the boolean constant segment.
pub open spec fn cte_bool_seg_len(s: MachineState) -> int {
    s.max_cte_bool_addr + 1 - MemoryAddresses::CTE_BOOL_START
}

/// Length of the boolean temporary segment.
pub open spec fn temp_bool_seg_len(s: MachineState) -> int {
    s.max_temp_bool_addr + 1 - MemoryAddresses::TEMP_BOOL_START
}

/// The integer-memory cell an address maps to, decided by range alone.
pub open spec fn int_idx_of(s: MachineState, a: i32) -> Option<int> {
    if MemoryAddresses::INT_START <= a <= s.max_int_addr {
        Some(a - MemoryAddresses::INT_START)
    } else if MemoryAddresses::CTE_INT_START <= a <= s.max_cte_int_addr {
        Some(a - MemoryAddresses::CTE_INT_START + int_seg_len(s))
    } else if MemoryAddresses::TEMP_INT_START <= a <= s.max_temp_int_addr {
        Some(a - MemoryAddresses::TEMP_INT_START + int_seg_len(s) + cte_int_seg_len(s))
    } else {
        None
    }
}

/// The float-memory cell an address maps to.
pub open spec fn float_idx_of(s: MachineState, a: i32) -> Option<int> {
    if MemoryAddresses::FLOAT_START <= a <= s.max_float_addr {
        Some(a - MemoryAddresses::FLOAT_START)
    } else if MemoryAddresses::CTE_FLOAT_START <= a <= s.max_cte_float_addr {
        Some(a - MemoryAddresses::CTE_FLOAT_START + float_seg_len(s))
    } else if MemoryAddresses::TEMP_FLOAT_START <= a <= s.max_temp_float_addr {
        Some(a - MemoryAddresses::TEMP_FLOAT_START + float_seg_len(s) + cte_float_seg_len(s))
    } else {
        None
    }
}

/// The boolean-memory cell an address maps to.
pub open spec fn bool_idx_of(s: MachineState, a: i32) -> Option<int> {
    if MemoryAddresses::BOOL_START <= a <= s.max_bool_addr {
        Some(a - MemoryAddresses::BOOL_START)
    } else if MemoryAddresses::CTE_BOOL_START <= a <= s.max_cte_bool_addr {
        Some(a - MemoryAddresses::CTE_BOOL_START + bool_seg_len(s))
    } else if MemoryAddresses::TEMP_BOOL_START <= a <= s.max_temp_bool_addr {
        Some(a - MemoryAddresses::TEMP_BOOL_START + bool_seg_len(s) + cte_bool_seg_len(s))
    } else {
        None
    }
}

/// What reading an address yields: the typed value of its mapped,
/// initialized cell; an uninitialized-read failure for a mapped but empty
/// cell; an unmapped-address failure otherwise. Reading an uninitialized
/// cell is a runtime failure, never a default value.
pub open spec fn read_of(s: MachineState, a: i32) -> Result<Value, RuntimeError> {
    match int_idx_of(s, a) {
        Some(i) => match s.int_memory[i] {
            Some(x) => Ok(Value::Int(x)),
            None => Err(RuntimeError::UninitializedRead(a)),
        },
        None => match float_idx_of(s, a) {
            Some(i) => match s.float_memory[i] {
                Some(x) => Ok(Value::Float(x)),
                None => Err(RuntimeError::UninitializedRead(a)),
            },
            None => match bool_idx_of(s, a) {
                Some(i) => match s.bool_memory[i] {
                    Some(x) => Ok(Value::Bool(x)),
                    None => Err(RuntimeError::UninitializedRead(a)),
                },
                None => Err(RuntimeError::UnmappedAddress(a)),
            },
        },
    }
}

/// How a store ends: the state with the one changed cell; an integer that
/// must first become a double for a float destination; or a failure.
pub enum WriteOutcome {
    Wrote(MachineState),
    Convert(i32),
    Reject(RuntimeError),
}

/// What writing a value to an address does, with the permitted storage
/// conversions: same type always; a boolean into integer memory as 0 or 1;
/// an integer into boolean memory as its zero test; an integer into float
/// memory needs a conversion by the caller; everything else is a
/// type-mismatch failure, and an address outside every segment an
/// unmapped-address failure.
pub open spec fn write_of(s: MachineState, a: i32, value: Value) -> WriteOutcome {
    match int_idx_of(s, a) {
        Some(k) => match value {
            Value::Int(x) => WriteOutcome::Wrote(
                (MachineState { int_memory: s.int_memory.update(k, Some(x)), ..s }),
            ),
            Value::Bool(b) => WriteOutcome::Wrote(
                (MachineState {
                    int_memory: s.int_memory.update(
                        k,
                        Some(
                            if b {
                                1i32
                            } else {
                                0i32
                            },
                        ),
                    ),
                    ..s
                }),
            ),
            Value::Float(_) => WriteOutcome::Reject(RuntimeError::TypeMismatch(a)),
        },
        None => match float_idx_of(s, a) {
            Some(k) => match value {
                Value::Float(bits) => WriteOutcome::Wrote(
                    (MachineState { float_memory: s.float_memory.update(k, Some(bits)), ..s }),
                ),
                Value::Int(x) => WriteOutcome::Convert(x),
                Value::Bool(_) => WriteOutcome::Reject(RuntimeError::TypeMismatch(a)),
            },
            None => match bool_idx_of(s, a) {
                Some(k) => match value {
                    Value::Bool(b) => WriteOutcome::Wrote(
                        (MachineState { bool_memory: s.bool_memory.update(k, Some(b)), ..s }),
                    ),
                    Value::Int(x) => WriteOutcome::Wrote(
                        (MachineState { bool_memory: s.bool_memory.update(k, Some(x != 0)), ..s }),
                    ),
                    Value::Float(_) => WriteOutcome::Reject(RuntimeError::TypeMismatch(a)),
                },
                None => WriteOutcome::Reject(RuntimeError::UnmappedAddress(a)),
            },
        },
    }
}

/// The result of 32-bit integer arithmetic: wrap-around two's-complement
/// semantics, with quotient truncation toward zero; the one overflowing
/// quotient wraps to the minimum value. Meaningful when division has a
/// nonzero divisor.
pub open spec fn int_arith_of(op: i32, a: i32, b: i32) -> i32 {
    if op == OpCode::ADD {
        vstd::wrapping::i32_specs::wrapping_add(a, b)
    } else if op == OpCode::SUB {
        vstd::wrapping::i32_specs::wrapping_sub(a, b)
    } else if op == OpCode::MULT {
        vstd::wrapping::i32_specs::wrapping_mul(a, b)
    } else {
        match a.checked_div(b) {
            Some(q) => q,
            None => i32::MIN,
        }
    }
}

/// The result of a 32-bit integer comparison.
pub open spec fn int_cmp_of(op: i32, a: i32, b: i32) -> bool {
    if op == OpCode::GT {
        a > b
    } else if op == OpCode::LT {
        a < b
    } else if op == OpCode::EQ {
        a == b
    } else {
        a != b
    }
}

/// A boolean takes part in arithmetic and comparison as 0 or 1; other
/// values stand as they are.
pub open spec fn as_numeric(v: Value) -> Value {
    match v {
        Value::Bool(b) => Value::Int(
            if b {
                1i32
            } else {
                0i32
            },
        ),
        other => other,
    }
}

/// The output line a value prints as.
pub open spec fn print_item_of(v: Value) -> PrintItem {
    match v {
        Value::Int(i) => PrintItem::Int(i),
        Value::Float(bits) => PrintItem::Float(bits),
        Value::Bool(b) => PrintItem::Bool(b),
    }
}

/// The index of the function entry with the given start key — the most
/// recently loaded one — or -1 when none bears it.
pub open spec fn fn_idx_of(fs: Seq<(i32, VMFunctionInfo)>, key: i32) -> int
    decreases fs.len(),
{
    if fs.len() == 0 {
        -1
    } else if fs.last().0 == key {
        fs.len() - 1
    } else {
        fn_idx_of(fs.drop_last(), key)
    }
}

/// The function-index search is sound and finds the last match.
pub proof fn lemma_fn_idx_of(fs: Seq<(i32, VMFunctionInfo)>, key: i32)
    ensures
        fn_idx_of(fs, key) == -1 ==> forall|j: int| 0 <= j < fs.len() ==> (#[trigger] fs[j]).0
            != key,
        fn_idx_of(fs, key) != -1 ==> {
            &&& 0 <= fn_idx_of(fs, key) < fs.len()
            &&& fs[fn_idx_of(fs, key)].0 == key
            &&& forall|j: int| fn_idx_of(fs, key) < j < fs.len() ==> (#[trigger] fs[j]).0 != key
        },
    decreases fs.len(),
{
    if fs.len() > 0 && fs.last().0 != key {
        lemma_fn_idx_of(fs.drop_last(), key);
        assert forall|j: int|
            0 <= j < fs.len() - 1 implies fs.drop_last()[j] == (#[trigger] fs[j]) by {}
    }
}

/// The last match is the function index.
pub proof fn lemma_fn_idx_at(fs: Seq<(i32, VMFunctionInfo)>, key: i32, i: int)
    requires
        0 <= i < fs.len(),
        fs[i].0 == key,
        forall|j: int| i < j < fs.len() ==> (#[trigger] fs[j]).0 != key,
    ensures
        fn_idx_of(fs, key) == i,
    decreases fs.len(),
{
    if i == fs.len() - 1 {
    } else {
        assert(fs.last().0 != key);
        assert(fs.drop_last()[i] == fs[i]);
        assert forall|j: int| i < j < fs.drop_last().len() implies (#[trigger] fs.drop_last()[j]).0
            != key by {
            assert(fs.drop_last()[j] == fs[j]);
        }
        lemma_fn_idx_at(fs.drop_last(), key, i);
    }
}

/// With no match anywhere the function index is -1.
pub proof fn lemma_fn_idx_none(fs: Seq<(i32, VMFunctionInfo)>, key: i32)
    requires
        forall|j: int| 0 <= j < fs.len() ==> (#[trigger] fs[j]).0 != key,
    ensures
        fn_idx_of(fs, key) == -1,
    decreases fs.len(),
{
    if fs.len() > 0 {
        assert forall|j: int|
            0 <= j < fs.drop_last().len() implies (#[trigger] fs.drop_last()[j]).0 != key by {
            assert(fs.drop_last()[j] == fs[j]);
        }
        lemma_fn_idx_none(fs.drop_last(), key);
    }
}

/// The staged-parameter buffer after storing a value at an index: existing
/// slots are updated in place; storing past the end first pads with
/// placeholder integers, so indices may arrive out of order.
pub open spec fn staged_padded(sp: Seq<Value>, n: int) -> Seq<Value>
    decreases n,
{
    if n <= 0 {
        sp
    } else {
        staged_padded(sp, n - 1).push(Value::Int(-999i32))
    }
}

/// The staged buffer after a `PARAM` stores `val` at index `k`.
pub open spec fn staged_after(sp: Seq<Value>, k: int, val: Value) -> Seq<Value> {
    staged_padded(sp, k + 1 - sp.len()).update(k, val)
}

/// What one instruction does next: carry on in the new state, finish
/// normally, ask the caller for a float computation, or abort.
pub enum StepResult {
    KeepGoing,
    Done,
    Ask(FloatRequest),
    Abort(RuntimeError),
}

/// Copies staged parameters into the callee's parameter addresses from
/// index `k` on; when all are copied, pushes the return address and jumps
/// to the callee's start. Pauses (with the pending slot recording where to
/// continue) when a staged integer must become a double.
pub open spec fn gosub_copy(s: MachineState, start_key: i32, k: int) -> (MachineState, StepResult)
    decreases s.staged_params.len() - k,
{
    if 0 <= k < s.staged_params.len() {
        let fi = fn_idx_of(s.functions, start_key);
        let dest = s.functions[fi].1.param_addresses@[k];
        match write_of(s, dest, s.staged_params[k]) {
            WriteOutcome::Wrote(s2) => gosub_copy(s2, start_key, k + 1),
            WriteOutcome::Convert(x) => (
                (MachineState {
                    pending: Some(
                        Pending::GosubConvert { dest, start_key, next_k: (k + 1) as usize },
                    ),
                    ..s
                }),
                StepResult::Ask(FloatRequest::Convert { value: x }),
            ),
            WriteOutcome::Reject(e) => (s, StepResult::Abort(e)),
        }
    } else {
        if start_key < 0 || start_key >= s.quads.len() {
            (s, StepResult::Abort(RuntimeError::InvalidJump(start_key)))
        } else if s.ip >= s.quads.len() {
            (s, StepResult::Abort(RuntimeError::InvalidJump(start_key)))
        } else {
            (
                (MachineState {
                    call_stack: s.call_stack.push(((s.ip + 1) as usize)),
                    ip: start_key as int,
                    staged_params: Seq::empty(),
                    ..s
                }),
                StepResult::KeepGoing,
            )
        }
    }
}

/// A `GOSUB`: the callee must exist, its declared arity must match the
/// staged count and its address list, and then the staged values are
/// copied into the parameter addresses.
pub open spec fn gosub_of(s: MachineState, start_key: i32, from_k: int) -> (
    MachineState,
    StepResult,
) {
    let fi = fn_idx_of(s.functions, start_key);
    if fi == -1 {
        (s, StepResult::Abort(RuntimeError::UnknownFunction(start_key)))
    } else if s.functions[fi].1.param_count != s.staged_params.len() {
        (s, StepResult::Abort(RuntimeError::ParamCountMismatch(start_key)))
    } else if s.functions[fi].1.param_addresses@.len() != s.functions[fi].1.param_count {
        (s, StepResult::Abort(RuntimeError::ParamCountMismatch(start_key)))
    } else {
        gosub_copy(s, start_key, from_k)
    }
}

/// The call-protocol copy never finishes the program by itself, and when
/// it pauses it leaves an outstanding request.
pub proof fn lemma_gosub_copy_rec(s: MachineState, start_key: i32, k: int)
    ensures
        !(gosub_copy(s, start_key, k).1 is Done),
        gosub_copy(s, start_key, k).1 is Ask ==> gosub_copy(s, start_key, k).0.pending is Some,
        gosub_copy(s, start_key, k).1 is KeepGoing ==> gosub_copy(s, start_key, k).0.pending
            == s.pending,
    decreases s.staged_params.len() - k,
{
    if 0 <= k < s.staged_params.len() {
        let fi = fn_idx_of(s.functions, start_key);
        let dest = s.functions[fi].1.param_addresses@[k];
        match write_of(s, dest, s.staged_params[k]) {
            WriteOutcome::Wrote(s2) => {
                lemma_gosub_copy_rec(s2, start_key, k + 1);
            },
            WriteOutcome::Convert(_) => {},
            WriteOutcome::Reject(_) => {},
        }
    }
}

/// A `GOSUB` never finishes the program by itself, and when it pauses it
/// leaves an outstanding request.
pub proof fn lemma_gosub_copy_shape(s: MachineState, start_key: i32, from_k: int)
    ensures
        !(gosub_of(s, start_key, from_k).1 is Done),
        gosub_of(s, start_key, from_k).1 is Ask ==> gosub_of(s, start_key, from_k).0.pending
            is Some,
        gosub_of(s, start_key, from_k).1 is KeepGoing ==> gosub_of(s, start_key, from_k).0.pending
            == s.pending,
{
    lemma_gosub_copy_rec(s, start_key, from_k);
}

/// One instruction of the opcode table, exactly as the engine executes it:
/// `ASSIGN` stores with the permitted coercions (with the direct
/// boolean-literal form `ASSIGN(-1, 0|1, dest)`), arithmetic is gated
/// through the division-by-zero test and computed exactly for integers or
/// handed out for floats, comparisons likewise (ordering comparisons on
/// booleans are invalid), `PRINT` appends exactly one typed output line,
/// `GOTO`/`GOTOF` move the instruction pointer to the `result` field,
/// `ERA`/`PARAM`/`GOSUB`/`ENDFUNC` follow the call protocol, `HALT` and a
/// return from an empty call stack finish, and an unknown opcode aborts.
pub open spec fn step(s: MachineState) -> (MachineState, StepResult) {
    if s.ip >= s.quads.len() {
        if s.call_stack.len() == 0 {
            (s, StepResult::Done)
        } else {
            (s, StepResult::Abort(RuntimeError::MissingReturn))
        }
    } else {
        let q = s.quads[s.ip];
        let op = q.operation;
        if op == OpCode::ASSIGN {
            step_assign(s, q)
        } else if op == OpCode::ADD || op == OpCode::SUB || op == OpCode::MULT || op
            == OpCode::DIV {
            step_arith(s, q)
        } else if op == OpCode::GT || op == OpCode::LT || op == OpCode::EQ || op == OpCode::NEQ {
            step_cmp(s, q)
        } else if op == OpCode::PRINT {
            match read_of(s, q.arg1) {
                Ok(v) => (
                    (MachineState { outputs: s.outputs.push(print_item_of(v)), ip: s.ip + 1, ..s }),
                    StepResult::KeepGoing,
                ),
                Err(e) => (s, StepResult::Abort(e)),
            }
        } else if op == OpCode::GOTO {
            if q.result < 0 || q.result >= s.quads.len() {
                (s, StepResult::Abort(RuntimeError::InvalidJump(q.result)))
            } else {
                ((MachineState { ip: q.result as int, ..s }), StepResult::KeepGoing)
            }
        } else if op == OpCode::GOTOF {
            match read_of(s, q.arg1) {
                Ok(cond) => match cond {
                    Value::Float(_) => (s, StepResult::Abort(RuntimeError::TypeMismatch(q.arg1))),
                    _ => {
                        let is_false = match cond {
                            Value::Bool(b) => !b,
                            Value::Int(i) => i == 0,
                            Value::Float(_) => false,
                        };
                        if is_false {
                            if q.result < 0 || q.result >= s.quads.len() {
                                (s, StepResult::Abort(RuntimeError::InvalidJump(q.result)))
                            } else {
                                (
                                    (MachineState { ip: q.result as int, ..s }),
                                    StepResult::KeepGoing,
                                )
                            }
                        } else {
                            ((MachineState { ip: s.ip + 1, ..s }), StepResult::KeepGoing)
                        }
                    },
                },
                Err(e) => (s, StepResult::Abort(e)),
            }
        } else if op == OpCode::ERA {
            if fn_idx_of(s.functions, q.arg1) == -1 {
                (s, StepResult::Abort(RuntimeError::UnknownFunction(q.arg1)))
            } else {
                (
                    (MachineState { staged_params: Seq::empty(), ip: s.ip + 1, ..s }),
                    StepResult::KeepGoing,
                )
            }
        } else if op == OpCode::PARAM {
            match read_of(s, q.arg1) {
                Ok(val) => {
                    if q.result < 0 || q.result > 65535 {
                        (s, StepResult::Abort(RuntimeError::InvalidParamIndex(q.result)))
                    } else {
                        (
                            (MachineState {
                                staged_params: staged_after(s.staged_params, q.result as int, val),
                                ip: s.ip + 1,
                                ..s
                            }),
                            StepResult::KeepGoing,
                        )
                    }
                },
                Err(e) => (s, StepResult::Abort(e)),
            }
        } else if op == OpCode::GOSUB {
            gosub_of(s, q.arg1, 0)
        } else if op == OpCode::ENDFUNC {
            if s.call_stack.len() == 0 {
                (s, StepResult::Done)
            } else {
                let ret = s.call_stack.last();
                if ret >= s.quads.len() {
                    (
                        (MachineState { call_stack: s.call_stack.drop_last(), ..s }),
                        StepResult::Abort(RuntimeError::InvalidReturn),
                    )
                } else {
                    (
                        (MachineState {
                            call_stack: s.call_stack.drop_last(),
                            ip: ret as int,
                            ..s
                        }),
                        StepResult::KeepGoing,
                    )
                }
            }
        } else if op == OpCode::HALT {
            (s, StepResult::Done)
        } else {
            (s, StepResult::Abort(RuntimeError::UnknownOpcode(op)))
        }
    }
}

/// The `ASSIGN` step: the direct boolean-literal form writes its 0/1
/// value; otherwise the source is read and stored with the permitted
/// coercions, an integer bound for a float cell pausing for conversion.
pub open spec fn step_assign(s: MachineState, q: Quadruple) -> (MachineState, StepResult) {
    if q.arg1 == -1 && (q.arg2 == 0 || q.arg2 == 1) {
        match write_of(s, q.result, Value::Bool(q.arg2 == 1)) {
            WriteOutcome::Wrote(s2) => (
                (MachineState { ip: s.ip + 1, ..s2 }),
                StepResult::KeepGoing,
            ),
            WriteOutcome::Convert(_) => (
                s,
                StepResult::Abort(RuntimeError::TypeMismatch(q.result)),
            ),
            WriteOutcome::Reject(e) => (s, StepResult::Abort(e)),
        }
    } else {
        match read_of(s, q.arg1) {
            Ok(v) => match write_of(s, q.result, v) {
                WriteOutcome::Wrote(s2) => (
                    (MachineState { ip: s.ip + 1, ..s2 }),
                    StepResult::KeepGoing,
                ),
                WriteOutcome::Convert(x) => (
                    (MachineState { pending: Some(Pending::StoreBits { dest: q.result }), ..s }),
                    StepResult::Ask(FloatRequest::Convert { value: x }),
                ),
                WriteOutcome::Reject(e) => (s, StepResult::Abort(e)),
            },
            Err(e) => (s, StepResult::Abort(e)),
        }
    }
}

/// The arithmetic step: both operands are read, division by a zero value
/// aborts before anything else, integer (and boolean, as 0/1) operands are
/// computed exactly, and a float operand hands the operation out.
pub open spec fn step_arith(s: MachineState, q: Quadruple) -> (MachineState, StepResult) {
    match read_of(s, q.arg1) {
        Ok(v1) => match read_of(s, q.arg2) {
            Ok(v2) => {
                if q.operation == OpCode::DIV && divisor_is_zero(v2) {
                    (s, StepResult::Abort(RuntimeError::DivisionByZero))
                } else {
                    match (as_numeric(v1), as_numeric(v2)) {
                        (Value::Int(a), Value::Int(b)) => {
                            if q.operation == OpCode::DIV && b == 0 {
                                (s, StepResult::Abort(RuntimeError::DivisionByZero))
                            } else {
                                match write_of(
                                    s,
                                    q.result,
                                    Value::Int(int_arith_of(q.operation, a, b)),
                                ) {
                                    WriteOutcome::Wrote(s2) => (
                                        (MachineState { ip: s.ip + 1, ..s2 }),
                                        StepResult::KeepGoing,
                                    ),
                                    WriteOutcome::Convert(x) => (
                                        (MachineState {
                                            pending: Some(Pending::StoreBits { dest: q.result }),
                                            ..s
                                        }),
                                        StepResult::Ask(FloatRequest::Convert { value: x }),
                                    ),
                                    WriteOutcome::Reject(e) => (s, StepResult::Abort(e)),
                                }
                            }
                        },
                        (left, right) => (
                            (MachineState {
                                pending: Some(Pending::StoreBits { dest: q.result }),
                                ..s
                            }),
                            StepResult::Ask(
                                FloatRequest::Arith { op: q.operation, left, right },
                            ),
                        ),
                    }
                }
            },
            Err(e) => (s, StepResult::Abort(e)),
        },
        Err(e) => (s, StepResult::Abort(e)),
    }
}

/// The comparison step: ordering comparisons on booleans are invalid;
/// integer (and boolean, as 0/1) operands are compared exactly; a float
/// operand hands the comparison out.
pub open spec fn step_cmp(s: MachineState, q: Quadruple) -> (MachineState, StepResult) {
    match read_of(s, q.arg1) {
        Ok(v1) => match read_of(s, q.arg2) {
            Ok(v2) => {
                let bool_involved = v1 is Bool || v2 is Bool;
                if bool_involved && !(q.operation == OpCode::EQ || q.operation == OpCode::NEQ) {
                    (s, StepResult::Abort(RuntimeError::InvalidComparison(q.operation)))
                } else {
                    match (as_numeric(v1), as_numeric(v2)) {
                        (Value::Int(a), Value::Int(b)) => {
                            match write_of(
                                s,
                                q.result,
                                Value::Bool(int_cmp_of(q.operation, a, b)),
                            ) {
                                WriteOutcome::Wrote(s2) => (
                                    (MachineState { ip: s.ip + 1, ..s2 }),
                                    StepResult::KeepGoing,
                                ),
                                WriteOutcome::Convert(_) => (
                                    s,
                                    StepResult::Abort(RuntimeError::TypeMismatch(q.result)),
                                ),
                                WriteOutcome::Reject(e) => (s, StepResult::Abort(e)),
                            }
                        },
                        (left, right) => (
                            (MachineState {
                                pending: Some(Pending::StoreCmp { dest: q.result }),
                                ..s
                            }),
                            StepResult::Ask(FloatRequest::Cmp { op: q.operation, left, right }),
                        ),
                    }
                }
            },
            Err(e) => (s, StepResult::Abort(e)),
        },
        Err(e) => (s, StepResult::Abort(e)),
    }
}

/// Running at most `fuel` instructions from a state with no outstanding
/// request: stepping until an instruction finishes the program, asks for a
/// float computation, aborts, or the budget is spent.
pub open spec fn run_steps(s: MachineState, fuel: nat) -> (MachineState, RunOutcome)
    decreases fuel,
{
    if fuel == 0 {
        (s, RunOutcome::OutOfFuel)
    } else {
        let (s2, sr) = step(s);
        match sr {
            StepResult::KeepGoing => run_steps(s2, (fuel - 1) as nat),
            StepResult::Done => (s2, RunOutcome::Finished),
            StepResult::Ask(req) => (s2, RunOutcome::Paused(req)),
            StepResult::Abort(e) => (s2, RunOutcome::Failed(e)),
        }
    }
}

/// What handing back a float bit pattern does: with a pending plain store,
/// the bits land in the pending destination, the pending slot clears, and
/// the instruction completes; with a pending call-protocol conversion, the
/// bits land in the parameter address and the copy resumes; with no
/// pending request, or a pending comparison, the call is rejected.
pub open spec fn resume_bits_of(s: MachineState, bits: u64) -> (MachineState, StepOutcome) {
    match s.pending {
        None => (s, StepOutcome::Failed(RuntimeError::PendingFloat)),
        Some(p) => {
            let s0 = MachineState { pending: None, ..s };
            match p {
                Pending::StoreBits { dest } => match write_of(s0, dest, Value::Float(bits)) {
                    WriteOutcome::Wrote(s2) => (
                        (MachineState { ip: bump_ip(s2.ip), ..s2 }),
                        StepOutcome::Ready,
                    ),
                    WriteOutcome::Convert(_) => (
                        s0,
                        StepOutcome::Failed(RuntimeError::TypeMismatch(dest)),
                    ),
                    WriteOutcome::Reject(e) => (s0, StepOutcome::Failed(e)),
                },
                Pending::GosubConvert { dest, start_key, next_k } => match write_of(
                    s0,
                    dest,
                    Value::Float(bits),
                ) {
                    WriteOutcome::Wrote(s2) => step_outcome_of(gosub_of(s2, start_key, next_k as int)),
                    WriteOutcome::Convert(_) => (
                        s0,
                        StepOutcome::Failed(RuntimeError::TypeMismatch(dest)),
                    ),
                    WriteOutcome::Reject(e) => (s0, StepOutcome::Failed(e)),
                },
                Pending::StoreCmp { dest } => (
                    s0,
                    StepOutcome::Failed(RuntimeError::PendingFloat),
                ),
            }
        },
    }
}

/// What handing back a float comparison result does: with a pending
/// comparison store, the boolean lands in the pending destination and the
/// instruction completes; anything else is rejected.
pub open spec fn resume_cmp_of(s: MachineState, value: bool) -> (MachineState, StepOutcome) {
    match s.pending {
        None => (s, StepOutcome::Failed(RuntimeError::PendingFloat)),
        Some(p) => {
            let s0 = MachineState { pending: None, ..s };
            match p {
                Pending::StoreCmp { dest } => match write_of(s0, dest, Value::Bool(value)) {
                    WriteOutcome::Wrote(s2) => (
                        (MachineState { ip: bump_ip(s2.ip), ..s2 }),
                        StepOutcome::Ready,
                    ),
                    WriteOutcome::Convert(_) => (
                        s0,
                        StepOutcome::Failed(RuntimeError::TypeMismatch(dest)),
                    ),
                    WriteOutcome::Reject(e) => (s0, StepOutcome::Failed(e)),
                },
                _ => (s0, StepOutcome::Failed(RuntimeError::PendingFloat)),
            }
        },
    }
}

/// The instruction pointer after a resumed store: advanced unless already
/// at the platform's limit.
pub open spec fn bump_ip(ip: int) -> int {
    if ip < usize::MAX {
        ip + 1
    } else {
        ip
    }
}

/// An address an integer constant may live at: one of the three integer
/// segments.
pub open spec fn int_const_addr_ok(a: i32) -> bool {
    ||| MemoryAddresses::INT_START <= a < MemoryAddresses::FLOAT_START
    ||| MemoryAddresses::CTE_INT_START <= a < MemoryAddresses::CTE_FLOAT_START
    ||| MemoryAddresses::TEMP_INT_START <= a < MemoryAddresses::TEMP_FLOAT_START
}

/// An address a float constant may live at: one of the three float
/// segments.
pub open spec fn float_const_addr_ok(a: i32) -> bool {
    ||| MemoryAddresses::FLOAT_START <= a < MemoryAddresses::BOOL_START
    ||| MemoryAddresses::CTE_FLOAT_START <= a < MemoryAddresses::CTE_BOOL_START
    ||| MemoryAddresses::TEMP_FLOAT_START <= a < MemoryAddresses::TEMP_BOOL_START
}

/// Every constant of an artifact lies in a segment of its own type; this
/// is exactly when loading succeeds.
pub open spec fn consts_mapped(ints: Seq<(i32, i32)>, floats: Seq<(u64, i32)>) -> bool {
    &&& forall|j: int| 0 <= j < ints.len() ==> int_const_addr_ok((#[trigger] ints[j]).1)
    &&& forall|j: int| 0 <= j < floats.len() ==> float_const_addr_ok((#[trigger] floats[j]).1)
}

/// The engine's function table carries exactly the artifact's entries:
/// start key, name, parameter count, and parameter addresses, in order.
pub open spec fn fn_table_matches(
    fs: Seq<(i32, VMFunctionInfo)>,
    objs: Seq<crate::objcode::ObjFunction>,
) -> bool {
    &&& fs.len() == objs.len()
    &&& forall|k: int|
        0 <= k < objs.len() ==> {
            &&& (#[trigger] fs[k]).0 == objs[k].start_idx
            &&& fs[k].1.name@ == objs[k].name@
            &&& fs[k].1.param_count == objs[k].param_count
            &&& fs[k].1.param_addresses@ == objs[k].param_addresses@
        }
}

/// Distinct mapped addresses occupy distinct integer-memory cells.
pub proof fn lemma_int_idx_injective(s: MachineState, a: i32, b: i32)
    requires
        st_bounds_wf(s),
        a != b,
        int_idx_of(s, a) is Some,
        int_idx_of(s, b) is Some,
    ensures
        int_idx_of(s, a) != int_idx_of(s, b),
{
}

/// Distinct mapped addresses occupy distinct float-memory cells.
pub proof fn lemma_float_idx_injective(s: MachineState, a: i32, b: i32)
    requires
        st_bounds_wf(s),
        a != b,
        float_idx_of(s, a) is Some,
        float_idx_of(s, b) is Some,
    ensures
        float_idx_of(s, a) != float_idx_of(s, b),
{
}

/// A completed copy step maps into a resume outcome; the copy never
/// finishes the program by itself.
pub open spec fn step_outcome_of(p: (MachineState, StepResult)) -> (MachineState, StepOutcome) {
    (
        p.0,
        match p.1 {
            StepResult::KeepGoing => StepOutcome::Ready,
            StepResult::Done => StepOutcome::Ready,
            StepResult::Ask(req) => StepOutcome::Paused(req),
            StepResult::Abort(e) => StepOutcome::Failed(e),
        },
    )
}

/// Performs 32-bit integer arithmetic. Division by zero is a
/// `RuntimeError`, never a silent result; every other case yields the
/// exact wrap-around value.
pub fn eval_int_arith(op: i32, a: i32, b: i32) -> (r: Result<i32, RuntimeError>)
    requires
        op == OpCode::ADD || op == OpCode::SUB || op == OpCode::MULT || op == OpCode::DIV,
    ensures
        r is Err <==> (op == OpCode::DIV && b == 0),
        r is Err ==> r == Err::<i32, RuntimeError>(RuntimeError::DivisionByZero),
        r is Ok ==> r == Ok::<i32, RuntimeError>(int_arith_of(op, a, b)),
{
    if op == OpCode::ADD {
        Ok(a.wrapping_add(b))
    } else if op == OpCode::SUB {
        Ok(a.wrapping_sub(b))
    } else if op == OpCode::MULT {
        Ok(a.wrapping_mul(b))
    } else {
        if b == 0 {
            return Err(RuntimeError::DivisionByZero);
        }
        match a.checked_div(b) {
            Some(q) => Ok(q),
            None => Ok(i32::MIN),
        }
    }
}

/// Performs a 32-bit integer comparison; exact.
pub fn eval_int_cmp(op: i32, a: i32, b: i32) -> (r: bool)
    requires
        op == OpCode::GT || op == OpCode::LT || op == OpCode::EQ || op == OpCode::NEQ,
    ensures
        r == int_cmp_of(op, a, b),
{
    if op == OpCode::GT {
        a > b
    } else if op == OpCode::LT {
        a < b
    } else if op == OpCode::EQ {
        a == b
    } else {
        a != b
    }
}

/// Decides whether a division must fail before any float work is asked
/// for: exactly when the operation is `DIV` and the right operand is a
/// zero value (the integer zero, `false`, or a zero bit pattern). This is
/// the single gate the engine runs every arithmetic instruction through.
pub fn check_division(op: i32, right: Value) -> (r: Result<(), RuntimeError>)
    ensures
        r is Err <==> (op == OpCode::DIV && divisor_is_zero(right)),
        r is Err ==> r == Err::<(), RuntimeError>(RuntimeError::DivisionByZero),
{
    if op == OpCode::DIV {
        let zero = match right {
            Value::Int(i) => i == 0,
            Value::Float(bits) => bits == 0 || bits == 0x8000_0000_0000_0000,
            Value::Bool(b) => !b,
        };
        if zero {
            return Err(RuntimeError::DivisionByZero);
        }
    }
    Ok(())
}

/// How a store ended: done, or an integer value that must first be
/// converted to a double for a float-segment destination.
pub enum SetOutcome {
    Done,
    NeedConvert(i32),
}

impl VM {
    /// A fresh machine with no instructions and empty memory.
    pub fn new() -> (v: VM)
        ensures
            vm_wf(v),
            v.quads@.len() == 0,
            v.ip == 0,
            v.pending is None,
            v.outputs@.len() == 0,
            v.call_stack@.len() == 0,
            v.staged_params@.len() == 0,
            v.functions@.len() == 0,
            v.int_memory@.len() == 0,
            v.float_memory@.len() == 0,
            v.bool_memory@.len() == 0,
            v.max_int_addr == MemoryAddresses::INT_START - 1,
            v.max_float_addr == MemoryAddresses::FLOAT_START - 1,
            v.max_bool_addr == MemoryAddresses::BOOL_START - 1,
            v.max_cte_int_addr == MemoryAddresses::CTE_INT_START - 1,
            v.max_cte_float_addr == MemoryAddresses::CTE_FLOAT_START - 1,
            v.max_cte_bool_addr == MemoryAddresses::CTE_BOOL_START - 1,
            v.max_temp_int_addr == MemoryAddresses::TEMP_INT_START - 1,
            v.max_temp_float_addr == MemoryAddresses::TEMP_FLOAT_START - 1,
            v.max_temp_bool_addr == MemoryAddresses::TEMP_BOOL_START - 1,
    {
        VM {
            quads: Vec::new(),
            ip: 0,
            int_memory: Vec::new(),
            float_memory: Vec::new(),
            bool_memory: Vec::new(),
            call_stack: Vec::new(),
            functions: Vec::new(),
            max_int_addr: MemoryAddresses::INT_START - 1,
            max_float_addr: MemoryAddresses::FLOAT_START - 1,
            max_bool_addr: MemoryAddresses::BOOL_START - 1,
            max_cte_int_addr: MemoryAddresses::CTE_INT_START - 1,
            max_cte_float_addr: MemoryAddresses::CTE_FLOAT_START - 1,
            max_cte_bool_addr: MemoryAddresses::CTE_BOOL_START - 1,
            max_temp_int_addr: MemoryAddresses::TEMP_INT_START - 1,
            max_temp_float_addr: MemoryAddresses::TEMP_FLOAT_START - 1,
            max_temp_bool_addr: MemoryAddresses::TEMP_BOOL_START - 1,
            staged_params: Vec::new(),
            outputs: Vec::new(),
            pending: None,
        }
    }

    /// Raises the segment bound the address falls in, by range test alone;
    /// addresses outside every segment — including the string-literal
    /// range, which the artifact cannot carry — are ignored, so reading
    /// one later fails as an unmapped address rather than being misfiled
    /// into a neighboring segment. Every bound is monotone.
    fn update_max_address(&mut self, address: i32)
        requires
            bounds_wf(*old(self)),
        ensures
            bounds_wf(*final(self)),
            *final(self) == (VM {
                max_int_addr: final(self).max_int_addr,
                max_float_addr: final(self).max_float_addr,
                max_bool_addr: final(self).max_bool_addr,
                max_cte_int_addr: final(self).max_cte_int_addr,
                max_cte_float_addr: final(self).max_cte_float_addr,
                max_cte_bool_addr: final(self).max_cte_bool_addr,
                max_temp_int_addr: final(self).max_temp_int_addr,
                max_temp_float_addr: final(self).max_temp_float_addr,
                max_temp_bool_addr: final(self).max_temp_bool_addr,
                ..*old(self)
            }),
            final(self).max_int_addr == if MemoryAddresses::INT_START <= address
                < MemoryAddresses::FLOAT_START && address > old(self).max_int_addr {
                address
            } else {
                old(self).max_int_addr
            },
            final(self).max_float_addr == if MemoryAddresses::FLOAT_START <= address
                < MemoryAddresses::BOOL_START && address > old(self).max_float_addr {
                address
            } else {
                old(self).max_float_addr
            },
            final(self).max_bool_addr == if MemoryAddresses::BOOL_START <= address
                < MemoryAddresses::CTE_INT_START && address > old(self).max_bool_addr {
                address
            } else {
                old(self).max_bool_addr
            },
            final(self).max_cte_int_addr == if MemoryAddresses::CTE_INT_START <= address
                < MemoryAddresses::CTE_FLOAT_START && address > old(self).max_cte_int_addr {
                address
            } else {
                old(self).max_cte_int_addr
            },
            final(self).max_cte_float_addr == if MemoryAddresses::CTE_FLOAT_START <= address
                < MemoryAddresses::CTE_BOOL_START && address > old(self).max_cte_float_addr {
                address
            } else {
                old(self).max_cte_float_addr
            },
            final(self).max_cte_bool_addr == if MemoryAddresses::CTE_BOOL_START <= address
                < MemoryAddresses::TEMP_INT_START && address > old(self).max_cte_bool_addr {
                address
            } else {
                old(self).max_cte_bool_addr
            },
            final(self).max_temp_int_addr == if MemoryAddresses::TEMP_INT_START <= address
                < MemoryAddresses::TEMP_FLOAT_START && address > old(self).max_temp_int_addr {
                address
            } else {
                old(self).max_temp_int_addr
            },
            final(self).max_temp_float_addr == if MemoryAddresses::TEMP_FLOAT_START <= address
                < MemoryAddresses::TEMP_BOOL_START && address > old(self).max_temp_float_addr {
                address
            } else {
                old(self).max_temp_float_addr
            },
            final(self).max_temp_bool_addr == if MemoryAddresses::TEMP_BOOL_START <= address
                < MemoryAddresses::TEMP_BOOL_END && address > old(self).max_temp_bool_addr {
                address
            } else {
                old(self).max_temp_bool_addr
            },
    {
        if address >= MemoryAddresses::INT_START && address < MemoryAddresses::FLOAT_START {
            if address > self.max_int_addr {
                self.max_int_addr = address;
            }
        } else if address >= MemoryAddresses::FLOAT_START && address
            < MemoryAddresses::BOOL_START {
            if address > self.max_float_addr {
                self.max_float_addr = address;
            }
        } else if address >= MemoryAddresses::BOOL_START && address
            < MemoryAddresses::CTE_INT_START {
            if address > self.max_bool_addr {
                self.max_bool_addr = address;
            }
        } else if address >= MemoryAddresses::CTE_INT_START && address
            < MemoryAddresses::CTE_FLOAT_START {
            if address > self.max_cte_int_addr {
                self.max_cte_int_addr = address;
            }
        } else if address >= MemoryAddresses::CTE_FLOAT_START && address
            < MemoryAddresses::CTE_BOOL_START {
            if address > self.max_cte_float_addr {
                self.max_cte_float_addr = address;
            }
        } else if address >= MemoryAddresses::CTE_BOOL_START && address
            < MemoryAddresses::TEMP_INT_START {
            if address > self.max_cte_bool_addr {
                self.max_cte_bool_addr = address;
            }
        } else if address >= MemoryAddresses::TEMP_INT_START && address
            < MemoryAddresses::TEMP_FLOAT_START {
            if address > self.max_temp_int_addr {
                self.max_temp_int_addr = address;
            }
        } else if address >= MemoryAddresses::TEMP_FLOAT_START && address
            < MemoryAddresses::TEMP_BOOL_START {
            if address > self.max_temp_float_addr {
                self.max_temp_float_addr = address;
            }
        } else if address >= MemoryAddresses::TEMP_BOOL_START && address
            < MemoryAddresses::TEMP_BOOL_END {
            if address > self.max_temp_bool_addr {
                self.max_temp_bool_addr = address;
            }
        }
    }

    /// Sizes the three typed memories to their discovered segment bounds,
    /// every cell uninitialized.
    fn resize_memory(&mut self)
        requires
            bounds_wf(*old(self)),
        ensures
            vm_wf(*final(self)),
            *final(self) == (VM {
                int_memory: final(self).int_memory,
                float_memory: final(self).float_memory,
                bool_memory: final(self).bool_memory,
                ..*old(self)
            }),
            forall|k: int|
                0 <= k < final(self).int_memory@.len() ==> final(self).int_memory@[k] is None,
            forall|k: int|
                0 <= k < final(self).float_memory@.len() ==> final(self).float_memory@[k] is None,
            forall|k: int|
                0 <= k < final(self).bool_memory@.len() ==> final(self).bool_memory@[k] is None,
    {
        let int_total = (self.max_int_addr + 1 - MemoryAddresses::INT_START) as usize + (
        self.max_cte_int_addr + 1 - MemoryAddresses::CTE_INT_START) as usize + (
        self.max_temp_int_addr + 1 - MemoryAddresses::TEMP_INT_START) as usize;
        let float_total = (self.max_float_addr + 1 - MemoryAddresses::FLOAT_START) as usize + (
        self.max_cte_float_addr + 1 - MemoryAddresses::CTE_FLOAT_START) as usize + (
        self.max_temp_float_addr + 1 - MemoryAddresses::TEMP_FLOAT_START) as usize;
        let bool_total = (self.max_bool_addr + 1 - MemoryAddresses::BOOL_START) as usize + (
        self.max_cte_bool_addr + 1 - MemoryAddresses::CTE_BOOL_START) as usize + (
        self.max_temp_bool_addr + 1 - MemoryAddresses::TEMP_BOOL_START) as usize;
        let mut im: Vec<Option<i32>> = Vec::new();
        let mut k: usize = 0;
        while k < int_total
            invariant
                0 <= k <= int_total,
                im@.len() == k,
                forall|j: int| 0 <= j < k ==> im@[j] is None,
            decreases int_total - k,
        {
            im.push(None);
            k = k + 1;
        }
        self.int_memory = im;
        let mut fm: Vec<Option<u64>> = Vec::new();
        let mut k2: usize = 0;
        while k2 < float_total
            invariant
                0 <= k2 <= float_total,
                fm@.len() == k2,
                forall|j: int| 0 <= j < k2 ==> fm@[j] is None,
            decreases float_total - k2,
        {
            fm.push(None);
            k2 = k2 + 1;
        }
        self.float_memory = fm;
        let mut bm: Vec<Option<bool>> = Vec::new();
        let mut k3: usize = 0;
        while k3 < bool_total
            invariant
                0 <= k3 <= bool_total,
                bm@.len() == k3,
                forall|j: int| 0 <= j < k3 ==> bm@[j] is None,
            decreases bool_total - k3,
        {
            bm.push(None);
            k3 = k3 + 1;
        }
        self.bool_memory = bm;
    }

    /// The integer-memory cell of an address, decided by range alone.
    fn get_int_idx(&self, address: i32) -> (r: Result<usize, RuntimeError>)
        requires
            vm_wf(*self),
        ensures
            match int_idx_of(abs(*self), address) {
                Some(k) => r is Ok && r.unwrap() == k && k < self.int_memory@.len(),
                None => r is Err,
            },
    {
        if address >= MemoryAddresses::INT_START && address <= self.max_int_addr {
            Ok((address - MemoryAddresses::INT_START) as usize)
        } else if address >= MemoryAddresses::CTE_INT_START && address <= self.max_cte_int_addr {
            Ok(
                (address - MemoryAddresses::CTE_INT_START) as usize + (self.max_int_addr + 1
                    - MemoryAddresses::INT_START) as usize,
            )
        } else if address >= MemoryAddresses::TEMP_INT_START && address
            <= self.max_temp_int_addr {
            Ok(
                (address - MemoryAddresses::TEMP_INT_START) as usize + (self.max_int_addr + 1
                    - MemoryAddresses::INT_START) as usize + (self.max_cte_int_addr + 1
                    - MemoryAddresses::CTE_INT_START) as usize,
            )
        } else {
            Err(RuntimeError::UnmappedAddress(address))
        }
    }

    /// The float-memory cell of an address.
    fn get_float_idx(&self, address: i32) -> (r: Result<usize, RuntimeError>)
        requires
            vm_wf(*self),
        ensures
            match float_idx_of(abs(*self), address) {
                Some(k) => r is Ok && r.unwrap() == k && k < self.float_memory@.len(),
                None => r is Err,
            },
    {
        if address >= MemoryAddresses::FLOAT_START && address <= self.max_float_addr {
            Ok((address - MemoryAddresses::FLOAT_START) as usize)
        } else if address >= MemoryAddresses::CTE_FLOAT_START && address
            <= self.max_cte_float_addr {
            Ok(
                (address - MemoryAddresses::CTE_FLOAT_START) as usize + (self.max_float_addr + 1
                    - MemoryAddresses::FLOAT_START) as usize,
            )
        } else if address >= MemoryAddresses::TEMP_FLOAT_START && address
            <= self.max_temp_float_addr {
            Ok(
                (address - MemoryAddresses::TEMP_FLOAT_START) as usize + (self.max_float_addr + 1
                    - MemoryAddresses::FLOAT_START) as usize + (self.max_cte_float_addr + 1
                    - MemoryAddresses::CTE_FLOAT_START) as usize,
            )
        } else {
            Err(RuntimeError::UnmappedAddress(address))
        }
    }

    /// The boolean-memory cell of an address.
    fn get_bool_idx(&self, address: i32) -> (r: Result<usize, RuntimeError>)
        requires
            vm_wf(*self),
        ensures
            match bool_idx_of(abs(*self), address) {
                Some(k) => r is Ok && r.unwrap() == k && k < self.bool_memory@.len(),
                None => r is Err,
            },
    {
        if address >= MemoryAddresses::BOOL_START && address <= self.max_bool_addr {
            Ok((address - MemoryAddresses::BOOL_START) as usize)
        } else if address >= MemoryAddresses::CTE_BOOL_START && address
            <= self.max_cte_bool_addr {
            Ok(
                (address - MemoryAddresses::CTE_BOOL_START) as usize + (self.max_bool_addr + 1
                    - MemoryAddresses::BOOL_START) as usize,
            )
        } else if address >= MemoryAddresses::TEMP_BOOL_START && address
            <= self.max_temp_bool_addr {
            Ok(
                (address - MemoryAddresses::TEMP_BOOL_START) as usize + (self.max_bool_addr + 1
                    - MemoryAddresses::BOOL_START) as usize + (self.max_cte_bool_addr + 1
                    - MemoryAddresses::CTE_BOOL_START) as usize,
            )
        } else {
            Err(RuntimeError::UnmappedAddress(address))
        }
    }

    /// Reads an address: the typed value of its mapped, initialized cell;
    /// reading an uninitialized cell or an unmapped address is a failure.
    pub fn get_value(&self, address: i32) -> (r: Result<Value, RuntimeError>)
        requires
            vm_wf(*self),
        ensures
            r == read_of(abs(*self), address),
    {
        match self.get_int_idx(address) {
            Ok(idx) => {
                return match self.int_memory[idx] {
                    Some(x) => Ok(Value::Int(x)),
                    None => Err(RuntimeError::UninitializedRead(address)),
                };
            },
            Err(_) => {},
        }
        match self.get_float_idx(address) {
            Ok(idx) => {
                return match self.float_memory[idx] {
                    Some(x) => Ok(Value::Float(x)),
                    None => Err(RuntimeError::UninitializedRead(address)),
                };
            },
            Err(_) => {},
        }
        match self.get_bool_idx(address) {
            Ok(idx) => {
                return match self.bool_memory[idx] {
                    Some(x) => Ok(Value::Bool(x)),
                    None => Err(RuntimeError::UninitializedRead(address)),
                };
            },
            Err(_) => {},
        }
        Err(RuntimeError::UnmappedAddress(address))
    }

    /// Writes a value to an address with the permitted coercions: same
    /// type always; a boolean into integer memory as 0 or 1; an integer
    /// into boolean memory as its zero test; an integer into float memory
    /// needs a conversion, which is handed back to the caller. Any other
    /// combination is a type-mismatch failure.
    fn set_value(&mut self, address: i32, value: Value) -> (r: Result<SetOutcome, RuntimeError>)
        requires
            vm_wf(*old(self)),
        ensures
            vm_wf(*final(self)),
            *final(self) == (VM {
                int_memory: final(self).int_memory,
                float_memory: final(self).float_memory,
                bool_memory: final(self).bool_memory,
                ..*old(self)
            }),
            (match write_of(abs(*old(self)), address, value) {
                WriteOutcome::Wrote(s2) => r == Ok::<SetOutcome, RuntimeError>(SetOutcome::Done)
                    && abs(*final(self)) == s2,
                WriteOutcome::Convert(x) => r == Ok::<SetOutcome, RuntimeError>(
                    SetOutcome::NeedConvert(x),
                ) && *final(self) == *old(self),
                WriteOutcome::Reject(e) => r == Err::<SetOutcome, RuntimeError>(e) && *final(self)
                    == *old(self),
            }),
    {
        match self.get_int_idx(address) {
            Ok(idx) => {
                return match value {
                    Value::Int(x) => {
                        self.int_memory.set(idx, Some(x));
                        Ok(SetOutcome::Done)
                    },
                    Value::Bool(b) => {
                        self.int_memory.set(idx, Some(if b { 1 } else { 0 }));
                        Ok(SetOutcome::Done)
                    },
                    Value::Float(_) => Err(RuntimeError::TypeMismatch(address)),
                };
            },
            Err(_) => {},
        }
        match self.get_float_idx(address) {
            Ok(idx) => {
                return match value {
                    Value::Float(bits) => {
                        self.float_memory.set(idx, Some(bits));
                        Ok(SetOutcome::Done)
                    },
                    Value::Int(x) => Ok(SetOutcome::NeedConvert(x)),
                    Value::Bool(_) => Err(RuntimeError::TypeMismatch(address)),
                };
            },
            Err(_) => {},
        }
        match self.get_bool_idx(address) {
            Ok(idx) => {
                return match value {
                    Value::Bool(b) => {
                        self.bool_memory.set(idx, Some(b));
                        Ok(SetOutcome::Done)
                    },
                    Value::Int(x) => {
                        self.bool_memory.set(idx, Some(x != 0));
                        Ok(SetOutcome::Done)
                    },
                    Value::Float(_) => Err(RuntimeError::TypeMismatch(address)),
                };
            },
            Err(_) => {},
        }
        Err(RuntimeError::UnmappedAddress(address))
    }
}

impl VM {
    /// Index of the function entry with the given start key, the most
    /// recently loaded one winning.
    fn find_function(&self, key: i32) -> (r: Option<usize>)
        ensures
            fn_idx_of(self.functions@, key) == -1 <==> r is None,
            r is Some ==> fn_idx_of(self.functions@, key) == r.unwrap() as int
                && 0 <= fn_idx_of(self.functions@, key) < self.functions@.len(),
    {
        let n = self.functions.len();
        let mut i: usize = n;
        while i > 0
            invariant
                0 <= i <= n,
                n == self.functions@.len(),
                forall|j: int| i <= j < n ==> (#[trigger] self.functions@[j]).0 != key,
            decreases i,
        {
            i = i - 1;
            if self.functions[i].0 == key {
                proof {
                    lemma_fn_idx_at(self.functions@, key, i as int);
                }
                return Some(i);
            }

        }
        proof {
            lemma_fn_idx_none(self.functions@, key);
        }
        None
    }

    /// Loads a deserialized artifact: first every referenced address is
    /// scanned to size the typed memories, then the constants, the
    /// function table, and the instruction stream are installed. Loading
    /// succeeds exactly when every constant's address lies in a segment of
    /// its own type; then each constant is readable at its address (its
    /// last occurrence winning), the function table carries exactly the
    /// artifact's entries, and the instruction stream is exactly the
    /// artifact's.
    pub fn load_object(&mut self, obj: ObjectProgram) -> (r: Result<(), LoadError>)
        ensures
            r is Ok <==> consts_mapped(obj.int_constants@, obj.float_constants@),
            r is Err ==> r == Err::<(), LoadError>(LoadError::BadAddress),
            r is Ok ==> {
                &&& vm_wf(*final(self))
                &&& final(self).quads@ == obj.quadruples@
                &&& final(self).ip == 0
                &&& final(self).pending is None
                &&& final(self).call_stack@.len() == 0
                &&& final(self).outputs@.len() == 0
                &&& final(self).staged_params@.len() == 0
                &&& fn_table_matches(final(self).functions@, obj.functions@)
                &&& (forall|j: int|
                    0 <= j < obj.int_constants@.len() && (forall|k: int|
                        j < k < obj.int_constants@.len() ==> (#[trigger] obj.int_constants@[k]).1
                            != obj.int_constants@[j].1) ==> read_of(
                        abs(*final(self)),
                        (#[trigger] obj.int_constants@[j]).1,
                    ) == Ok::<Value, RuntimeError>(Value::Int(obj.int_constants@[j].0)))
                &&& (forall|j: int|
                    0 <= j < obj.float_constants@.len() && (forall|k: int|
                        j < k < obj.float_constants@.len() ==> (
                        #[trigger] obj.float_constants@[k]).1 != obj.float_constants@[j].1)
                        ==> read_of(abs(*final(self)), (#[trigger] obj.float_constants@[j]).1)
                        == Ok::<Value, RuntimeError>(Value::Float(obj.float_constants@[j].0)))
            },
    {
        let fresh = VM::new();
        *self = fresh;
        let n1 = obj.int_constants.len();
        let mut i: usize = 0;
        while i < n1
            invariant
                bounds_wf(*self),
                i <= n1,
                n1 == obj.int_constants@.len(),
                self.int_memory@.len() == 0,
                self.float_memory@.len() == 0,
                self.bool_memory@.len() == 0,
                self.ip == 0,
                self.pending is None,
                self.call_stack@.len() == 0,
                self.outputs@.len() == 0,
                self.staged_params@.len() == 0,
                self.quads@.len() == 0,
                forall|j: int|
                    0 <= j < i && int_const_addr_ok((#[trigger] obj.int_constants@[j]).1)
                        ==> int_idx_of(abs(*self), obj.int_constants@[j].1) is Some,
            decreases n1 - i,
        {
            self.update_max_address(obj.int_constants[i].1);
            i = i + 1;
        }
        let n2 = obj.float_constants.len();
        let mut i2: usize = 0;
        while i2 < n2
            invariant
                bounds_wf(*self),
                i2 <= n2,
                n1 == obj.int_constants@.len(),
                n2 == obj.float_constants@.len(),
                self.int_memory@.len() == 0,
                self.float_memory@.len() == 0,
                self.bool_memory@.len() == 0,
                self.ip == 0,
                self.pending is None,
                self.call_stack@.len() == 0,
                self.outputs@.len() == 0,
                self.staged_params@.len() == 0,
                self.quads@.len() == 0,
                forall|j: int|
                    0 <= j < n1 && int_const_addr_ok((#[trigger] obj.int_constants@[j]).1)
                        ==> int_idx_of(abs(*self), obj.int_constants@[j].1) is Some,
                forall|j: int|
                    0 <= j < i2 && float_const_addr_ok((#[trigger] obj.float_constants@[j]).1)
                        ==> float_idx_of(abs(*self), obj.float_constants@[j].1) is Some,
            decreases n2 - i2,
        {
            self.update_max_address(obj.float_constants[i2].1);
            i2 = i2 + 1;
        }
        let n3 = obj.functions.len();
        let mut i3: usize = 0;
        while i3 < n3
            invariant
                bounds_wf(*self),
                i3 <= n3,
                n1 == obj.int_constants@.len(),
                n2 == obj.float_constants@.len(),
                n3 == obj.functions@.len(),
                self.int_memory@.len() == 0,
                self.float_memory@.len() == 0,
                self.bool_memory@.len() == 0,
                self.ip == 0,
                self.pending is None,
                self.call_stack@.len() == 0,
                self.outputs@.len() == 0,
                self.staged_params@.len() == 0,
                self.quads@.len() == 0,
                forall|j: int|
                    0 <= j < n1 && int_const_addr_ok((#[trigger] obj.int_constants@[j]).1)
                        ==> int_idx_of(abs(*self), obj.int_constants@[j].1) is Some,
                forall|j: int|
                    0 <= j < n2 && float_const_addr_ok((#[trigger] obj.float_constants@[j]).1)
                        ==> float_idx_of(abs(*self), obj.float_constants@[j].1) is Some,
            decreases n3 - i3,
        {
            let f = &obj.functions[i3];
            let na = f.param_addresses.len();
            let mut k: usize = 0;
            while k < na
                invariant
                    bounds_wf(*self),
                    k <= na,
                    n1 == obj.int_constants@.len(),
                    n2 == obj.float_constants@.len(),
                    na == f.param_addresses@.len(),
                    self.int_memory@.len() == 0,
                    self.float_memory@.len() == 0,
                    self.bool_memory@.len() == 0,
                    self.ip == 0,
                    self.pending is None,
                    self.call_stack@.len() == 0,
                    self.outputs@.len() == 0,
                    self.staged_params@.len() == 0,
                    self.quads@.len() == 0,
                    forall|j: int|
                        0 <= j < n1 && int_const_addr_ok((#[trigger] obj.int_constants@[j]).1)
                            ==> int_idx_of(abs(*self), obj.int_constants@[j].1) is Some,
                    forall|j: int|
                        0 <= j < n2 && float_const_addr_ok((#[trigger] obj.float_constants@[j]).1)
                            ==> float_idx_of(abs(*self), obj.float_constants@[j].1) is Some,
                decreases na - k,
            {
                self.update_max_address(f.param_addresses[k]);
                k = k + 1;
            }
            i3 = i3 + 1;
        }
        let n4 = obj.quadruples.len();
        let mut i4: usize = 0;
        while i4 < n4
            invariant
                bounds_wf(*self),
                i4 <= n4,
                n1 == obj.int_constants@.len(),
                n2 == obj.float_constants@.len(),
                n4 == obj.quadruples@.len(),
                self.int_memory@.len() == 0,
                self.float_memory@.len() == 0,
                self.bool_memory@.len() == 0,
                self.ip == 0,
                self.pending is None,
                self.call_stack@.len() == 0,
                self.outputs@.len() == 0,
                self.staged_params@.len() == 0,
                self.quads@.len() == 0,
                forall|j: int|
                    0 <= j < n1 && int_const_addr_ok((#[trigger] obj.int_constants@[j]).1)
                        ==> int_idx_of(abs(*self), obj.int_constants@[j].1) is Some,
                forall|j: int|
                    0 <= j < n2 && float_const_addr_ok((#[trigger] obj.float_constants@[j]).1)
                        ==> float_idx_of(abs(*self), obj.float_constants@[j].1) is Some,
            decreases n4 - i4,
        {
            let q = &obj.quadruples[i4];
            self.update_max_address(q.arg1);
            self.update_max_address(q.arg2);
            self.update_max_address(q.result);
            i4 = i4 + 1;
        }
        self.resize_memory();
        // Install the constants; a constant whose address falls outside
        // its type's segments rejects the artifact.
        let mut j: usize = 0;
        while j < n1
            invariant
                vm_wf(*self),
                j <= n1,
                n1 == obj.int_constants@.len(),
                n2 == obj.float_constants@.len(),
                self.ip == 0,
                self.pending is None,
                self.call_stack@.len() == 0,
                self.outputs@.len() == 0,
                self.staged_params@.len() == 0,
                self.quads@.len() == 0,
                forall|j2: int|
                    0 <= j2 < n1 && int_const_addr_ok((#[trigger] obj.int_constants@[j2]).1)
                        ==> int_idx_of(abs(*self), obj.int_constants@[j2].1) is Some,
                forall|j2: int|
                    0 <= j2 < n2 && float_const_addr_ok((#[trigger] obj.float_constants@[j2]).1)
                        ==> float_idx_of(abs(*self), obj.float_constants@[j2].1) is Some,
                forall|j2: int|
                    0 <= j2 < j ==> int_const_addr_ok((#[trigger] obj.int_constants@[j2]).1),
                forall|j2: int|
                    0 <= j2 < j && (forall|k2: int|
                        j2 < k2 < j ==> (#[trigger] obj.int_constants@[k2]).1
                            != obj.int_constants@[j2].1) ==> int_idx_of(
                        abs(*self),
                        (#[trigger] obj.int_constants@[j2]).1,
                    ) is Some && self.int_memory@[int_idx_of(
                        abs(*self),
                        obj.int_constants@[j2].1,
                    ).unwrap()] == Some(obj.int_constants@[j2].0),
            decreases n1 - j,
        {
            let c = obj.int_constants[j];
            match self.get_int_idx(c.1) {
                Ok(idx) => {
                    self.int_memory.set(idx, Some(c.0));
                    proof {
                        assert(int_idx_of(abs(*self), c.1) is Some);
                        assert(MemoryAddresses::INT_START <= c.1 <= self.max_int_addr
                            || MemoryAddresses::CTE_INT_START <= c.1 <= self.max_cte_int_addr
                            || MemoryAddresses::TEMP_INT_START <= c.1 <= self.max_temp_int_addr);
                        assert(int_const_addr_ok(c.1));
                        assert forall|j2: int|
                            0 <= j2 < j + 1 && (forall|k2: int|
                                j2 < k2 < j + 1 ==> (#[trigger] obj.int_constants@[k2]).1
                                    != obj.int_constants@[j2].1) implies int_idx_of(
                            abs(*self),
                            (#[trigger] obj.int_constants@[j2]).1,
                        ) is Some && self.int_memory@[int_idx_of(
                            abs(*self),
                            obj.int_constants@[j2].1,
                        ).unwrap()] == Some(obj.int_constants@[j2].0) by {
                            if j2 < j {
                                assert(obj.int_constants@[j as int].1 != obj.int_constants@[j2].1);
                                lemma_int_idx_injective(
                                    abs(*self),
                                    obj.int_constants@[j2].1,
                                    obj.int_constants@[j as int].1,
                                );
                            }
                        }
                    }
                },
                Err(_) => {
                    proof {
                        assert(!int_const_addr_ok(c.1));
                        assert(!consts_mapped(obj.int_constants@, obj.float_constants@));
                    }
                    return Err(LoadError::BadAddress);
                },
            }
            j = j + 1;
        }
        let mut j2: usize = 0;
        while j2 < n2
            invariant
                vm_wf(*self),
                j2 <= n2,
                n1 == obj.int_constants@.len(),
                n2 == obj.float_constants@.len(),
                self.ip == 0,
                self.pending is None,
                self.call_stack@.len() == 0,
                self.outputs@.len() == 0,
                self.staged_params@.len() == 0,
                self.quads@.len() == 0,
                forall|x: int|
                    0 <= x < n2 && float_const_addr_ok((#[trigger] obj.float_constants@[x]).1)
                        ==> float_idx_of(abs(*self), obj.float_constants@[x].1) is Some,
                forall|x: int|
                    0 <= x < n1 ==> int_const_addr_ok((#[trigger] obj.int_constants@[x]).1),
                forall|x: int|
                    0 <= x < n1 && (forall|k2: int|
                        x < k2 < n1 ==> (#[trigger] obj.int_constants@[k2]).1
                            != obj.int_constants@[x].1) ==> int_idx_of(
                        abs(*self),
                        (#[trigger] obj.int_constants@[x]).1,
                    ) is Some && self.int_memory@[int_idx_of(
                        abs(*self),
                        obj.int_constants@[x].1,
                    ).unwrap()] == Some(obj.int_constants@[x].0),
                forall|x: int|
                    0 <= x < j2 ==> float_const_addr_ok((#[trigger] obj.float_constants@[x]).1),
                forall|x: int|
                    0 <= x < j2 && (forall|k2: int|
                        x < k2 < j2 ==> (#[trigger] obj.float_constants@[k2]).1
                            != obj.float_constants@[x].1) ==> float_idx_of(
                        abs(*self),
                        (#[trigger] obj.float_constants@[x]).1,
                    ) is Some && self.float_memory@[float_idx_of(
                        abs(*self),
                        obj.float_constants@[x].1,
                    ).unwrap()] == Some(obj.float_constants@[x].0),
            decreases n2 - j2,
        {
            let c = obj.float_constants[j2];
            match self.get_float_idx(c.1) {
                Ok(idx) => {
                    self.float_memory.set(idx, Some(c.0));
                    proof {
                        assert(float_idx_of(abs(*self), c.1) is Some);
                        assert(MemoryAddresses::FLOAT_START <= c.1 <= self.max_float_addr
                            || MemoryAddresses::CTE_FLOAT_START <= c.1 <= self.max_cte_float_addr
                            || MemoryAddresses::TEMP_FLOAT_START <= c.1
                            <= self.max_temp_float_addr);
                        assert(float_const_addr_ok(c.1));
                        assert forall|x: int|
                            0 <= x < j2 + 1 && (forall|k2: int|
                                x < k2 < j2 + 1 ==> (#[trigger] obj.float_constants@[k2]).1
                                    != obj.float_constants@[x].1) implies float_idx_of(
                            abs(*self),
                            (#[trigger] obj.float_constants@[x]).1,
                        ) is Some && self.float_memory@[float_idx_of(
                            abs(*self),
                            obj.float_constants@[x].1,
                        ).unwrap()] == Some(obj.float_constants@[x].0) by {
                            if x < j2 {
                                assert(obj.float_constants@[j2 as int].1
                                    != obj.float_constants@[x].1);
                                lemma_float_idx_injective(
                                    abs(*self),
                                    obj.float_constants@[x].1,
                                    obj.float_constants@[j2 as int].1,
                                );
                            }
                        }
                    }
                },
                Err(_) => {
                    proof {
                        assert(!float_const_addr_ok(c.1));
                        assert(!consts_mapped(obj.int_constants@, obj.float_constants@));
                    }
                    return Err(LoadError::BadAddress);
                },
            }
            j2 = j2 + 1;
        }
        let mut funcs: Vec<(i32, VMFunctionInfo)> = Vec::new();
        let mut j3: usize = 0;
        let obj_m = obj;
        while j3 < n3
            invariant
                n3 == obj_m.functions@.len(),
                funcs@.len() == j3,
                j3 <= n3,
                fn_table_matches(funcs@, obj_m.functions@.take(j3 as int)),
            decreases n3 - j3,
        {
            let f = &obj_m.functions[j3];
            let mut name: Vec<u8> = Vec::new();
            let nn = f.name.len();
            let mut b: usize = 0;
            while b < nn
                invariant
                    nn == f.name@.len(),
                    name@ == f.name@.take(b as int),
                    b <= nn,
                decreases nn - b,
            {
                name.push(f.name[b]);
                proof {
                    assert(name@ =~= f.name@.take(b + 1));
                }
                b = b + 1;
            }
            proof {
                assert(name@ =~= f.name@);
            }
            let mut addrs: Vec<i32> = Vec::new();
            let na = f.param_addresses.len();
            let mut b2: usize = 0;
            while b2 < na
                invariant
                    na == f.param_addresses@.len(),
                    addrs@ == f.param_addresses@.take(b2 as int),
                    b2 <= na,
                decreases na - b2,
            {
                addrs.push(f.param_addresses[b2]);
                proof {
                    assert(addrs@ =~= f.param_addresses@.take(b2 + 1));
                }
                b2 = b2 + 1;
            }
            proof {
                assert(addrs@ =~= f.param_addresses@);
            }
            funcs.push(
                (
                    f.start_idx,
                    VMFunctionInfo {
                        name,
                        param_count: f.param_count,
                        param_addresses: addrs,
                    },
                ),
            );
            proof {
                assert(obj_m.functions@.take(j3 + 1).drop_last() =~= obj_m.functions@.take(
                    j3 as int,
                ));
                assert(obj_m.functions@.take(j3 + 1).last() == obj_m.functions@[j3 as int]);
            }
            j3 = j3 + 1;
        }
        self.functions = funcs;
        self.quads = obj_m.quadruples;
        proof {
            assert(obj_m.functions@.take(n3 as int) =~= obj_m.functions@);
        }
        Ok(())
    }

    /// Loads the lines of an object artifact. Loading succeeds exactly
    /// when the lines parse and every parsed constant's address lies in a
    /// segment of its own type; the installed instruction stream and
    /// constants are then exactly the artifact's, as the artifact parser
    /// specifies them.
    pub fn load_obj_file(&mut self, lines: &Vec<Vec<u8>>) -> (r: Result<(), LoadError>)
        ensures
            ({
                let p = parse_effect(line_views(lines@), parse_init());
                &&& (r is Ok <==> (p is Some && consts_mapped(
                    p.unwrap().int_constants,
                    p.unwrap().float_constants,
                )))
                &&& (r is Ok ==> {
                    let st = p.unwrap();
                    &&& vm_wf(*final(self))
                    &&& final(self).quads@ == st.quadruples
                    &&& final(self).ip == 0
                    &&& final(self).pending is None
                    &&& final(self).call_stack@.len() == 0
                    &&& final(self).outputs@.len() == 0
                    &&& final(self).staged_params@.len() == 0
                    &&& (forall|j: int|
                        0 <= j < st.int_constants.len() && (forall|k: int|
                            j < k < st.int_constants.len() ==> (#[trigger] st.int_constants[k]).1
                                != st.int_constants[j].1) ==> read_of(
                            abs(*final(self)),
                            (#[trigger] st.int_constants[j]).1,
                        ) == Ok::<Value, RuntimeError>(Value::Int(st.int_constants[j].0)))
                    &&& (forall|j: int|
                        0 <= j < st.float_constants.len() && (forall|k: int|
                            j < k < st.float_constants.len() ==> (
                            #[trigger] st.float_constants[k]).1 != st.float_constants[j].1)
                            ==> read_of(abs(*final(self)), (#[trigger] st.float_constants[j]).1)
                            == Ok::<Value, RuntimeError>(Value::Float(st.float_constants[j].0)))
                })
            }),
    {
        let obj = match parse_object(lines) {
            Ok(o) => o,
            Err(e) => {
                return Err(e);
            },
        };
        self.load_object(obj)
    }

    /// Copies staged parameters into the callee's parameter addresses from
    /// the given index on; when done, pushes the return address and jumps
    /// to the callee. Pauses when a staged integer must become a double.
    /// The state and result are exactly those of the call-protocol
    /// specification.
    fn gosub_progress(&mut self, start_key: i32, from_k: usize) -> (r: StepOutcome)
        requires
            vm_wf(*old(self)),
        ensures
            vm_wf(*final(self)),
            final(self).quads == old(self).quads,
            final(self).functions == old(self).functions,
            (abs(*final(self)), r) == step_outcome_of(
                gosub_of(abs(*old(self)), start_key, from_k as int),
            ),
    {
        let ghost s_in = abs(*old(self));
        let fi = match self.find_function(start_key) {
            Some(i) => i,
            None => {
                proof {
                    lemma_fn_idx_of(s_in.functions, start_key);
                }
                return StepOutcome::Failed(RuntimeError::UnknownFunction(start_key));
            },
        };
        proof {
            lemma_fn_idx_of(s_in.functions, start_key);
        }
        proof {
            assert(s_in.functions == old(self).functions@);
            assert(fn_idx_of(s_in.functions, start_key) == fi as int);
        }
        let pcount = self.functions[fi].1.param_count;
        if pcount != self.staged_params.len() {
            proof {
                assert(s_in.functions[fi as int].1.param_count == pcount);
                assert(s_in.staged_params.len() == self.staged_params@.len());
                assert(gosub_of(s_in, start_key, from_k as int) == (
                    s_in,
                    StepResult::Abort(RuntimeError::ParamCountMismatch(start_key)),
                ));
                assert(abs(*self) =~= s_in);
            }
            return StepOutcome::Failed(RuntimeError::ParamCountMismatch(start_key));
        }
        if self.functions[fi].1.param_addresses.len() != pcount {
            proof {
                assert(gosub_of(s_in, start_key, from_k as int) == (
                    s_in,
                    StepResult::Abort(RuntimeError::ParamCountMismatch(start_key)),
                ));
                assert(abs(*self) =~= s_in);
            }
            return StepOutcome::Failed(RuntimeError::ParamCountMismatch(start_key));
        }
        let mut k = from_k;
        while k < self.staged_params.len()
            invariant
                vm_wf(*self),
                self.quads == old(self).quads,
                self.functions == old(self).functions,
                self.pending == old(self).pending,
                self.ip == old(self).ip,
                self.staged_params == old(self).staged_params,
                self.call_stack == old(self).call_stack,
                self.outputs == old(self).outputs,
                fi == fn_idx_of(abs(*self).functions, start_key),
                0 <= fi < self.functions@.len(),
                self.functions@[fi as int].1.param_addresses@.len()
                    == self.functions@[fi as int].1.param_count,
                self.functions@[fi as int].1.param_count == self.staged_params@.len(),
                from_k <= k || k <= self.staged_params@.len(),
                gosub_copy(abs(*old(self)), start_key, from_k as int) == gosub_copy(
                    abs(*self),
                    start_key,
                    k as int,
                ),
            decreases self.staged_params@.len() - k,
        {
            let ghost pre = abs(*self);
            let dest = self.functions[fi].1.param_addresses[k];
            let val = self.staged_params[k];
            match self.set_value(dest, val) {
                Ok(SetOutcome::Done) => {
                    proof {
                        assert(gosub_copy(pre, start_key, k as int) == gosub_copy(
                            abs(*self),
                            start_key,
                            k + 1,
                        ));
                    }
                },
                Ok(SetOutcome::NeedConvert(x)) => {
                    self.pending = Some(
                        Pending::GosubConvert { dest, start_key, next_k: k + 1 },
                    );
                    proof {
                        assert(abs(*self) =~= (MachineState {
                            pending: Some(
                                Pending::GosubConvert { dest, start_key, next_k: (k + 1) as usize },
                            ),
                            ..pre
                        }));
                    }
                    return StepOutcome::Paused(FloatRequest::Convert { value: x });
                },
                Err(e) => {
                    return StepOutcome::Failed(e);
                },
            }
            k = k + 1;
        }
        if start_key < 0 || start_key as usize >= self.quads.len() {
            return StepOutcome::Failed(RuntimeError::InvalidJump(start_key));
        }
        if self.ip >= self.quads.len() {
            return StepOutcome::Failed(RuntimeError::InvalidJump(start_key));
        }
        let ghost pre = abs(*self);
        self.call_stack.push(self.ip + 1);
        self.ip = start_key as usize;
        self.staged_params = Vec::new();
        proof {
            assert(abs(*self).staged_params =~= Seq::<Value>::empty());
            assert(abs(*self) =~= (MachineState {
                call_stack: pre.call_stack.push(((pre.ip + 1) as usize)),
                ip: start_key as int,
                staged_params: Seq::empty(),
                ..pre
            }));
        }
        StepOutcome::Ready
    }

    /// Hands back the bit pattern of a requested float arithmetic result
    /// or conversion: with a pending store the bits land in the pending
    /// destination and the instruction completes; with a pending
    /// call-protocol conversion the parameter copy resumes; with no
    /// outstanding request, or a comparison outstanding, the call is
    /// rejected. Exactly the resume specification.
    pub fn resume_float_bits(&mut self, bits: u64) -> (r: StepOutcome)
        requires
            vm_wf(*old(self)),
        ensures
            vm_wf(*final(self)),
            final(self).quads == old(self).quads,
            (abs(*final(self)), r) == resume_bits_of(abs(*old(self)), bits),
    {
        let p = match self.pending {
            Some(p) => p,
            None => {
                return StepOutcome::Failed(RuntimeError::PendingFloat);
            },
        };
        self.pending = None;
        let ghost s0 = abs(*self);
        proof {
            assert(s0 =~= (MachineState { pending: None, ..abs(*old(self)) }));
        }
        match p {
            Pending::StoreBits { dest } => {
                match self.set_value(dest, Value::Float(bits)) {
                    Ok(SetOutcome::Done) => {
                        let ghost s2 = abs(*self);
                        if self.ip < usize::MAX {
                            self.ip = self.ip + 1;
                        }
                        proof {
                            assert(abs(*self) =~= (MachineState { ip: bump_ip(s2.ip), ..s2 }));
                        }
                        StepOutcome::Ready
                    },
                    Ok(SetOutcome::NeedConvert(_)) => StepOutcome::Failed(
                        RuntimeError::TypeMismatch(dest),
                    ),
                    Err(e) => StepOutcome::Failed(e),
                }
            },
            Pending::GosubConvert { dest, start_key, next_k } => {
                match self.set_value(dest, Value::Float(bits)) {
                    Ok(SetOutcome::Done) => self.gosub_progress(start_key, next_k),
                    Ok(SetOutcome::NeedConvert(_)) => StepOutcome::Failed(
                        RuntimeError::TypeMismatch(dest),
                    ),
                    Err(e) => StepOutcome::Failed(e),
                }
            },
            Pending::StoreCmp { dest } => StepOutcome::Failed(RuntimeError::PendingFloat),
        }
    }

    /// Hands back a requested float comparison result: with a pending
    /// comparison store, the boolean lands in the pending destination and
    /// the instruction completes; anything else is rejected. Exactly the
    /// resume specification.
    pub fn resume_cmp(&mut self, value: bool) -> (r: StepOutcome)
        requires
            vm_wf(*old(self)),
        ensures
            vm_wf(*final(self)),
            final(self).quads == old(self).quads,
            (abs(*final(self)), r) == resume_cmp_of(abs(*old(self)), value),
    {
        let p = match self.pending {
            Some(p) => p,
            None => {
                return StepOutcome::Failed(RuntimeError::PendingFloat);
            },
        };
        self.pending = None;
        let ghost s0 = abs(*self);
        proof {
            assert(s0 =~= (MachineState { pending: None, ..abs(*old(self)) }));
        }
        match p {
            Pending::StoreCmp { dest } => {
                match self.set_value(dest, Value::Bool(value)) {
                    Ok(SetOutcome::Done) => {
                        let ghost s2 = abs(*self);
                        if self.ip < usize::MAX {
                            self.ip = self.ip + 1;
                        }
                        proof {
                            assert(abs(*self) =~= (MachineState { ip: bump_ip(s2.ip), ..s2 }));
                        }
                        StepOutcome::Ready
                    },
                    Ok(SetOutcome::NeedConvert(_)) => StepOutcome::Failed(
                        RuntimeError::TypeMismatch(dest),
                    ),
                    Err(e) => StepOutcome::Failed(e),
                }
            },
            _ => StepOutcome::Failed(RuntimeError::PendingFloat),
        }
    }

    /// Runs at most `fuel` instructions: a single instruction pointer
    /// walks the stream until `HALT`, a return from an empty call stack,
    /// the end of the stream, a failure, an outstanding float request, or
    /// the budget's end. The final state and the outcome are exactly those
    /// of stepping the opcode-table specification at most `fuel` times
    /// from the starting state: every division is gated through the
    /// division-by-zero test, every operand fetch through the typed read,
    /// every jump lands on the `result` field, and the call protocol and
    /// output log follow the specification. A call with an outstanding
    /// float request, or with no instructions loaded, is rejected
    /// unchanged.
    #[verifier::rlimit(100)]
    pub fn run(&mut self, fuel: u64) -> (r: RunOutcome)
        requires
            vm_wf(*old(self)),
        ensures
            vm_wf(*final(self)),
            final(self).quads == old(self).quads,
            final(self).functions == old(self).functions,
            old(self).pending is Some ==> r == RunOutcome::Failed(RuntimeError::PendingFloat)
                && *final(self) == *old(self),
            (old(self).pending is None && old(self).quads@.len() == 0) ==> r == RunOutcome::Failed(
                RuntimeError::EmptyProgram,
            ) && *final(self) == *old(self),
            (old(self).pending is None && old(self).quads@.len() > 0) ==> (abs(*final(self)), r)
                == run_steps(abs(*old(self)), fuel as nat),
            r is Paused ==> final(self).pending is Some,
    {
        match self.pending {
            Some(_) => {
                return RunOutcome::Failed(RuntimeError::PendingFloat);
            },
            None => {},
        }
        if self.quads.len() == 0 {
            return RunOutcome::Failed(RuntimeError::EmptyProgram);
        }
        let mut steps: u64 = 0;
        while steps < fuel
            invariant
                vm_wf(*self),
                self.quads == old(self).quads,
                self.functions == old(self).functions,
                self.quads@.len() > 0,
                self.pending is None,
                old(self).pending is None,
                old(self).quads@.len() > 0,
                steps <= fuel,
                run_steps(abs(*old(self)), fuel as nat) == run_steps(
                    abs(*self),
                    (fuel - steps) as nat,
                ),
            decreases fuel - steps,
        {
            let ghost pre = abs(*self);
            let ghost m = (fuel - steps) as nat;
            if self.ip >= self.quads.len() {
                if self.call_stack.len() == 0 {
                    proof {
                        assert(step(pre) == (pre, StepResult::Done));
                        assert(run_steps(pre, m) == (abs(*self), RunOutcome::Finished));
                    }
                    return RunOutcome::Finished;
                } else {
                    proof {
                        assert(step(pre) == (pre, StepResult::Abort(RuntimeError::MissingReturn)));
                    }
                    return RunOutcome::Failed(RuntimeError::MissingReturn);
                }
            }
            let q = self.quads[self.ip];
            let op = q.operation;
            if op == OpCode::ASSIGN {
                if q.arg1 == -1 && (q.arg2 == 0 || q.arg2 == 1) {
                    match self.set_value(q.result, Value::Bool(q.arg2 == 1)) {
                        Ok(SetOutcome::Done) => {
                            self.ip = self.ip + 1;
                            proof {
                                assert(step(pre) == (abs(*self), StepResult::KeepGoing));
                            }
                        },
                        Ok(SetOutcome::NeedConvert(_)) => {
                            return RunOutcome::Failed(RuntimeError::TypeMismatch(q.result));
                        },
                        Err(e) => {
                            return RunOutcome::Failed(e);
                        },
                    }
                } else {
                    let v = match self.get_value(q.arg1) {
                        Ok(v) => v,
                        Err(e) => {
                            return RunOutcome::Failed(e);
                        },
                    };
                    match self.set_value(q.result, v) {
                        Ok(SetOutcome::Done) => {
                            self.ip = self.ip + 1;
                            proof {
                                assert(step(pre) == (abs(*self), StepResult::KeepGoing));
                            }
                        },
                        Ok(SetOutcome::NeedConvert(x)) => {
                            self.pending = Some(Pending::StoreBits { dest: q.result });
                            proof {
                                assert(abs(*self) =~= (MachineState {
                                    pending: Some(Pending::StoreBits { dest: q.result }),
                                    ..pre
                                }));
                                assert(step(pre) == (
                                    abs(*self),
                                    StepResult::Ask(FloatRequest::Convert { value: x }),
                                ));
                            }
                            return RunOutcome::Paused(FloatRequest::Convert { value: x });
                        },
                        Err(e) => {
                            return RunOutcome::Failed(e);
                        },
                    }
                }
            } else if op == OpCode::ADD || op == OpCode::SUB || op == OpCode::MULT || op
                == OpCode::DIV {
                let v1 = match self.get_value(q.arg1) {
                    Ok(v) => v,
                    Err(e) => {
                        return RunOutcome::Failed(e);
                    },
                };
                let v2 = match self.get_value(q.arg2) {
                    Ok(v) => v,
                    Err(e) => {
                        return RunOutcome::Failed(e);
                    },
                };
                match check_division(op, v2) {
                    Ok(_) => {},
                    Err(e) => {
                        return RunOutcome::Failed(e);
                    },
                }
                // Booleans take part in arithmetic as 0 or 1.
                let n1 = match v1 {
                    Value::Bool(b) => Value::Int(
                        if b {
                            1
                        } else {
                            0
                        },
                    ),
                    other => other,
                };
                let n2 = match v2 {
                    Value::Bool(b) => Value::Int(
                        if b {
                            1
                        } else {
                            0
                        },
                    ),
                    other => other,
                };
                match (n1, n2) {
                    (Value::Int(a), Value::Int(b)) => {
                        let x = match eval_int_arith(op, a, b) {
                            Ok(x) => x,
                            Err(e) => {
                                return RunOutcome::Failed(e);
                            },
                        };
                        match self.set_value(q.result, Value::Int(x)) {
                            Ok(SetOutcome::Done) => {
                                self.ip = self.ip + 1;
                                proof {
                                    assert(step(pre) == (abs(*self), StepResult::KeepGoing));
                                }
                            },
                            Ok(SetOutcome::NeedConvert(y)) => {
                                self.pending = Some(Pending::StoreBits { dest: q.result });
                                proof {
                                    assert(abs(*self) =~= (MachineState {
                                        pending: Some(Pending::StoreBits { dest: q.result }),
                                        ..pre
                                    }));
                                    assert(step(pre) == (
                                        abs(*self),
                                        StepResult::Ask(FloatRequest::Convert { value: y }),
                                    ));
                                }
                                return RunOutcome::Paused(FloatRequest::Convert { value: y });
                            },
                            Err(e) => {
                                return RunOutcome::Failed(e);
                            },
                        }
                    },
                    (left, right) => {
                        self.pending = Some(Pending::StoreBits { dest: q.result });
                        proof {
                            assert(abs(*self) =~= (MachineState {
                                pending: Some(Pending::StoreBits { dest: q.result }),
                                ..pre
                            }));
                            assert(step(pre) == (
                                abs(*self),
                                StepResult::Ask(FloatRequest::Arith { op, left, right }),
                            ));
                        }
                        return RunOutcome::Paused(FloatRequest::Arith { op, left, right });
                    },
                }
            } else if op == OpCode::GT || op == OpCode::LT || op == OpCode::EQ || op
                == OpCode::NEQ {
                let v1 = match self.get_value(q.arg1) {
                    Ok(v) => v,
                    Err(e) => {
                        return RunOutcome::Failed(e);
                    },
                };
                let v2 = match self.get_value(q.arg2) {
                    Ok(v) => v,
                    Err(e) => {
                        return RunOutcome::Failed(e);
                    },
                };
                // Equality comparisons accept booleans (as 0 or 1);
                // ordering comparisons on booleans are invalid.
                let bool_involved = match (v1, v2) {
                    (Value::Bool(_), _) => true,
                    (_, Value::Bool(_)) => true,
                    _ => false,
                };
                if bool_involved && !(op == OpCode::EQ || op == OpCode::NEQ) {
                    return RunOutcome::Failed(RuntimeError::InvalidComparison(op));
                }
                let n1 = match v1 {
                    Value::Bool(b) => Value::Int(
                        if b {
                            1
                        } else {
                            0
                        },
                    ),
                    other => other,
                };
                let n2 = match v2 {
                    Value::Bool(b) => Value::Int(
                        if b {
                            1
                        } else {
                            0
                        },
                    ),
                    other => other,
                };
                match (n1, n2) {
                    (Value::Int(a), Value::Int(b)) => {
                        let c = eval_int_cmp(op, a, b);
                        match self.set_value(q.result, Value::Bool(c)) {
                            Ok(SetOutcome::Done) => {
                                self.ip = self.ip + 1;
                                proof {
                                    assert(step(pre) == (abs(*self), StepResult::KeepGoing));
                                }
                            },
                            Ok(SetOutcome::NeedConvert(_)) => {
                                return RunOutcome::Failed(RuntimeError::TypeMismatch(q.result));
                            },
                            Err(e) => {
                                return RunOutcome::Failed(e);
                            },
                        }
                    },
                    (left, right) => {
                        self.pending = Some(Pending::StoreCmp { dest: q.result });
                        proof {
                            assert(abs(*self) =~= (MachineState {
                                pending: Some(Pending::StoreCmp { dest: q.result }),
                                ..pre
                            }));
                            assert(step(pre) == (
                                abs(*self),
                                StepResult::Ask(FloatRequest::Cmp { op, left, right }),
                            ));
                        }
                        return RunOutcome::Paused(FloatRequest::Cmp { op, left, right });
                    },
                }
            } else if op == OpCode::PRINT {
                let v = match self.get_value(q.arg1) {
                    Ok(v) => v,
                    Err(e) => {
                        return RunOutcome::Failed(e);
                    },
                };
                let item = match v {
                    Value::Int(i) => PrintItem::Int(i),
                    Value::Float(bits) => PrintItem::Float(bits),
                    Value::Bool(b) => PrintItem::Bool(b),
                };
                self.outputs.push(item);
                self.ip = self.ip + 1;
                proof {
                    assert(abs(*self) =~= (MachineState {
                        outputs: pre.outputs.push(print_item_of(read_of(pre, q.arg1).unwrap())),
                        ip: pre.ip + 1,
                        ..pre
                    }));
                    assert(step(pre) == (abs(*self), StepResult::KeepGoing));
                }
            } else if op == OpCode::GOTO {
                if q.result < 0 || q.result as usize >= self.quads.len() {
                    return RunOutcome::Failed(RuntimeError::InvalidJump(q.result));
                }
                self.ip = q.result as usize;
                proof {
                    assert(abs(*self) =~= (MachineState { ip: q.result as int, ..pre }));
                    assert(step(pre) == (abs(*self), StepResult::KeepGoing));
                }
            } else if op == OpCode::GOTOF {
                let cond = match self.get_value(q.arg1) {
                    Ok(v) => v,
                    Err(e) => {
                        return RunOutcome::Failed(e);
                    },
                };
                let is_false = match cond {
                    Value::Bool(b) => !b,
                    Value::Int(i) => i == 0,
                    Value::Float(_) => {
                        return RunOutcome::Failed(RuntimeError::TypeMismatch(q.arg1));
                    },
                };
                if is_false {
                    if q.result < 0 || q.result as usize >= self.quads.len() {
                        return RunOutcome::Failed(RuntimeError::InvalidJump(q.result));
                    }
                    self.ip = q.result as usize;
                    proof {
                        assert(abs(*self) =~= (MachineState { ip: q.result as int, ..pre }));
                        assert(step(pre) == (abs(*self), StepResult::KeepGoing));
                    }
                } else {
                    self.ip = self.ip + 1;
                    proof {
                        assert(abs(*self) =~= (MachineState { ip: pre.ip + 1, ..pre }));
                        assert(step(pre) == (abs(*self), StepResult::KeepGoing));
                    }
                }
            } else if op == OpCode::ERA {
                match self.find_function(q.arg1) {
                    Some(_) => {
                        self.staged_params = Vec::new();
                        self.ip = self.ip + 1;
                        proof {
                            assert(abs(*self).staged_params =~= Seq::<Value>::empty());
                            assert(abs(*self) =~= (MachineState {
                                staged_params: Seq::empty(),
                                ip: pre.ip + 1,
                                ..pre
                            }));
                            assert(step(pre) == (abs(*self), StepResult::KeepGoing));
                        }
                    },
                    None => {
                        return RunOutcome::Failed(RuntimeError::UnknownFunction(q.arg1));
                    },
                }
            } else if op == OpCode::PARAM {
                let val = match self.get_value(q.arg1) {
                    Ok(v) => v,
                    Err(e) => {
                        return RunOutcome::Failed(e);
                    },
                };
                if q.result < 0 || q.result > 65535 {
                    return RunOutcome::Failed(RuntimeError::InvalidParamIndex(q.result));
                }
                let k = q.result as usize;
                let ghost pre_vm = *self;
                let ghost sp0 = self.staged_params@;
                while self.staged_params.len() <= k
                    invariant
                        k <= 65535,
                        *self == (VM { staged_params: self.staged_params, ..pre_vm }),
                        sp0 == pre_vm.staged_params@,
                        self.staged_params@.len() >= sp0.len(),
                        self.staged_params@.len() <= k + 1 || self.staged_params@.len()
                            == sp0.len(),
                        self.staged_params@ == staged_padded(
                            sp0,
                            self.staged_params@.len() - sp0.len(),
                        ),
                    decreases k + 1 - self.staged_params@.len(),
                {
                    self.staged_params.push(Value::Int(-999));
                }
                self.staged_params.set(k, val);
                self.ip = self.ip + 1;
                proof {
                    assert(abs(*self).staged_params == staged_after(sp0, k as int, val)) by {
                        if k < sp0.len() {
                            assert(staged_padded(sp0, k + 1 - sp0.len() as int) == sp0);
                        }
                    }
                    assert(abs(*self) =~= (MachineState {
                        staged_params: staged_after(pre.staged_params, q.result as int, val),
                        ip: pre.ip + 1,
                        ..pre
                    }));
                    assert(step(pre) == (abs(*self), StepResult::KeepGoing));
                }
            } else if op == OpCode::GOSUB {
                match self.gosub_progress(q.arg1, 0) {
                    StepOutcome::Ready => {
                        proof {
                            lemma_gosub_copy_shape(pre, q.arg1, 0);
                            assert(step(pre) == (abs(*self), StepResult::KeepGoing));
                        }
                    },
                    StepOutcome::Paused(req) => {
                        proof {
                            lemma_gosub_copy_shape(pre, q.arg1, 0);
                            assert(step(pre) == (abs(*self), StepResult::Ask(req)));
                        }
                        return RunOutcome::Paused(req);
                    },
                    StepOutcome::Failed(e) => {
                        proof {
                            lemma_gosub_copy_shape(pre, q.arg1, 0);
                            assert(step(pre) == (abs(*self), StepResult::Abort(e)));
                        }
                        return RunOutcome::Failed(e);
                    },
                }
            } else if op == OpCode::ENDFUNC {
                match self.call_stack.pop() {
                    Some(ret) => {
                        if ret >= self.quads.len() {
                            proof {
                                assert(abs(*self) =~= (MachineState {
                                    call_stack: pre.call_stack.drop_last(),
                                    ..pre
                                }));
                                assert(step(pre) == (
                                    abs(*self),
                                    StepResult::Abort(RuntimeError::InvalidReturn),
                                ));
                            }
                            return RunOutcome::Failed(RuntimeError::InvalidReturn);
                        }
                        self.ip = ret;
                        proof {
                            assert(abs(*self) =~= (MachineState {
                                call_stack: pre.call_stack.drop_last(),
                                ip: ret as int,
                                ..pre
                            }));
                            assert(step(pre) == (abs(*self), StepResult::KeepGoing));
                        }
                    },
                    None => {
                        // Reaching a return with no caller terminates the
                        // program normally.
                        proof {
                            assert(abs(*self) =~= pre);
                        }
                        return RunOutcome::Finished;
                    },
                }
            } else if op == OpCode::HALT {
                proof {
                    assert(step(pre) == (pre, StepResult::Done));
                }
                return RunOutcome::Finished;
            } else {
                return RunOutcome::Failed(RuntimeError::UnknownOpcode(op));
            }
            proof {
                assert(run_steps(pre, m) == run_steps(abs(*self), (m - 1) as nat));
            }
            steps = steps + 1;
        }
        proof {
            assert(run_steps(abs(*self), 0) == (abs(*self), RunOutcome::OutOfFuel));
        }
        RunOutcome::OutOfFuel
    }
}

} // verus!

//! The quadruple generator: walks the syntax tree and drives an
//! operator-precedence evaluation over four parallel stacks (operands,
//! types, operators, pending jumps), emitting quadruples into an ordered,
//! append-only log, backpatching jump targets, and emitting the fixed
//! procedure-call protocol.

use vstd::prelude::*;
use crate::ast::{
    Type, Operator, Expression, Statement, Assignment, Condition, Cycle, FunctionCall,
    FunctionDeclaration, PrintStatement, Program, expr_size, stmt_size, stmts_size,
    lemma_stmt_size_le,
};
use crate::quadruples::{Quadruple, OpCode, MemoryAddresses, i32_string};
use crate::function_directory::{
    FunctionDirectory, FunctionInfo, dir_wf, resolve_var, find_by_name, has_name,
    valid_assignment, position_of_name, str_eq,
};

verus! {

/// Upper bound on the instruction log: indices must fit the `i32` jump
/// fields of a quadruple.
pub const MAX_QUADS: usize = 0x1000_0000;

/// Capacity of the integer constant pool (its address segment).
pub const CTE_INT_CAP: usize = 500;

/// Capacity of the float constant pool (its address segment).
pub const CTE_FLOAT_CAP: usize = 300;

/// Capacity of the string-literal table (its address segment).
pub const STR_LIT_CAP: usize = 1000;

/// The result type of a binary operation, or nothing when the combination
/// is invalid: same-type arithmetic keeps the type, mixed `Int`/`Float`
/// arithmetic promotes to `Float`, comparisons of numeric pairs give
/// `Bool`, and equality comparisons also accept `Bool` pairs.
pub open spec fn semantics_of(left: Type, right: Type, op: Operator) -> Option<Type> {
    match op {
        Operator::Plus | Operator::Minus | Operator::Multiply | Operator::Divide => {
            match (left, right) {
                (Type::Int, Type::Int) => Some(Type::Int),
                (Type::Float, Type::Float) => Some(Type::Float),
                (Type::Int, Type::Float) => Some(Type::Float),
                (Type::Float, Type::Int) => Some(Type::Float),
                _ => None,
            }
        },
        Operator::GreaterThan | Operator::LessThan => {
            match (left, right) {
                (Type::Int, Type::Int) => Some(Type::Bool),
                (Type::Float, Type::Float) => Some(Type::Bool),
                (Type::Int, Type::Float) => Some(Type::Bool),
                (Type::Float, Type::Int) => Some(Type::Bool),
                _ => None,
            }
        },
        Operator::Equal | Operator::NotEqual => {
            match (left, right) {
                (Type::Int, Type::Int) => Some(Type::Bool),
                (Type::Float, Type::Float) => Some(Type::Bool),
                (Type::Int, Type::Float) => Some(Type::Bool),
                (Type::Float, Type::Int) => Some(Type::Bool),
                (Type::Bool, Type::Bool) => Some(Type::Bool),
                _ => None,
            }
        },
    }
}

/// The display name of a value type.
pub open spec fn type_text(t: Type) -> Seq<char> {
    match t {
        Type::Int => "int"@,
        Type::Float => "float"@,
        Type::Bool => "bool"@,
    }
}

/// The display name of a value type, as a string slice.
pub fn type_str(t: &Type) -> (s: &'static str)
    ensures
        s@ == type_text(*t),
{
    proof {
        reveal_strlit("int");
        reveal_strlit("float");
        reveal_strlit("bool");
    }
    match t {
        Type::Int => "int",
        Type::Float => "float",
        Type::Bool => "bool",
    }
}

/// The operation code of an operator.
pub open spec fn code_of(op: Operator) -> i32 {
    match op {
        Operator::Plus => OpCode::ADD,
        Operator::Minus => OpCode::SUB,
        Operator::Multiply => OpCode::MULT,
        Operator::Divide => OpCode::DIV,
        Operator::GreaterThan => OpCode::GT,
        Operator::LessThan => OpCode::LT,
        Operator::Equal => OpCode::EQ,
        Operator::NotEqual => OpCode::NEQ,
    }
}

/// The type of an expression under a directory and scope, or nothing when
/// some identifier does not resolve or some operation is invalid.
pub open spec fn expr_type(d: FunctionDirectory, scope: Seq<char>, e: Expression) -> Option<Type>
    decreases e,
{
    match e {
        Expression::BinaryOp { left, operator, right } => {
            match (expr_type(d, scope, *left), expr_type(d, scope, *right)) {
                (Some(lt), Some(rt)) => semantics_of(lt, rt, operator),
                _ => None,
            }
        },
        Expression::Identifier(id) => match resolve_var(d, scope, id@) {
            Some(v) => Some(v.var_type),
            None => None,
        },
        Expression::IntegerLiteral(_) => Some(Type::Int),
        Expression::FloatLiteral(_) => Some(Type::Float),
        Expression::BooleanLiteral(_) => Some(Type::Bool),
    }
}

/// An expression is well typed: every identifier resolves and every
/// operation is valid.
pub open spec fn expr_wt(d: FunctionDirectory, scope: Seq<char>, e: Expression) -> bool {
    expr_type(d, scope, e) is Some
}

/// The number of binary operation nodes in an expression.
pub open spec fn expr_ops(e: Expression) -> nat
    decreases e,
{
    match e {
        Expression::BinaryOp { left, right, .. } => 1 + expr_ops(*left) + expr_ops(*right),
        _ => 0,
    }
}

/// The number of boolean literals in an expression; each one costs one
/// initializing quadruple on top of the expression's operators. This is a
/// deliberate design choice: a boolean literal's always-fresh slot is not
/// carried by the object artifact, so the generator plants an
/// `ASSIGN(-1, 0|1, slot)` instruction at the point of use and the slot is
/// defined before it is read. An expression consisting of boolean
/// literals therefore emits one instruction per literal beyond its
/// operator count; for straight-line arithmetic (no boolean literals) the
/// emitted count is exactly the operator count.
pub open spec fn expr_bool_lits(e: Expression) -> nat
    decreases e,
{
    match e {
        Expression::BinaryOp { left, right, .. } => expr_bool_lits(*left) + expr_bool_lits(*right),
        Expression::BooleanLiteral(_) => 1,
        _ => 0,
    }
}

/// Quadruples a well-typed expression emits: one per binary operation plus
/// one per boolean literal.
pub open spec fn expr_cost(e: Expression) -> nat {
    expr_ops(e) + expr_bool_lits(e)
}

/// The expression cost never exceeds the expression size.
pub proof fn lemma_expr_cost_le_size(e: Expression)
    ensures
        expr_cost(e) <= expr_size(e),
        expr_ops(e) <= expr_size(e),
        expr_bool_lits(e) <= expr_size(e),
    decreases e,
{
    match e {
        Expression::BinaryOp { left, right, .. } => {
            lemma_expr_cost_le_size(*left);
            lemma_expr_cost_le_size(*right);
        },
        _ => {},
    }
}

/// Handles the generation of quadruples for intermediate code: the four
/// parallel stacks, the instruction log, the constant pools, the scope
/// stack, and the directory that resolves names to addresses. Diagnostics
/// are recorded rather than printed; a compilation with recorded
/// diagnostics is failed even though a best-effort instruction log exists.
pub struct QuadrupleGenerator {
    pub p_oper: Vec<i32>,
    pub pila_o: Vec<i32>,
    pub p_types: Vec<Type>,
    pub p_jumps: Vec<usize>,
    pub quad_queue: Vec<Quadruple>,
    pub temp_int_counter: i32,
    pub temp_float_counter: i32,
    pub temp_bool_counter: i32,
    pub int_constants: Vec<i32>,
    pub float_constants: Vec<u64>,
    pub bool_constants: Vec<bool>,
    pub string_literals: Vec<String>,
    pub scope_stack: Vec<String>,
    pub function_directory: Option<FunctionDirectory>,
    pub errors: Vec<String>,
}

/// The scope names resolve in: the top of the scope stack.
pub open spec fn cur_scope(g: QuadrupleGenerator) -> Seq<char> {
    if g.scope_stack@.len() > 0 {
        g.scope_stack@.last()@
    } else {
        "unknown_scope"@
    }
}

/// No two pool entries hold the same value: each distinct literal has
/// exactly one slot.
pub open spec fn pool_dedup<T>(pool: Seq<T>) -> bool {
    forall|i: int, j: int| 0 <= i < j < pool.len() ==> pool[i] != pool[j]
}

/// Well-formedness of the generator: parallel stacks aligned, temporary
/// counters inside their segments, pools deduplicated and inside their
/// segments, the instruction log short enough for `i32` jump targets, a
/// scope always active, and a well-formed directory when one is set.
pub open spec fn gen_wf(g: QuadrupleGenerator) -> bool {
    &&& g.pila_o@.len() == g.p_types@.len()
    &&& MemoryAddresses::TEMP_INT_START <= g.temp_int_counter
        <= MemoryAddresses::TEMP_FLOAT_START
    &&& MemoryAddresses::TEMP_FLOAT_START <= g.temp_float_counter
        <= MemoryAddresses::TEMP_BOOL_START
    &&& MemoryAddresses::TEMP_BOOL_START <= g.temp_bool_counter <= MemoryAddresses::TEMP_BOOL_END
    &&& g.int_constants@.len() <= CTE_INT_CAP
    &&& g.float_constants@.len() <= CTE_FLOAT_CAP
    &&& g.string_literals@.len() <= STR_LIT_CAP
    &&& g.bool_constants@.len() <= g.temp_bool_counter - MemoryAddresses::TEMP_BOOL_START
    &&& pool_dedup(g.int_constants@)
    &&& pool_dedup(g.float_constants@)
    &&& g.quad_queue@.len() <= MAX_QUADS
    &&& g.scope_stack@.len() >= 1
    &&& match g.function_directory {
        Some(d) => dir_wf(d),
        None => true,
    }
}

/// Constant deduplication: in a well-formed generator no two slots of one
/// pool hold the same value, and since a slot's address is its base plus
/// its index, two occurrences of one literal always resolve to the same
/// address while distinct values never share one.
pub proof fn lemma_constant_dedup(g: QuadrupleGenerator, i: int, j: int)
    requires
        gen_wf(g),
        0 <= i < g.int_constants@.len(),
        0 <= j < g.int_constants@.len(),
        i != j,
    ensures
        g.int_constants@[i] != g.int_constants@[j],
        MemoryAddresses::CTE_INT_START + i != MemoryAddresses::CTE_INT_START + j,
{
    if i < j {
        assert(g.int_constants@[i] != g.int_constants@[j]);
    } else {
        assert(g.int_constants@[j] != g.int_constants@[i]);
    }
}

/// Index of the first pool slot holding the value, or -1.
pub open spec fn pool_index_of<T>(pool: Seq<T>, v: T) -> int
    decreases pool.len(),
{
    if pool.len() == 0 {
        -1
    } else if pool[0] == v {
        0
    } else {
        let r = pool_index_of(pool.drop_first(), v);
        if r == -1 {
            -1
        } else {
            r + 1
        }
    }
}

/// The first-index search is sound: a hit is in range and holds the value.
pub proof fn lemma_pool_index_of<T>(pool: Seq<T>, v: T)
    ensures
        pool_index_of(pool, v) == -1 ==> forall|k: int| 0 <= k < pool.len() ==> pool[k] != v,
        pool_index_of(pool, v) != -1 ==> 0 <= pool_index_of(pool, v) < pool.len() && pool[
            pool_index_of(pool, v)
        ] == v,
    decreases pool.len(),
{
    if pool.len() > 0 {
        lemma_pool_index_of(pool.drop_first(), v);
        if pool[0] != v {
            assert forall|k: int| 0 <= k < pool.len() && pool_index_of(pool, v) == -1 implies pool[k]
                != v by {
                if k > 0 {
                    assert(pool.drop_first()[k - 1] == pool[k]);
                }
            }
        }
    }
}

impl QuadrupleGenerator {
    /// A fresh generator: empty stacks and pools, temporary counters at
    /// their bases, the `global` scope active, no directory.
    pub fn new() -> (g: QuadrupleGenerator)
        ensures
            gen_wf(g),
            g.quad_queue@.len() == 0,
            g.pila_o@.len() == 0,
            g.p_oper@.len() == 0,
            g.p_jumps@.len() == 0,
            g.function_directory is None,
            g.errors@.len() == 0,
            cur_scope(g) == "global"@,
    {
        let mut scopes: Vec<String> = Vec::new();
        scopes.push(String::from_str("global"));
        QuadrupleGenerator {
            p_oper: Vec::new(),
            pila_o: Vec::new(),
            p_types: Vec::new(),
            p_jumps: Vec::new(),
            quad_queue: Vec::new(),
            temp_int_counter: MemoryAddresses::TEMP_INT_START,
            temp_float_counter: MemoryAddresses::TEMP_FLOAT_START,
            temp_bool_counter: MemoryAddresses::TEMP_BOOL_START,
            int_constants: Vec::new(),
            float_constants: Vec::new(),
            bool_constants: Vec::new(),
            string_literals: Vec::new(),
            scope_stack: scopes,
            function_directory: None,
            errors: Vec::new(),
        }
    }

    /// Installs the directory used for name resolution.
    pub fn set_function_directory(&mut self, directory: FunctionDirectory)
        requires
            dir_wf(directory),
            gen_wf(*old(self)),
        ensures
            gen_wf(*final(self)),
            final(self).function_directory == Some(directory),
            final(self).quad_queue == old(self).quad_queue,
            final(self).pila_o == old(self).pila_o,
            final(self).p_types == old(self).p_types,
            final(self).p_oper == old(self).p_oper,
            final(self).p_jumps == old(self).p_jumps,
            final(self).scope_stack == old(self).scope_stack,
            final(self).errors == old(self).errors,
    {
        self.function_directory = Some(directory);
    }

    /// The scope names currently resolve in: the top of the scope stack.
    pub fn current_scope(&self) -> (s: String)
        ensures
            s@ == cur_scope(*self),
    {
        if self.scope_stack.len() > 0 {
            self.scope_stack[self.scope_stack.len() - 1].clone()
        } else {
            String::from_str("unknown_scope")
        }
    }

    /// Records a diagnostic built at the point of failure, naming what
    /// failed; the compilation is failed once any exists.
    fn log_error_string(&mut self, message: String)
        ensures
            *final(self) == (QuadrupleGenerator { errors: final(self).errors, ..*old(self) }),
            final(self).errors@ == old(self).errors@.push(final(self).errors@.last()),
            final(self).errors@.len() == old(self).errors@.len() + 1,
    {
        self.errors.push(message);
    }

    /// Records a diagnostic; the compilation is failed once any exists.
    fn log_error(&mut self, message: &str)
        ensures
            *final(self) == (QuadrupleGenerator { errors: final(self).errors, ..*old(self) }),
            final(self).errors@ == old(self).errors@.push(final(self).errors@.last()),
            final(self).errors@.len() == old(self).errors@.len() + 1,
    {
        self.errors.push(String::from_str(message));
    }

    /// The slot of an integer literal: the existing one when the value is
    /// already pooled (first match wins), a fresh one otherwise. When the
    /// pool is full the base address is returned and a diagnostic recorded.
    fn get_or_create_int_constant(&mut self, value: i32) -> (addr: i32)
        requires
            gen_wf(*old(self)),
        ensures
            gen_wf(*final(self)),
            final(self).errors@.len() >= old(self).errors@.len(),
            *final(self) == (QuadrupleGenerator {
                int_constants: final(self).int_constants,
                errors: final(self).errors,
                ..*old(self)
            }),
            ({
                let pool = old(self).int_constants@;
                if pool_index_of(pool, value) != -1 {
                    final(self).int_constants@ == pool && addr == MemoryAddresses::CTE_INT_START
                        + pool_index_of(pool, value) && final(self).errors == old(self).errors
                } else if pool.len() < CTE_INT_CAP {
                    final(self).int_constants@ == pool.push(value) && addr
                        == MemoryAddresses::CTE_INT_START + pool.len() && final(self).errors == old(self).errors
                } else {
                    final(self).int_constants@ == pool && addr == MemoryAddresses::CTE_INT_START
                }
            }),
    {
        let n = self.int_constants.len();
        let mut i: usize = 0;
        while i < n
            invariant
                0 <= i <= n,
                *self == *old(self),
                gen_wf(*self),
                n == self.int_constants@.len(),
                forall|k: int| 0 <= k < i ==> self.int_constants@[k] != value,
            decreases n - i,
        {
            if self.int_constants[i] == value {
                proof {
                    lemma_pool_first_index(self.int_constants@, value, i as int);
                }
                return MemoryAddresses::CTE_INT_START + (i as i32);
            }
            i = i + 1;
        }
        proof {
            lemma_pool_index_of(self.int_constants@, value);
            if pool_index_of(self.int_constants@, value) != -1 {
                assert(false);
            }
        }
        if n < CTE_INT_CAP {
            let addr = MemoryAddresses::CTE_INT_START + (n as i32);
            self.int_constants.push(value);
            proof {
                assert forall|a: int, b: int|
                    0 <= a < b < self.int_constants@.len() implies self.int_constants@[a]
                    != self.int_constants@[b] by {
                    if b < self.int_constants@.len() - 1 {
                        assert(self.int_constants@[a] == old(self).int_constants@[a]);
                        assert(self.int_constants@[b] == old(self).int_constants@[b]);
                    } else {
                        assert(self.int_constants@[a] == old(self).int_constants@[a]);
                    }
                }
            }
            addr
        } else {
            self.log_error("integer constant pool exhausted");
            MemoryAddresses::CTE_INT_START
        }
    }

    /// The slot of a float literal (by exact bit pattern), pooled like the
    /// integer constants.
    fn get_or_create_float_constant(&mut self, value: u64) -> (addr: i32)
        requires
            gen_wf(*old(self)),
        ensures
            gen_wf(*final(self)),
            final(self).errors@.len() >= old(self).errors@.len(),
            *final(self) == (QuadrupleGenerator {
                float_constants: final(self).float_constants,
                errors: final(self).errors,
                ..*old(self)
            }),
            ({
                let pool = old(self).float_constants@;
                if pool_index_of(pool, value) != -1 {
                    final(self).float_constants@ == pool && addr == MemoryAddresses::CTE_FLOAT_START
                        + pool_index_of(pool, value) && final(self).errors == old(self).errors
                } else if pool.len() < CTE_FLOAT_CAP {
                    final(self).float_constants@ == pool.push(value) && addr
                        == MemoryAddresses::CTE_FLOAT_START + pool.len() && final(self).errors
                        == old(self).errors
                } else {
                    final(self).float_constants@ == pool && addr == MemoryAddresses::CTE_FLOAT_START
                }
            }),
    {
        let n = self.float_constants.len();
        let mut i: usize = 0;
        while i < n
            invariant
                0 <= i <= n,
                *self == *old(self),
                gen_wf(*self),
                n == self.float_constants@.len(),
                forall|k: int| 0 <= k < i ==> self.float_constants@[k] != value,
            decreases n - i,
        {
            if self.float_constants[i] == value {
                proof {
                    lemma_pool_first_index(self.float_constants@, value, i as int);
                }
                return MemoryAddresses::CTE_FLOAT_START + (i as i32);
            }
            i = i + 1;
        }
        proof {
            lemma_pool_index_of(self.float_constants@, value);
            if pool_index_of(self.float_constants@, value) != -1 {
                assert(false);
            }
        }
        if n < CTE_FLOAT_CAP {
            let addr = MemoryAddresses::CTE_FLOAT_START + (n as i32);
            self.float_constants.push(value);
            proof {
                assert forall|a: int, b: int|
                    0 <= a < b < self.float_constants@.len() implies self.float_constants@[a]
                    != self.float_constants@[b] by {
                    if b < self.float_constants@.len() - 1 {
                        assert(self.float_constants@[a] == old(self).float_constants@[a]);
                        assert(self.float_constants@[b] == old(self).float_constants@[b]);
                    } else {
                        assert(self.float_constants@[a] == old(self).float_constants@[a]);
                    }
                }
            }
            addr
        } else {
            self.log_error("float constant pool exhausted");
            MemoryAddresses::CTE_FLOAT_START
        }
    }

    /// A fresh always-new slot for a boolean literal in the boolean
    /// temporary segment (never deduplicated), remembering its value.
    fn get_or_create_bool_constant(&mut self, value: bool) -> (addr: i32)
        requires
            gen_wf(*old(self)),
        ensures
            gen_wf(*final(self)),
            final(self).errors@.len() >= old(self).errors@.len(),
            *final(self) == (QuadrupleGenerator {
                temp_bool_counter: final(self).temp_bool_counter,
                bool_constants: final(self).bool_constants,
                errors: final(self).errors,
                ..*old(self)
            }),
            old(self).temp_bool_counter < MemoryAddresses::TEMP_BOOL_END ==> {
                &&& addr == old(self).temp_bool_counter
                &&& final(self).temp_bool_counter == old(self).temp_bool_counter + 1
                &&& final(self).errors == old(self).errors
                &&& addr - MemoryAddresses::TEMP_BOOL_START < final(self).bool_constants@.len()
                &&& final(self).bool_constants@[addr - MemoryAddresses::TEMP_BOOL_START] == value
            },
            final(self).temp_bool_counter <= old(self).temp_bool_counter + 1,
            final(self).temp_bool_counter >= old(self).temp_bool_counter,
    {
        if self.temp_bool_counter >= MemoryAddresses::TEMP_BOOL_END {
            self.log_error("boolean temporary segment exhausted");
            return MemoryAddresses::TEMP_BOOL_START;
        }
        let addr = self.temp_bool_counter;
        self.temp_bool_counter = self.temp_bool_counter + 1;
        let index = (addr - MemoryAddresses::TEMP_BOOL_START) as usize;
        while self.bool_constants.len() <= index
            invariant
                gen_wf(*self),
                index < self.temp_bool_counter - MemoryAddresses::TEMP_BOOL_START,
                *self == (QuadrupleGenerator {
                    bool_constants: self.bool_constants,
                    temp_bool_counter: self.temp_bool_counter,
                    ..*old(self)
                }),
                self.temp_bool_counter == old(self).temp_bool_counter + 1,
            decreases index + 1 - self.bool_constants@.len(),
        {
            self.bool_constants.push(false);
        }
        let cur = self.bool_constants.len();
        if index < cur {
            self.bool_constants.set(index, value);
        }
        addr
    }

    /// A fresh temporary address of the given type; never reused. When a
    /// temporary segment is exhausted its base is returned and a
    /// diagnostic recorded.
    fn new_temp(&mut self, typ: Type) -> (addr: i32)
        requires
            gen_wf(*old(self)),
        ensures
            gen_wf(*final(self)),
            final(self).errors@.len() >= old(self).errors@.len(),
            *final(self) == (QuadrupleGenerator {
                temp_int_counter: final(self).temp_int_counter,
                temp_float_counter: final(self).temp_float_counter,
                temp_bool_counter: final(self).temp_bool_counter,
                errors: final(self).errors,
                ..*old(self)
            }),
            final(self).temp_int_counter - old(self).temp_int_counter + (
            final(self).temp_float_counter - old(self).temp_float_counter) + (
            final(self).temp_bool_counter - old(self).temp_bool_counter) <= 1,
            final(self).temp_int_counter >= old(self).temp_int_counter,
            final(self).temp_float_counter >= old(self).temp_float_counter,
            final(self).temp_bool_counter >= old(self).temp_bool_counter,
            typ != Type::Int ==> final(self).temp_int_counter == old(self).temp_int_counter,
            typ != Type::Float ==> final(self).temp_float_counter == old(self).temp_float_counter,
            typ != Type::Bool ==> final(self).temp_bool_counter == old(self).temp_bool_counter,
            temp_counter_of(*old(self), typ) < (match typ {
                Type::Int => MemoryAddresses::TEMP_FLOAT_START as i32,
                Type::Float => MemoryAddresses::TEMP_BOOL_START as i32,
                Type::Bool => MemoryAddresses::TEMP_BOOL_END as i32,
            }) ==> {
                &&& addr == temp_counter_of(*old(self), typ)
                &&& temp_counter_of(*final(self), typ) == addr + 1
                &&& final(self).errors == old(self).errors
            },
            temp_room(*old(self), 1) ==> final(self).errors == old(self).errors,
    {
        match typ {
            Type::Int => {
                if self.temp_int_counter >= MemoryAddresses::TEMP_FLOAT_START {
                    self.log_error("integer temporary segment exhausted");
                    return MemoryAddresses::TEMP_INT_START;
                }
                let t = self.temp_int_counter;
                self.temp_int_counter = self.temp_int_counter + 1;
                t
            },
            Type::Float => {
                if self.temp_float_counter >= MemoryAddresses::TEMP_BOOL_START {
                    self.log_error("float temporary segment exhausted");
                    return MemoryAddresses::TEMP_FLOAT_START;
                }
                let t = self.temp_float_counter;
                self.temp_float_counter = self.temp_float_counter + 1;
                t
            },
            Type::Bool => {
                if self.temp_bool_counter >= MemoryAddresses::TEMP_BOOL_END {
                    self.log_error("boolean temporary segment exhausted");
                    return MemoryAddresses::TEMP_BOOL_START;
                }
                let t = self.temp_bool_counter;
                self.temp_bool_counter = self.temp_bool_counter + 1;
                t
            },
        }
    }

    /// The next available temporary of the type.
    fn avail_next(&mut self, typ: Type) -> (addr: i32)
        requires
            gen_wf(*old(self)),
        ensures
            gen_wf(*final(self)),
            final(self).errors@.len() >= old(self).errors@.len(),
            *final(self) == (QuadrupleGenerator {
                temp_int_counter: final(self).temp_int_counter,
                temp_float_counter: final(self).temp_float_counter,
                temp_bool_counter: final(self).temp_bool_counter,
                errors: final(self).errors,
                ..*old(self)
            }),
            final(self).temp_int_counter - old(self).temp_int_counter + (
            final(self).temp_float_counter - old(self).temp_float_counter) + (
            final(self).temp_bool_counter - old(self).temp_bool_counter) <= 1,
            final(self).temp_int_counter >= old(self).temp_int_counter,
            final(self).temp_float_counter >= old(self).temp_float_counter,
            final(self).temp_bool_counter >= old(self).temp_bool_counter,
            typ != Type::Int ==> final(self).temp_int_counter == old(self).temp_int_counter,
            typ != Type::Float ==> final(self).temp_float_counter == old(self).temp_float_counter,
            typ != Type::Bool ==> final(self).temp_bool_counter == old(self).temp_bool_counter,
            temp_counter_of(*old(self), typ) < (match typ {
                Type::Int => MemoryAddresses::TEMP_FLOAT_START as i32,
                Type::Float => MemoryAddresses::TEMP_BOOL_START as i32,
                Type::Bool => MemoryAddresses::TEMP_BOOL_END as i32,
            }) ==> {
                &&& addr == temp_counter_of(*old(self), typ)
                &&& temp_counter_of(*final(self), typ) == addr + 1
                &&& final(self).errors == old(self).errors
            },
            temp_room(*old(self), 1) ==> final(self).errors == old(self).errors,
    {
        self.new_temp(typ)
    }

    /// The resulting type of an operation between two types, or an error
    /// naming the two types and the operator.
    pub fn semantics(&self, left_type: &Type, right_type: &Type, operator: &Operator) -> (r: Result<
        Type,
        String,
    >)
        ensures
            match r {
                Ok(t) => semantics_of(*left_type, *right_type, *operator) == Some(t),
                Err(msg) => semantics_of(*left_type, *right_type, *operator) is None && msg@
                    == "type mismatch: "@ + type_text(*left_type) + " "@ + crate::quadruples::op_name(
                    code_of(*operator),
                ) + " "@ + type_text(*right_type),
            },
    {
        let ok = match (left_type, right_type, operator) {
            (Type::Int, Type::Int, _) => true,
            (Type::Float, Type::Float, _) => true,
            (Type::Int, Type::Float, _) => true,
            (Type::Float, Type::Int, _) => true,
            (Type::Bool, Type::Bool, Operator::Equal) => true,
            (Type::Bool, Type::Bool, Operator::NotEqual) => true,
            _ => false,
        };
        if !ok {
            let mut msg = String::from_str("type mismatch: ");
            msg.append(type_str(left_type));
            msg.append(" ");
            msg.append(crate::quadruples::op_str_of(self.operator_to_code(operator)));
            msg.append(" ");
            msg.append(type_str(right_type));
            proof {
                reveal_strlit(" ");
            }
            return Err(msg);
        }
        let comparison = match operator {
            Operator::GreaterThan | Operator::LessThan | Operator::Equal | Operator::NotEqual => {
                true
            },
            _ => false,
        };
        if comparison {
            Ok(Type::Bool)
        } else {
            match (left_type, right_type) {
                (Type::Int, Type::Int) => Ok(Type::Int),
                _ => Ok(Type::Float),
            }
        }
    }

    /// Convert an operator to its operation code.
    fn operator_to_code(&self, op: &Operator) -> (c: i32)
        ensures
            c == code_of(*op),
    {
        match op {
            Operator::Plus => OpCode::ADD,
            Operator::Minus => OpCode::SUB,
            Operator::Multiply => OpCode::MULT,
            Operator::Divide => OpCode::DIV,
            Operator::GreaterThan => OpCode::GT,
            Operator::LessThan => OpCode::LT,
            Operator::Equal => OpCode::EQ,
            Operator::NotEqual => OpCode::NEQ,
        }
    }

    /// Convert an operation code back to its operator; arithmetic and
    /// comparison codes only.
    fn code_to_operator(&self, code: i32) -> (op: Operator)
        requires
            code == OpCode::ADD || code == OpCode::SUB || code == OpCode::MULT || code
                == OpCode::DIV || code == OpCode::GT || code == OpCode::LT || code == OpCode::EQ
                || code == OpCode::NEQ,
        ensures
            code_of(op) == code,
    {
        if code == OpCode::ADD {
            Operator::Plus
        } else if code == OpCode::SUB {
            Operator::Minus
        } else if code == OpCode::MULT {
            Operator::Multiply
        } else if code == OpCode::DIV {
            Operator::Divide
        } else if code == OpCode::GT {
            Operator::GreaterThan
        } else if code == OpCode::LT {
            Operator::LessThan
        } else if code == OpCode::EQ {
            Operator::Equal
        } else {
            Operator::NotEqual
        }
    }

    /// Appends one quadruple to the instruction log; when the log is at
    /// its limit the quadruple is dropped and a diagnostic recorded.
    fn emit(&mut self, q: Quadruple)
        ensures
            final(self).errors@.len() >= old(self).errors@.len(),
            *final(self) == (QuadrupleGenerator {
                quad_queue: final(self).quad_queue,
                errors: final(self).errors,
                ..*old(self)
            }),
            old(self).quad_queue@.len() < MAX_QUADS ==> final(self).quad_queue@ == old(self).quad_queue@.push(q) && final(self).errors == old(self).errors,
            old(self).quad_queue@.len() >= MAX_QUADS ==> final(self).quad_queue@ == old(self).quad_queue@,
            final(self).quad_queue@.len() <= old(self).quad_queue@.len() + 1,
            old(self).quad_queue@.len() <= MAX_QUADS ==> final(self).quad_queue@.len()
                <= MAX_QUADS,
    {
        if self.quad_queue.len() < MAX_QUADS {
            self.quad_queue.push(q);
        } else {
            self.log_error("instruction log full");
        }
    }

    /// Pushes an identifier's address and type onto the operand and type
    /// stacks; an unresolved name gets a placeholder integer temporary and
    /// a recorded diagnostic so evaluation can continue.
    fn action_push_id(&mut self, id: &str) -> (r: Result<i32, String>)
        requires
            gen_wf(*old(self)),
            old(self).function_directory is Some,
        ensures
            gen_wf(*final(self)),
            final(self).errors@.len() >= old(self).errors@.len(),
            *final(self) == (QuadrupleGenerator {
                pila_o: final(self).pila_o,
                p_types: final(self).p_types,
                temp_int_counter: final(self).temp_int_counter,
                errors: final(self).errors,
                ..*old(self)
            }),
            final(self).pila_o@ == old(self).pila_o@.push(final(self).pila_o@.last()),
            final(self).p_types@ == old(self).p_types@.push(final(self).p_types@.last()),
            final(self).temp_int_counter <= old(self).temp_int_counter + 1,
            final(self).temp_int_counter >= old(self).temp_int_counter,
            match resolve_var(old(self).function_directory.unwrap(), cur_scope(*old(self)), id@) {
                Some(v) => final(self).pila_o@.last() == v.address && final(self).p_types@.last()
                    == v.var_type && final(self).errors == old(self).errors && final(self).temp_int_counter == old(self).temp_int_counter && r is Ok,
                None => final(self).p_types@.last() == Type::Int && r is Err,
            },
    {
        let addr_opt = self.get_address(id);
        let type_opt = self.get_type(id);
        match (addr_opt, type_opt) {
            (Some(addr), Some(t)) => {
                self.pila_o.push(addr);
                self.p_types.push(t);
                Ok(addr)
            },
            _ => {
                let mut msg = String::from_str("identifier not found in current or global scope: ");
                msg.append(id);
                self.log_error_string(msg);
                let t = self.new_temp(Type::Int);
                self.pila_o.push(t);
                self.p_types.push(Type::Int);
                Err(String::from_str("identifier not found"))
            },
        }
    }

    /// Pushes an integer literal: its pooled slot address and the given
    /// type.
    fn action_push_constant(&mut self, value: i32, typ: Type) -> (addr: i32)
        requires
            gen_wf(*old(self)),
        ensures
            gen_wf(*final(self)),
            final(self).errors@.len() >= old(self).errors@.len(),
            *final(self) == (QuadrupleGenerator {
                pila_o: final(self).pila_o,
                p_types: final(self).p_types,
                int_constants: final(self).int_constants,
                errors: final(self).errors,
                ..*old(self)
            }),
            final(self).pila_o@ == old(self).pila_o@.push(addr),
            final(self).p_types@ == old(self).p_types@.push(typ),
            old(self).int_constants@.len() <= final(self).int_constants@.len() <= old(self).int_constants@.len() + 1,
            old(self).int_constants@.len() < CTE_INT_CAP ==> final(self).errors == old(self).errors,
            ({
                let pool = old(self).int_constants@;
                if pool_index_of(pool, value) != -1 {
                    final(self).int_constants@ == pool && addr == MemoryAddresses::CTE_INT_START
                        + pool_index_of(pool, value)
                } else if pool.len() < CTE_INT_CAP {
                    final(self).int_constants@ == pool.push(value) && addr
                        == MemoryAddresses::CTE_INT_START + pool.len()
                } else {
                    final(self).int_constants@ == pool
                }
            }),
    {
        let addr = self.get_or_create_int_constant(value);
        self.pila_o.push(addr);
        self.p_types.push(typ);
        addr
    }

    /// Pushes a float literal: its pooled slot address and the `Float`
    /// type.
    fn action_push_float_constant(&mut self, value: u64) -> (addr: i32)
        requires
            gen_wf(*old(self)),
        ensures
            gen_wf(*final(self)),
            final(self).errors@.len() >= old(self).errors@.len(),
            *final(self) == (QuadrupleGenerator {
                pila_o: final(self).pila_o,
                p_types: final(self).p_types,
                float_constants: final(self).float_constants,
                errors: final(self).errors,
                ..*old(self)
            }),
            final(self).pila_o@ == old(self).pila_o@.push(addr),
            final(self).p_types@ == old(self).p_types@.push(Type::Float),
            old(self).float_constants@.len() <= final(self).float_constants@.len() <= old(self).float_constants@.len() + 1,
            old(self).float_constants@.len() < CTE_FLOAT_CAP ==> final(self).errors == old(self).errors,
            ({
                let pool = old(self).float_constants@;
                if pool_index_of(pool, value) != -1 {
                    final(self).float_constants@ == pool && addr
                        == MemoryAddresses::CTE_FLOAT_START + pool_index_of(pool, value)
                } else if pool.len() < CTE_FLOAT_CAP {
                    final(self).float_constants@ == pool.push(value) && addr
                        == MemoryAddresses::CTE_FLOAT_START + pool.len()
                } else {
                    final(self).float_constants@ == pool
                }
            }),
    {
        let addr = self.get_or_create_float_constant(value);
        self.pila_o.push(addr);
        self.p_types.push(Type::Float);
        addr
    }

    /// Pushes a boolean literal: a fresh boolean temporary slot, plus one
    /// quadruple that writes the literal's value into it so the slot is
    /// initialized at run time.
    fn action_push_bool_constant(&mut self, value: bool) -> (addr: i32)
        requires
            gen_wf(*old(self)),
        ensures
            gen_wf(*final(self)),
            final(self).errors@.len() >= old(self).errors@.len(),
            *final(self) == (QuadrupleGenerator {
                pila_o: final(self).pila_o,
                p_types: final(self).p_types,
                temp_bool_counter: final(self).temp_bool_counter,
                bool_constants: final(self).bool_constants,
                quad_queue: final(self).quad_queue,
                errors: final(self).errors,
                ..*old(self)
            }),
            final(self).pila_o@ == old(self).pila_o@.push(addr),
            final(self).p_types@ == old(self).p_types@.push(Type::Bool),
            old(self).quad_queue@.len() <= final(self).quad_queue@.len() <= old(self).quad_queue@.len() + 1,
            final(self).quad_queue@.subrange(0, old(self).quad_queue@.len() as int) == old(self).quad_queue@,
            old(self).temp_bool_counter <= final(self).temp_bool_counter <= old(self).temp_bool_counter + 1,
            (old(self).temp_bool_counter < MemoryAddresses::TEMP_BOOL_END && old(self).quad_queue@.len() < MAX_QUADS) ==> {
                &&& addr == old(self).temp_bool_counter
                &&& final(self).temp_bool_counter == old(self).temp_bool_counter + 1
                &&& final(self).quad_queue@ == old(self).quad_queue@.push(
                    (Quadruple {
                        operation: OpCode::ASSIGN,
                        arg1: -1i32,
                        arg2: if value {
                            1i32
                        } else {
                            0i32
                        },
                        result: addr,
                    }),
                )
                &&& final(self).errors == old(self).errors
            },
    {
        let addr = self.get_or_create_bool_constant(value);
        self.emit(Quadruple::new(OpCode::ASSIGN, -1, if value { 1 } else { 0 }, addr));
        self.pila_o.push(addr);
        self.p_types.push(Type::Bool);
        proof {
            assert(self.quad_queue@.subrange(0, old(self).quad_queue@.len() as int) =~= old(self).quad_queue@);
        }
        addr
    }

    /// Pushes a `*` or `/` operation code onto the operator stack.
    fn action_push_mult_div_oper(&mut self, op: Operator)
        ensures
            *final(self) == (QuadrupleGenerator { p_oper: final(self).p_oper, ..*old(self) }),
            final(self).p_oper@ == old(self).p_oper@.push(code_of(op)),
    {
        let op_code = self.operator_to_code(&op);
        self.p_oper.push(op_code);
    }

    /// Pushes a `+` or `-` operation code onto the operator stack.
    fn action_push_add_sub_oper(&mut self, op: Operator)
        ensures
            *final(self) == (QuadrupleGenerator { p_oper: final(self).p_oper, ..*old(self) }),
            final(self).p_oper@ == old(self).p_oper@.push(code_of(op)),
    {
        let op_code = self.operator_to_code(&op);
        self.p_oper.push(op_code);
    }

    /// Resolves the topmost pending operation of the selected precedence
    /// tier, if any: pops the operator and its two operand/type pairs,
    /// classifies the result type, allocates a fresh temporary, emits the
    /// quadruple, and pushes the temporary back. A type mismatch records a
    /// diagnostic and pushes a placeholder integer temporary instead.
    fn action_process_operation(&mut self, is_mult_div: bool)
        requires
            gen_wf(*old(self)),
        ensures
            gen_wf(*final(self)),
            final(self).errors@.len() >= old(self).errors@.len(),
            *final(self) == (QuadrupleGenerator {
                p_oper: final(self).p_oper,
                pila_o: final(self).pila_o,
                p_types: final(self).p_types,
                temp_int_counter: final(self).temp_int_counter,
                temp_float_counter: final(self).temp_float_counter,
                temp_bool_counter: final(self).temp_bool_counter,
                quad_queue: final(self).quad_queue,
                errors: final(self).errors,
                ..*old(self)
            }),
            ({
                let acting = old(self).p_oper@.len() > 0 && (if is_mult_div {
                    is_md_code(old(self).p_oper@.last())
                } else {
                    is_as_code(old(self).p_oper@.last())
                });
                if !acting {
                    *final(self) == *old(self)
                } else if old(self).pila_o@.len() >= 2 {
                    let n = old(self).pila_o@.len() as int;
                    let lt = old(self).p_types@[n - 2];
                    let rt = old(self).p_types@[n - 1];
                    let opc = old(self).p_oper@.last();
                    let la = old(self).pila_o@[n - 2];
                    let ra = old(self).pila_o@[n - 1];
                    &&& final(self).p_oper@ == old(self).p_oper@.drop_last()
                    &&& final(self).pila_o@.len() == n - 1
                    &&& final(self).pila_o@.subrange(0, n - 2) == old(self).pila_o@.subrange(
                        0,
                        n - 2,
                    )
                    &&& final(self).p_types@ == old(self).p_types@.subrange(0, n - 2).push(
                        final(self).p_types@.last(),
                    )
                    &&& match semantics_of(lt, rt, op_of_code(opc)) {
                        Some(res_t) => {
                            &&& final(self).p_types@.last() == res_t
                            &&& (temp_room(*old(self), 1) && old(self).quad_queue@.len()
                                < MAX_QUADS) ==> {
                                &&& final(self).pila_o@.last() == temp_counter_of(
                                    *old(self),
                                    res_t,
                                )
                                &&& temp_counter_of(*final(self), res_t) == temp_counter_of(
                                    *old(self),
                                    res_t,
                                ) + 1
                                &&& (forall|t2: Type|
                                    t2 != res_t ==> #[trigger] temp_counter_of(*final(self), t2)
                                        == temp_counter_of(*old(self), t2))
                                &&& final(self).quad_queue@ == old(self).quad_queue@.push(
                                    (Quadruple {
                                        operation: opc,
                                        arg1: la,
                                        arg2: ra,
                                        result: temp_counter_of(*old(self), res_t),
                                    }),
                                )
                                &&& final(self).errors == old(self).errors
                            }
                        },
                        None => {
                            &&& final(self).p_types@.last() == Type::Int
                            &&& final(self).quad_queue@ == old(self).quad_queue@
                        },
                    }
                    &&& old(self).quad_queue@.len() <= final(self).quad_queue@.len() <= old(self).quad_queue@.len() + 1
                    &&& final(self).quad_queue@.subrange(0, old(self).quad_queue@.len() as int)
                        == old(self).quad_queue@
                    &&& grows_at_most(*old(self), *final(self), 1)
                } else {
                    &&& final(self).p_oper@ == old(self).p_oper@.drop_last()
                    &&& final(self).pila_o@ == old(self).pila_o@
                    &&& final(self).p_types@ == old(self).p_types@
                    &&& final(self).quad_queue@ == old(self).quad_queue@
                }
            }),
    {
        let np = self.p_oper.len();
        if np == 0 {
            return ;
        }
        let op = self.p_oper[np - 1];
        let should_process = if is_mult_div {
            op == OpCode::MULT || op == OpCode::DIV
        } else {
            op == OpCode::ADD || op == OpCode::SUB
        };
        if !should_process {
            return ;
        }
        let operator = match self.p_oper.pop() {
            Some(o) => o,
            None => {
                return ;
            },
        };
        if self.pila_o.len() < 2 || self.p_types.len() < 2 {
            self.log_error("not enough operands for pending operation");
            return ;
        }
        let right_operand = match self.pila_o.pop() {
            Some(v) => v,
            None => {
                return ;
            },
        };
        let right_type = match self.p_types.pop() {
            Some(v) => v,
            None => {
                return ;
            },
        };
        let left_operand = match self.pila_o.pop() {
            Some(v) => v,
            None => {
                return ;
            },
        };
        let left_type = match self.p_types.pop() {
            Some(v) => v,
            None => {
                return ;
            },
        };
        let op_enum = self.code_to_operator(operator);
        proof {
            assert(op_of_code(code_of(op_enum)) == op_enum);
        }
        match self.semantics(&left_type, &right_type, &op_enum) {
            Ok(result_type) => {
                let result_addr = self.avail_next(result_type);
                self.emit(Quadruple::new(operator, left_operand, right_operand, result_addr));
                self.pila_o.push(result_addr);
                self.p_types.push(result_type);
            },
            Err(_) => {
                self.log_error("type mismatch in binary operation");
                let result_addr = self.avail_next(Type::Int);
                self.pila_o.push(result_addr);
                self.p_types.push(Type::Int);
            },
        }
        proof {
            assert(self.pila_o@.subrange(0, old(self).pila_o@.len() - 2) =~= old(self).pila_o@.subrange(0, old(self).pila_o@.len() - 2));
            assert(self.p_types@ =~= old(self).p_types@.subrange(
                0,
                old(self).p_types@.len() - 2,
            ).push(self.p_types@.last()));
            assert(self.quad_queue@.subrange(0, old(self).quad_queue@.len() as int) =~= old(self).quad_queue@);
        }
    }

    /// Evaluates one expression by operator-precedence stack discipline:
    /// operands push their address and type; an operator is resolved as
    /// soon as no higher-precedence operator is pending, each resolution
    /// emitting exactly one quadruple into a fresh temporary. On return
    /// exactly one operand has been added, the operator stack is as it
    /// was, and — for a well-typed expression with room to allocate — the
    /// log has grown by exactly the expression's cost and the new operand
    /// has the expression's type.
    #[verifier::rlimit(100)]
    fn process_expression(&mut self, expr: &Expression)
        requires
            gen_wf(*old(self)),
            old(self).function_directory is Some,
        ensures
            gen_wf(*final(self)),
            final(self).scope_stack == old(self).scope_stack,
            final(self).p_jumps == old(self).p_jumps,
            final(self).function_directory == old(self).function_directory,
            final(self).string_literals == old(self).string_literals,
            final(self).p_oper@ == old(self).p_oper@,
            final(self).pila_o@.len() == old(self).pila_o@.len() + 1,
            final(self).pila_o@.subrange(0, old(self).pila_o@.len() as int) == old(self).pila_o@,
            final(self).p_types@.len() == old(self).p_types@.len() + 1,
            final(self).p_types@.subrange(0, old(self).p_types@.len() as int) == old(self).p_types@,
            final(self).quad_queue@.subrange(0, old(self).quad_queue@.len() as int) == old(self).quad_queue@,
            grows_at_most(*old(self), *final(self), expr_size(*expr)),
            final(self).errors@.len() >= old(self).errors@.len(),
            (expr_wt(old(self).function_directory.unwrap(), cur_scope(*old(self)), *expr)
                && gen_room(*old(self), expr_size(*expr))) ==> {
                &&& final(self).quad_queue@.len() == old(self).quad_queue@.len() + expr_cost(*expr)
                &&& final(self).p_types@.last() == expr_type(
                    old(self).function_directory.unwrap(),
                    cur_scope(*old(self)),
                    *expr,
                ).unwrap()
                &&& final(self).errors == old(self).errors
                &&& abs_gen(*final(self)) == eval_expr(
                    old(self).function_directory.unwrap(),
                    cur_scope(*old(self)),
                    abs_gen(*old(self)),
                    *expr,
                ).0
                &&& final(self).pila_o@.last() as int == eval_expr(
                    old(self).function_directory.unwrap(),
                    cur_scope(*old(self)),
                    abs_gen(*old(self)),
                    *expr,
                ).1
                &&& final(self).p_types@.last() == eval_expr(
                    old(self).function_directory.unwrap(),
                    cur_scope(*old(self)),
                    abs_gen(*old(self)),
                    *expr,
                ).2
            },
        decreases expr_size(*expr),
    {
        proof {
            lemma_expr_cost_le_size(*expr);
        }
        let ghost d0 = old(self).function_directory.unwrap();
        let ghost sc0 = cur_scope(*old(self));
        let ghost st0 = abs_gen(*old(self));
        let ghost hyp = expr_wt(d0, sc0, *expr) && gen_room(*old(self), expr_size(*expr));
        match expr {
            Expression::BinaryOp { left, operator, right } => {
                proof {
                    lemma_expr_cost_le_size(**left);
                    lemma_expr_cost_le_size(**right);
                }
                let ghost s0 = *self;
                self.process_expression(left);
                let ghost s1 = *self;
                match operator {
                    Operator::Multiply | Operator::Divide => {
                        self.action_push_mult_div_oper(*operator);
                    },
                    Operator::Plus | Operator::Minus => {
                        self.action_push_add_sub_oper(*operator);
                    },
                    Operator::GreaterThan | Operator::LessThan | Operator::Equal
                        | Operator::NotEqual => {
                        let op_code = self.operator_to_code(operator);
                        self.p_oper.push(op_code);
                    },
                }
                let ghost s2 = *self;
                self.process_expression(right);
                let ghost s3 = *self;
                proof {
                    assert(s3.p_oper@ == s1.p_oper@.push(code_of(*operator)));
                    assert(s3.p_oper@.last() == code_of(*operator));
                    assert(s3.pila_o@.len() == s0.pila_o@.len() + 2);
                    assert(s3.pila_o@[s0.pila_o@.len() as int] == s1.pila_o@.last());
                    assert(s3.p_types@[s0.p_types@.len() as int] == s1.p_types@.last());
                }
                match operator {
                    Operator::Multiply | Operator::Divide => {
                        self.action_process_operation(true);
                        proof {
                            if hyp {
                                let lr = eval_expr(d0, sc0, st0, **left);
                                let rr = eval_expr(d0, sc0, lr.0, **right);
                                assert(expr_wt(d0, sc0, **left));
                                assert(abs_gen(s1) == lr.0);
                                assert(s1.pila_o@.last() as int == lr.1);
                                assert(s1.p_types@.last() == lr.2);
                                assert(abs_gen(s2) =~= abs_gen(s1));
                                assert(expr_wt(d0, sc0, **right));
                                assert(cur_scope(s2) == sc0);
                                assert(s2.function_directory == old(self).function_directory);
                                assert(gen_room(s2, expr_size(**right)));
                                assert(abs_gen(s3) == rr.0);
                                assert(s3.pila_o@.last() as int == rr.1);
                                assert(s3.p_types@.last() == rr.2);
                                assert(s3.pila_o@[s0.pila_o@.len() as int] as int == lr.1);
                                assert(s3.p_types@[s0.p_types@.len() as int] == lr.2);
                                let rt = semantics_of(lr.2, rr.2, *operator).unwrap();
                                assert(op_of_code(code_of(*operator)) == *operator);
                                assert(semantics_of(lr.2, rr.2, op_of_code(code_of(*operator)))
                                    == Some(rt));
                                assert(temp_room(s3, 1));
                                assert(s3.quad_queue@.len() < MAX_QUADS);
                                assert(rt != Type::Int ==> temp_counter_of(*self, Type::Int)
                                    == temp_counter_of(s3, Type::Int));
                                assert(rt != Type::Float ==> temp_counter_of(*self, Type::Float)
                                    == temp_counter_of(s3, Type::Float));
                                assert(rt != Type::Bool ==> temp_counter_of(*self, Type::Bool)
                                    == temp_counter_of(s3, Type::Bool));
                                assert(temp_counter_of(*self, rt) as int == temp_counter_of(
                                    s3,
                                    rt,
                                ) + 1);
                                assert(self.pila_o@.last() == temp_counter_of(s3, rt));
                                assert(temp_counter_of(s3, rt) as int == st_temp_of(rr.0, rt));
                                assert(abs_gen(*self) =~= eval_expr(d0, sc0, st0, *expr).0);
                                assert(self.pila_o@.last() as int == eval_expr(
                                    d0,
                                    sc0,
                                    st0,
                                    *expr,
                                ).1);
                            }
                            assert(self.p_oper@ =~= s0.p_oper@);
                            assert(self.pila_o@.subrange(0, s0.pila_o@.len() as int) =~= s0.pila_o@);
                            assert(self.p_types@.subrange(0, s0.p_types@.len() as int)
                                =~= s0.p_types@);
                            assert(self.quad_queue@.subrange(0, s0.quad_queue@.len() as int)
                                =~= s0.quad_queue@);
                        }
                    },
                    Operator::Plus | Operator::Minus => {
                        self.action_process_operation(true);
                        self.action_process_operation(false);
                        proof {
                            if hyp {
                                let lr = eval_expr(d0, sc0, st0, **left);
                                let rr = eval_expr(d0, sc0, lr.0, **right);
                                assert(expr_wt(d0, sc0, **left));
                                assert(abs_gen(s1) == lr.0);
                                assert(s1.pila_o@.last() as int == lr.1);
                                assert(s1.p_types@.last() == lr.2);
                                assert(abs_gen(s2) =~= abs_gen(s1));
                                assert(expr_wt(d0, sc0, **right));
                                assert(cur_scope(s2) == sc0);
                                assert(s2.function_directory == old(self).function_directory);
                                assert(gen_room(s2, expr_size(**right)));
                                assert(abs_gen(s3) == rr.0);
                                assert(s3.pila_o@.last() as int == rr.1);
                                assert(s3.p_types@.last() == rr.2);
                                assert(s3.pila_o@[s0.pila_o@.len() as int] as int == lr.1);
                                assert(s3.p_types@[s0.p_types@.len() as int] == lr.2);
                                let rt = semantics_of(lr.2, rr.2, *operator).unwrap();
                                assert(op_of_code(code_of(*operator)) == *operator);
                                assert(semantics_of(lr.2, rr.2, op_of_code(code_of(*operator)))
                                    == Some(rt));
                                assert(temp_room(s3, 1));
                                assert(s3.quad_queue@.len() < MAX_QUADS);
                                assert(rt != Type::Int ==> temp_counter_of(*self, Type::Int)
                                    == temp_counter_of(s3, Type::Int));
                                assert(rt != Type::Float ==> temp_counter_of(*self, Type::Float)
                                    == temp_counter_of(s3, Type::Float));
                                assert(rt != Type::Bool ==> temp_counter_of(*self, Type::Bool)
                                    == temp_counter_of(s3, Type::Bool));
                                assert(temp_counter_of(*self, rt) as int == temp_counter_of(
                                    s3,
                                    rt,
                                ) + 1);
                                assert(self.pila_o@.last() == temp_counter_of(s3, rt));
                                assert(temp_counter_of(s3, rt) as int == st_temp_of(rr.0, rt));
                                assert(abs_gen(*self) =~= eval_expr(d0, sc0, st0, *expr).0);
                                assert(self.pila_o@.last() as int == eval_expr(
                                    d0,
                                    sc0,
                                    st0,
                                    *expr,
                                ).1);
                            }
                            assert(self.p_oper@ =~= s0.p_oper@);
                            assert(self.pila_o@.subrange(0, s0.pila_o@.len() as int) =~= s0.pila_o@);
                            assert(self.p_types@.subrange(0, s0.p_types@.len() as int)
                                =~= s0.p_types@);
                            assert(self.quad_queue@.subrange(0, s0.quad_queue@.len() as int)
                                =~= s0.quad_queue@);
                        }
                    },
                    Operator::GreaterThan | Operator::LessThan | Operator::Equal
                        | Operator::NotEqual => {
                        self.action_process_operation(true);
                        self.action_process_operation(false);
                        let popped = self.p_oper.pop();
                        match popped {
                            Some(op_code) => {
                                if op_code >= OpCode::GT && op_code <= OpCode::NEQ {
                                    if self.pila_o.len() >= 2 && self.p_types.len() >= 2 {
                                        let right_addr = match self.pila_o.pop() {
                                            Some(v) => v,
                                            None => 0,
                                        };
                                        let right_type = match self.p_types.pop() {
                                            Some(v) => v,
                                            None => Type::Int,
                                        };
                                        let left_addr = match self.pila_o.pop() {
                                            Some(v) => v,
                                            None => 0,
                                        };
                                        let left_type = match self.p_types.pop() {
                                            Some(v) => v,
                                            None => Type::Int,
                                        };
                                        let op_enum = self.code_to_operator(op_code);
                                        proof {
                                            assert(op_of_code(code_of(op_enum)) == op_enum);
                                            assert(op_enum == *operator);
                                        }
                                        match self.semantics(&left_type, &right_type, &op_enum) {
                                            Ok(result_type) => {
                                                let result_temp_addr = self.avail_next(result_type);
                                                self.emit(
                                                    Quadruple::new(
                                                        op_code,
                                                        left_addr,
                                                        right_addr,
                                                        result_temp_addr,
                                                    ),
                                                );
                                                self.pila_o.push(result_temp_addr);
                                                self.p_types.push(result_type);
                                            },
                                            Err(_) => {
                                                self.log_error("type mismatch in comparison");
                                                let result_temp_addr = self.avail_next(Type::Int);
                                                self.pila_o.push(result_temp_addr);
                                                self.p_types.push(Type::Int);
                                            },
                                        }
                                    } else {
                                        self.log_error("not enough operands for comparison");
                                        let result_temp_addr = self.avail_next(Type::Int);
                                        self.pila_o.push(result_temp_addr);
                                        self.p_types.push(Type::Int);
                                    }
                                } else {
                                    self.p_oper.push(op_code);
                                    self.log_error("unexpected operator when expecting comparison");
                                    let result_temp_addr = self.avail_next(Type::Int);
                                    self.pila_o.push(result_temp_addr);
                                    self.p_types.push(Type::Int);
                                }
                            },
                            None => {
                                self.log_error("operator stack empty before comparison");
                                let result_temp_addr = self.avail_next(Type::Int);
                                self.pila_o.push(result_temp_addr);
                                self.p_types.push(Type::Int);
                            },
                        }
                        proof {
                            if hyp {
                                let lr = eval_expr(d0, sc0, st0, **left);
                                let rr = eval_expr(d0, sc0, lr.0, **right);
                                assert(expr_wt(d0, sc0, **left));
                                assert(abs_gen(s1) == lr.0);
                                assert(s1.pila_o@.last() as int == lr.1);
                                assert(s1.p_types@.last() == lr.2);
                                assert(abs_gen(s2) =~= abs_gen(s1));
                                assert(expr_wt(d0, sc0, **right));
                                assert(cur_scope(s2) == sc0);
                                assert(s2.function_directory == old(self).function_directory);
                                assert(gen_room(s2, expr_size(**right)));
                                assert(abs_gen(s3) == rr.0);
                                assert(s3.pila_o@.last() as int == rr.1);
                                assert(s3.p_types@.last() == rr.2);
                                assert(s3.pila_o@[s0.pila_o@.len() as int] as int == lr.1);
                                assert(s3.p_types@[s0.p_types@.len() as int] == lr.2);
                                let rt = semantics_of(lr.2, rr.2, *operator).unwrap();
                                assert(op_of_code(code_of(*operator)) == *operator);
                                assert(semantics_of(lr.2, rr.2, op_of_code(code_of(*operator)))
                                    == Some(rt));
                                assert(temp_room(s3, 1));
                                assert(s3.quad_queue@.len() < MAX_QUADS);
                                assert(rt != Type::Int ==> temp_counter_of(*self, Type::Int)
                                    == temp_counter_of(s3, Type::Int));
                                assert(rt != Type::Float ==> temp_counter_of(*self, Type::Float)
                                    == temp_counter_of(s3, Type::Float));
                                assert(rt != Type::Bool ==> temp_counter_of(*self, Type::Bool)
                                    == temp_counter_of(s3, Type::Bool));
                                assert(temp_counter_of(*self, rt) as int == temp_counter_of(
                                    s3,
                                    rt,
                                ) + 1);
                                assert(self.pila_o@.last() == temp_counter_of(s3, rt));
                                assert(temp_counter_of(s3, rt) as int == st_temp_of(rr.0, rt));
                                assert(abs_gen(*self) =~= eval_expr(d0, sc0, st0, *expr).0);
                                assert(self.pila_o@.last() as int == eval_expr(
                                    d0,
                                    sc0,
                                    st0,
                                    *expr,
                                ).1);
                            }
                            assert(self.p_oper@ =~= s0.p_oper@);
                            assert(self.pila_o@.subrange(0, s0.pila_o@.len() as int) =~= s0.pila_o@);
                            assert(self.p_types@.subrange(0, s0.p_types@.len() as int)
                                =~= s0.p_types@);
                            assert(self.quad_queue@.subrange(0, s0.quad_queue@.len() as int)
                                =~= s0.quad_queue@);
                        }
                    },
                }
            },
            Expression::Identifier(id) => {
                let _ = self.action_push_id(id.as_str());
                proof {
                    assert(self.quad_queue@.subrange(0, old(self).quad_queue@.len() as int)
                        =~= old(self).quad_queue@);
                    if hyp {
                        assert(abs_gen(*self) =~= eval_expr(d0, sc0, st0, *expr).0);
                        assert(self.pila_o@.last() as int == eval_expr(d0, sc0, st0, *expr).1);
                        assert(self.p_types@.last() == eval_expr(d0, sc0, st0, *expr).2);
                    }
                }
            },
            Expression::IntegerLiteral(value) => {
                let _ = self.action_push_constant(*value, Type::Int);
                proof {
                    assert(self.quad_queue@.subrange(0, old(self).quad_queue@.len() as int)
                        =~= old(self).quad_queue@);
                    if hyp {
                        assert(eval_expr(d0, sc0, st0, *expr).2 == Type::Int);
                        assert(st0.ints == old(self).int_constants@);
                        if pool_index_of(st0.ints, *value) != -1 {
                            assert(eval_expr(d0, sc0, st0, *expr).0 == st0);
                            assert(self.int_constants@ == old(self).int_constants@);
                            assert(abs_gen(*self).ints == st0.ints);
                        } else {
                            assert(old(self).int_constants@.len() < CTE_INT_CAP);
                            assert(eval_expr(d0, sc0, st0, *expr).0 == (GenSt {
                                ints: st0.ints.push(*value),
                                ..st0
                            }));
                            assert(self.int_constants@ == old(self).int_constants@.push(*value));
                            assert(abs_gen(*self).ints == st0.ints.push(*value));
                        }
                        assert(abs_gen(*self) =~= eval_expr(d0, sc0, st0, *expr).0);
                        assert(self.pila_o@.last() as int == eval_expr(d0, sc0, st0, *expr).1);
                        assert(self.p_types@.last() == eval_expr(d0, sc0, st0, *expr).2);
                    }
                }
            },
            Expression::FloatLiteral(value) => {
                let _ = self.action_push_float_constant(*value);
                proof {
                    assert(self.quad_queue@.subrange(0, old(self).quad_queue@.len() as int)
                        =~= old(self).quad_queue@);
                    if hyp {
                        assert(abs_gen(*self) =~= eval_expr(d0, sc0, st0, *expr).0);
                        assert(self.pila_o@.last() as int == eval_expr(d0, sc0, st0, *expr).1);
                        assert(self.p_types@.last() == eval_expr(d0, sc0, st0, *expr).2);
                    }
                }
            },
            Expression::BooleanLiteral(value) => {
                let _ = self.action_push_bool_constant(*value);
                proof {
                    assert(self.quad_queue@.subrange(0, old(self).quad_queue@.len() as int)
                        =~= old(self).quad_queue@);
                    if hyp {
                        assert(abs_gen(*self) =~= eval_expr(d0, sc0, st0, *expr).0);
                        assert(self.pila_o@.last() as int == eval_expr(d0, sc0, st0, *expr).1);
                        assert(self.p_types@.last() == eval_expr(d0, sc0, st0, *expr).2);
                    }
                }
            },
        }
        proof {
            assert(self.pila_o@.subrange(0, old(self).pila_o@.len() as int) =~= old(self).pila_o@);
            assert(self.p_types@.subrange(0, old(self).p_types@.len() as int) =~= old(self).p_types@);
        }
    }
    /// Memory address of an identifier in the current scope, with global
    /// fallback.
    fn get_address(&self, id: &str) -> (r: Option<i32>)
        requires
            gen_wf(*self),
            self.function_directory is Some,
        ensures
            r == match resolve_var(self.function_directory.unwrap(), cur_scope(*self), id@) {
                Some(v) => Some(v.address),
                None => None::<i32>,
            },
    {
        let scope = self.current_scope();
        match &self.function_directory {
            Some(dir) => dir.get_variable_address(scope.as_str(), id),
            None => None,
        }
    }

    /// Type of an identifier in the current scope, with global fallback.
    fn get_type(&self, id: &str) -> (r: Option<Type>)
        requires
            gen_wf(*self),
            self.function_directory is Some,
        ensures
            r == match resolve_var(self.function_directory.unwrap(), cur_scope(*self), id@) {
                Some(v) => Some(v.var_type),
                None => None::<Type>,
            },
    {
        let scope = self.current_scope();
        match &self.function_directory {
            Some(dir) => dir.get_variable_type(scope.as_str(), id),
            None => None,
        }
    }

    /// Writes a jump target into the `result` field of an already emitted
    /// quadruple; an out-of-range index records a diagnostic.
    fn fill_jump(&mut self, quad_idx: usize, target: i32)
        ensures
            *final(self) == (QuadrupleGenerator {
                quad_queue: final(self).quad_queue,
                errors: final(self).errors,
                ..*old(self)
            }),
            final(self).errors@.len() >= old(self).errors@.len(),
            quad_idx < old(self).quad_queue@.len() ==> final(self).quad_queue@ == old(self).quad_queue@.update(
                quad_idx as int,
                (Quadruple {
                    operation: old(self).quad_queue@[quad_idx as int].operation,
                    arg1: old(self).quad_queue@[quad_idx as int].arg1,
                    arg2: old(self).quad_queue@[quad_idx as int].arg2,
                    result: target,
                }),
            ) && final(self).errors == old(self).errors,
            quad_idx >= old(self).quad_queue@.len() ==> final(self).quad_queue@ == old(self).quad_queue@,
    {
        if quad_idx < self.quad_queue.len() {
            let q = self.quad_queue[quad_idx];
            self.quad_queue.set(quad_idx, Quadruple::new(q.operation, q.arg1, q.arg2, target));
        } else {
            self.log_error("cannot backpatch: invalid quadruple index");
        }
    }

    /// Compiles an assignment: evaluates the right-hand side, resolves the
    /// target, and emits `ASSIGN(source, -1, target)`.
    fn process_assignment(&mut self, assign: &Assignment)
        requires
            gen_wf(*old(self)),
            old(self).function_directory is Some,
        ensures
            gen_wf(*final(self)),
            final(self).scope_stack == old(self).scope_stack,
            final(self).function_directory == old(self).function_directory,
            final(self).p_oper@ == old(self).p_oper@,
            final(self).pila_o@ == old(self).pila_o@,
            final(self).p_types@ == old(self).p_types@,
            final(self).p_jumps@ == old(self).p_jumps@,
            final(self).quad_queue@.subrange(0, old(self).quad_queue@.len() as int) == old(self).quad_queue@,
            grows_at_most(*old(self), *final(self), stmt_weight(Statement::Assignment(*assign))),
            final(self).errors@.len() >= old(self).errors@.len(),
            (stmt_wt(
                old(self).function_directory.unwrap(),
                cur_scope(*old(self)),
                Statement::Assignment(*assign),
            ) && gen_room(*old(self), stmt_weight(Statement::Assignment(*assign)))) ==> {
                let ev = eval_expr(
                    old(self).function_directory.unwrap(),
                    cur_scope(*old(self)),
                    abs_gen(*old(self)),
                    assign.expression,
                );
                &&& final(self).quad_queue@.len() == old(self).quad_queue@.len() + stmt_cost(
                    Statement::Assignment(*assign),
                )
                &&& final(self).quad_queue@.last().operation == OpCode::ASSIGN
                &&& final(self).quad_queue@.last().arg2 == -1
                &&& final(self).quad_queue@.last().result == resolve_var(
                    old(self).function_directory.unwrap(),
                    cur_scope(*old(self)),
                    assign.id@,
                ).unwrap().address
                &&& final(self).quad_queue@.last().arg1 as int == ev.1
                &&& abs_gen(*final(self)) == (GenSt {
                    quads: ev.0.quads.push(
                        (Quadruple {
                            operation: OpCode::ASSIGN,
                            arg1: ev.1 as i32,
                            arg2: -1i32,
                            result: resolve_var(
                                old(self).function_directory.unwrap(),
                                cur_scope(*old(self)),
                                assign.id@,
                            ).unwrap().address,
                        }),
                    ),
                    ..ev.0
                })
            },
    {
        proof {
            lemma_expr_cost_le_size(assign.expression);
        }
        self.process_expression(&assign.expression);
        let result_addr = match self.pila_o.pop() {
            Some(v) => v,
            None => 0,
        };
        let _result_type = match self.p_types.pop() {
            Some(v) => v,
            None => Type::Int,
        };
        match self.get_address(assign.id.as_str()) {
            Some(target_addr) => {
                self.emit(Quadruple::new(OpCode::ASSIGN, result_addr, -1, target_addr));
            },
            None => {
                let mut msg = String::from_str(
                    "assignment target not found in current or global scope: ",
                );
                msg.append(assign.id.as_str());
                self.log_error_string(msg);
            },
        }
        proof {
            assert(self.pila_o@ =~= old(self).pila_o@);
            assert(self.p_types@ =~= old(self).p_types@);
            assert(self.quad_queue@.subrange(0, old(self).quad_queue@.len() as int) =~= old(self).quad_queue@);
            if stmt_wt(
                old(self).function_directory.unwrap(),
                cur_scope(*old(self)),
                Statement::Assignment(*assign),
            ) && gen_room(*old(self), stmt_weight(Statement::Assignment(*assign))) {
                let ev = eval_expr(
                    old(self).function_directory.unwrap(),
                    cur_scope(*old(self)),
                    abs_gen(*old(self)),
                    assign.expression,
                );
                assert(abs_gen(*self) =~= (GenSt {
                    quads: ev.0.quads.push(
                        (Quadruple {
                            operation: OpCode::ASSIGN,
                            arg1: ev.1 as i32,
                            arg2: -1i32,
                            result: resolve_var(
                                old(self).function_directory.unwrap(),
                                cur_scope(*old(self)),
                                assign.id@,
                            ).unwrap().address,
                        }),
                    ),
                    ..ev.0
                }));
            }
        }
    }

    /// Compiles a print statement: an expression prints its evaluated
    /// value; a string literal gets a slot in the string-literal table and
    /// prints by that slot's address.
    fn process_print(&mut self, print_stmt: &PrintStatement)
        requires
            gen_wf(*old(self)),
            old(self).function_directory is Some,
        ensures
            gen_wf(*final(self)),
            final(self).scope_stack == old(self).scope_stack,
            final(self).function_directory == old(self).function_directory,
            final(self).p_oper@ == old(self).p_oper@,
            final(self).pila_o@ == old(self).pila_o@,
            final(self).p_types@ == old(self).p_types@,
            final(self).p_jumps@ == old(self).p_jumps@,
            final(self).quad_queue@.subrange(0, old(self).quad_queue@.len() as int) == old(self).quad_queue@,
            grows_at_most(*old(self), *final(self), stmt_weight(Statement::Print(*print_stmt))),
            final(self).errors@.len() >= old(self).errors@.len(),
            (stmt_wt(
                old(self).function_directory.unwrap(),
                cur_scope(*old(self)),
                Statement::Print(*print_stmt),
            ) && gen_room(*old(self), stmt_weight(Statement::Print(*print_stmt)))) ==> {
                &&& final(self).quad_queue@.len() == old(self).quad_queue@.len() + stmt_cost(
                    Statement::Print(*print_stmt),
                )
                &&& final(self).quad_queue@.last().operation == OpCode::PRINT
                &&& final(self).quad_queue@.last().arg2 == -1
                &&& final(self).quad_queue@.last().result == -1
                &&& (print_stmt is StringLiteral ==> final(self).quad_queue@.last().arg1
                    == MemoryAddresses::STR_LIT_START + old(self).string_literals@.len())
                &&& abs_gen(*final(self)) == gen_stmt(
                    old(self).function_directory.unwrap(),
                    cur_scope(*old(self)),
                    abs_gen(*old(self)),
                    Statement::Print(*print_stmt),
                )
            },
    {
        let ghost d0 = old(self).function_directory.unwrap();
        let ghost sc0 = cur_scope(*old(self));
        let ghost st0 = abs_gen(*old(self));
        let ghost s_wt = stmt_wt(d0, sc0, Statement::Print(*print_stmt));
        let ghost s_room = gen_room(*old(self), stmt_weight(Statement::Print(*print_stmt)));
        match print_stmt {
            PrintStatement::Expression(expr) => {
                proof {
                    lemma_expr_cost_le_size(*expr);
                }
                self.process_expression(expr);
                let value_addr = match self.pila_o.pop() {
                    Some(v) => v,
                    None => 0,
                };
                let _t = match self.p_types.pop() {
                    Some(v) => v,
                    None => Type::Int,
                };
                self.emit(Quadruple::new(OpCode::PRINT, value_addr, -1, -1));
                proof {
                    assert(self.pila_o@ =~= old(self).pila_o@);
                    assert(self.p_types@ =~= old(self).p_types@);
                    assert(self.quad_queue@.subrange(0, old(self).quad_queue@.len() as int) =~= old(self).quad_queue@);
                    if s_wt && s_room {
                        let ev = eval_expr(d0, sc0, st0, *expr);
                        assert(value_addr as int == ev.1);
                        assert(abs_gen(*self) =~= (GenSt {
                            quads: ev.0.quads.push(
                                (Quadruple {
                                    operation: OpCode::PRINT,
                                    arg1: ev.1 as i32,
                                    arg2: -1i32,
                                    result: -1i32,
                                }),
                            ),
                            ..ev.0
                        }));
                        assert(abs_gen(*self) == gen_stmt(
                            d0,
                            sc0,
                            st0,
                            Statement::Print(*print_stmt),
                        ));
                    }
                }
            },
            PrintStatement::StringLiteral(text) => {
                let n = self.string_literals.len();
                if n < STR_LIT_CAP {
                    let addr = MemoryAddresses::STR_LIT_START + (n as i32);
                    self.string_literals.push(text.clone());
                    self.emit(Quadruple::new(OpCode::PRINT, addr, -1, -1));
                } else {
                    self.log_error("string literal table exhausted");
                    self.emit(
                        Quadruple::new(OpCode::PRINT, MemoryAddresses::STR_LIT_START, -1, -1),
                    );
                }
                proof {
                    assert(self.quad_queue@.subrange(0, old(self).quad_queue@.len() as int) =~= old(self).quad_queue@);
                    if gen_room(*old(self), stmt_weight(Statement::Print(*print_stmt))) {
                        assert(abs_gen(*self) =~= (GenSt {
                            strs: abs_gen(*old(self)).strs + 1,
                            quads: abs_gen(*old(self)).quads.push(
                                (Quadruple {
                                    operation: OpCode::PRINT,
                                    arg1: (MemoryAddresses::STR_LIT_START + old(self).string_literals@.len()) as i32,
                                    arg2: -1i32,
                                    result: -1i32,
                                }),
                            ),
                            ..abs_gen(*old(self))
                        }));
                    }
                    if s_wt && s_room {
                        assert(abs_gen(*self) == gen_stmt(
                            d0,
                            sc0,
                            st0,
                            Statement::Print(*print_stmt),
                        ));
                    }
                }
            },
        }
    }
    /// Compiles a conditional: evaluates the condition, emits a `GOTOF`
    /// with its target unresolved, compiles the bodies, and backpatches.
    /// Without an else branch the `GOTOF` lands right after the then-body;
    /// with one, the `GOTOF` lands at the first instruction of the else
    /// body and the `GOTO` emitted between the bodies lands right after
    /// the else body.
    #[verifier::rlimit(100)]
    fn process_condition(&mut self, cond: &Condition)
        requires
            gen_wf(*old(self)),
            old(self).function_directory is Some,
        ensures
            gen_wf(*final(self)),
            final(self).scope_stack == old(self).scope_stack,
            final(self).function_directory == old(self).function_directory,
            final(self).p_oper@ == old(self).p_oper@,
            final(self).pila_o@ == old(self).pila_o@,
            final(self).p_types@ == old(self).p_types@,
            final(self).p_jumps@ == old(self).p_jumps@,
            final(self).quad_queue@.subrange(0, old(self).quad_queue@.len() as int) == old(self).quad_queue@,
            grows_at_most(*old(self), *final(self), stmt_weight(Statement::Condition(*cond))),
            final(self).errors@.len() >= old(self).errors@.len(),
            (stmt_wt(
                old(self).function_directory.unwrap(),
                cur_scope(*old(self)),
                Statement::Condition(*cond),
            ) && gen_room(*old(self), stmt_weight(Statement::Condition(*cond)))) ==> {
                let base = old(self).quad_queue@.len() as int;
                let gi = base + expr_cost(cond.condition);
                &&& final(self).quad_queue@.len() == base + stmt_cost(Statement::Condition(*cond))
                &&& final(self).quad_queue@[gi].operation == OpCode::GOTOF
                &&& match cond.else_body {
                    Some(eb) => {
                        let goto_idx = gi + 1 + stmts_cost(cond.if_body@);
                        &&& final(self).quad_queue@[gi].result == goto_idx + 1
                        &&& final(self).quad_queue@[goto_idx].operation == OpCode::GOTO
                        &&& final(self).quad_queue@[goto_idx].result == final(self).quad_queue@.len()
                    },
                    None => final(self).quad_queue@[gi].result == final(self).quad_queue@.len(),
                }
            },
            (stmt_wt(
                old(self).function_directory.unwrap(),
                cur_scope(*old(self)),
                Statement::Condition(*cond),
            ) && gen_room(*old(self), stmt_weight(Statement::Condition(*cond))))
                ==> abs_gen(*final(self)) == gen_stmt(
                old(self).function_directory.unwrap(),
                cur_scope(*old(self)),
                abs_gen(*old(self)),
                Statement::Condition(*cond),
            ),
        decreases 1 + stmts_size(cond.if_body@) + (match cond.else_body {
            Some(e) => stmts_size(e@),
            None => 0nat,
        }), 0int,
    {
        proof {
            lemma_expr_cost_le_size(cond.condition);
            lemma_stmts_cost_le_weight(cond.if_body@);
            match &cond.else_body {
                Some(e) => {
                    lemma_stmts_cost_le_weight(e@);
                },
                None => {},
            }
        }
        let ghost g0 = *old(self);
        let ghost s_wt = stmt_wt(
            old(self).function_directory.unwrap(),
            cur_scope(*old(self)),
            Statement::Condition(*cond),
        );
        let ghost s_room = gen_room(*old(self), stmt_weight(Statement::Condition(*cond)));
        let ghost d0 = old(self).function_directory.unwrap();
        let ghost sc0 = cur_scope(*old(self));
        let ghost st0 = abs_gen(*old(self));
        let ghost ev = eval_expr(d0, sc0, st0, cond.condition);
        let ghost sgi = ev.0.quads.len() as int;
        let ghost sst2 = (GenSt {
            quads: ev.0.quads.push(
                (Quadruple {
                    operation: OpCode::GOTOF,
                    arg1: ev.1 as i32,
                    arg2: -1i32,
                    result: -1i32,
                }),
            ),
            ..ev.0
        });
        let ghost sst3 = gen_stmts(d0, sc0, sst2, cond.if_body@);
        self.process_expression(&cond.condition);
        let result_addr = match self.pila_o.pop() {
            Some(v) => v,
            None => 0,
        };
        let result_type = match self.p_types.pop() {
            Some(v) => v,
            None => Type::Bool,
        };
        match result_type {
            Type::Bool => {},
            _ => {
                self.log_error("condition of if statement is not boolean");
            },
        }
        let ghost g1 = *self;
        proof {
            if s_wt && s_room {
                assert(self.quad_queue@.len() == g0.quad_queue@.len() + expr_cost(cond.condition));
                assert(abs_gen(g1) == ev.0);
                assert(result_addr as int == ev.1);
            }
        }
        let gotof_quad_idx = self.quad_queue.len();
        self.emit(Quadruple::new(OpCode::GOTOF, result_addr, -1, -1));
        let ghost g2 = *self;
        proof {
            if s_wt && s_room {
                assert(abs_gen(g2) =~= sst2);
                assert(gotof_quad_idx as int == sgi);
            }
        }
        self.p_jumps.push(gotof_quad_idx);
        self.generate_from_statements(&cond.if_body);
        let ghost g3 = *self;
        proof {
            assert(g2.quad_queue@.subrange(0, g0.quad_queue@.len() as int) =~= g0.quad_queue@);
            assert(g3.quad_queue@.subrange(0, g0.quad_queue@.len() as int) =~= g0.quad_queue@);
            assert(gotof_quad_idx >= g0.quad_queue@.len());
            if s_wt && s_room {
                assert(g2.quad_queue@[gotof_quad_idx as int].operation == OpCode::GOTOF);
                assert(g3.quad_queue@.subrange(0, g2.quad_queue@.len() as int) == g2.quad_queue@);
                assert(g3.quad_queue@[gotof_quad_idx as int].operation == OpCode::GOTOF);
                assert(g3.quad_queue@.len() == g2.quad_queue@.len() + stmts_cost(cond.if_body@));
                assert(cur_scope(g2) == sc0);
                assert(abs_gen(g3) == sst3);
                assert(g3.quad_queue@[gotof_quad_idx as int] == (Quadruple {
                    operation: OpCode::GOTOF,
                    arg1: ev.1 as i32,
                    arg2: -1i32,
                    result: -1i32,
                }));
            }
        }
        match &cond.else_body {
            Some(else_body) => {
                let ghost sgo = sst3.quads.len() as int;
                let ghost sst4 = (GenSt {
                    quads: sst3.quads.push(
                        (Quadruple {
                            operation: OpCode::GOTO,
                            arg1: -1i32,
                            arg2: -1i32,
                            result: -1i32,
                        }),
                    ),
                    ..sst3
                });
                let ghost sst5 = (GenSt {
                    quads: sst4.quads.update(
                        sgi,
                        (Quadruple {
                            operation: OpCode::GOTOF,
                            arg1: ev.1 as i32,
                            arg2: -1i32,
                            result: sst4.quads.len() as i32,
                        }),
                    ),
                    ..sst4
                });
                let ghost sst6 = gen_stmts(d0, sc0, sst5, else_body@);
                let goto_quad_idx = self.quad_queue.len();
                self.emit(Quadruple::new(OpCode::GOTO, -1, -1, -1));
                let jump_target_for_gotof = self.quad_queue.len();
                let gotof_pos = match self.p_jumps.pop() {
                    Some(p) => p,
                    None => 0,
                };
                self.fill_jump(gotof_pos, jump_target_for_gotof as i32);
                let ghost g4 = *self;
                proof {
                    assert(g4.quad_queue@.subrange(0, g0.quad_queue@.len() as int)
                        =~= g0.quad_queue@);
                    if s_wt && s_room {
                        assert(g4.quad_queue@[gotof_quad_idx as int].operation == OpCode::GOTOF);
                        assert(g4.quad_queue@[gotof_quad_idx as int].result
                            == jump_target_for_gotof as i32);
                        assert(g4.quad_queue@[goto_quad_idx as int].operation == OpCode::GOTO);
                        assert(g4.quad_queue@.len() == goto_quad_idx + 1);
                        assert(goto_quad_idx as int == sgo);
                        assert(abs_gen(g4) =~= sst5);
                    }
                }
                self.p_jumps.push(goto_quad_idx);
                let ghost g4b = *self;
                self.generate_from_statements(else_body);
                let ghost g5 = *self;
                proof {
                    assert(self.quad_queue@.subrange(0, g0.quad_queue@.len() as int)
                        =~= g0.quad_queue@);
                    assert(goto_quad_idx >= g0.quad_queue@.len());
                    if s_wt && s_room {
                        assert(cur_scope(g4b) == sc0);
                        assert(abs_gen(g4b) == sst5);
                        assert(abs_gen(g5) == sst6);
                        assert(g5.quad_queue@.subrange(0, g4b.quad_queue@.len() as int)
                            == g4b.quad_queue@);
                        assert(g5.quad_queue@[goto_quad_idx as int] == (Quadruple {
                            operation: OpCode::GOTO,
                            arg1: -1i32,
                            arg2: -1i32,
                            result: -1i32,
                        }));
                    }
                }
                let jump_target_for_goto = self.quad_queue.len();
                let goto_pos = match self.p_jumps.pop() {
                    Some(p) => p,
                    None => 0,
                };
                self.fill_jump(goto_pos, jump_target_for_goto as i32);
                proof {
                    if s_wt && s_room {
                        assert(self.quad_queue@[gotof_quad_idx as int].operation == OpCode::GOTOF);
                        assert(self.quad_queue@[gotof_quad_idx as int].result
                            == jump_target_for_gotof as i32);
                        assert(self.quad_queue@[goto_quad_idx as int].operation == OpCode::GOTO);
                        assert(self.quad_queue@[goto_quad_idx as int].result
                            == jump_target_for_goto as i32);
                        assert(goto_quad_idx == g0.quad_queue@.len() + expr_cost(cond.condition)
                            + 1 + stmts_cost(cond.if_body@));
                        assert(self.quad_queue@.len() == g0.quad_queue@.len() + stmt_cost(
                            Statement::Condition(*cond),
                        ));
                        assert(abs_gen(*self) =~= (GenSt {
                            quads: sst6.quads.update(
                                sgo,
                                (Quadruple {
                                    operation: OpCode::GOTO,
                                    arg1: -1i32,
                                    arg2: -1i32,
                                    result: sst6.quads.len() as i32,
                                }),
                            ),
                            ..sst6
                        }));
                        assert(abs_gen(*self) == gen_stmt(
                            d0,
                            sc0,
                            st0,
                            Statement::Condition(*cond),
                        ));
                    }
                }
            },
            None => {
                let jump_target_for_gotof = self.quad_queue.len();
                let gotof_pos = match self.p_jumps.pop() {
                    Some(p) => p,
                    None => 0,
                };
                self.fill_jump(gotof_pos, jump_target_for_gotof as i32);
                proof {
                    if s_wt && s_room {
                        assert(self.quad_queue@[gotof_quad_idx as int].operation == OpCode::GOTOF);
                        assert(self.quad_queue@[gotof_quad_idx as int].result
                            == jump_target_for_gotof as i32);
                        assert(self.quad_queue@.len() == g0.quad_queue@.len() + stmt_cost(
                            Statement::Condition(*cond),
                        ));
                        assert(abs_gen(*self) =~= (GenSt {
                            quads: sst3.quads.update(
                                sgi,
                                (Quadruple {
                                    operation: OpCode::GOTOF,
                                    arg1: ev.1 as i32,
                                    arg2: -1i32,
                                    result: sst3.quads.len() as i32,
                                }),
                            ),
                            ..sst3
                        }));
                        assert(abs_gen(*self) == gen_stmt(
                            d0,
                            sc0,
                            st0,
                            Statement::Condition(*cond),
                        ));
                    }
                }
            },
        }
        proof {
            assert(self.pila_o@ =~= old(self).pila_o@);
            assert(self.p_types@ =~= old(self).p_types@);
            assert(self.p_jumps@ =~= old(self).p_jumps@);
            assert(self.quad_queue@.subrange(0, old(self).quad_queue@.len() as int) =~= old(self).quad_queue@);
        }
    }

    /// Compiles a loop: records the loop head, evaluates the condition,
    /// emits a `GOTOF` with its target unresolved, compiles the body,
    /// emits the back-edge `GOTO` to the head, and backpatches the `GOTOF`
    /// to land right after that `GOTO`.
    fn process_cycle(&mut self, cycle: &Cycle)
        requires
            gen_wf(*old(self)),
            old(self).function_directory is Some,
        ensures
            gen_wf(*final(self)),
            final(self).scope_stack == old(self).scope_stack,
            final(self).function_directory == old(self).function_directory,
            final(self).p_oper@ == old(self).p_oper@,
            final(self).pila_o@ == old(self).pila_o@,
            final(self).p_types@ == old(self).p_types@,
            final(self).p_jumps@ == old(self).p_jumps@,
            final(self).quad_queue@.subrange(0, old(self).quad_queue@.len() as int) == old(self).quad_queue@,
            grows_at_most(*old(self), *final(self), stmt_weight(Statement::Cycle(*cycle))),
            final(self).errors@.len() >= old(self).errors@.len(),
            (stmt_wt(
                old(self).function_directory.unwrap(),
                cur_scope(*old(self)),
                Statement::Cycle(*cycle),
            ) && gen_room(*old(self), stmt_weight(Statement::Cycle(*cycle)))) ==> {
                let base = old(self).quad_queue@.len() as int;
                let gi = base + expr_cost(cycle.condition);
                &&& final(self).quad_queue@.len() == base + stmt_cost(Statement::Cycle(*cycle))
                &&& final(self).quad_queue@[gi].operation == OpCode::GOTOF
                &&& final(self).quad_queue@[gi].result == final(self).quad_queue@.len()
                &&& final(self).quad_queue@.last().operation == OpCode::GOTO
                &&& final(self).quad_queue@.last().result == base
            },
            (stmt_wt(
                old(self).function_directory.unwrap(),
                cur_scope(*old(self)),
                Statement::Cycle(*cycle),
            ) && gen_room(*old(self), stmt_weight(Statement::Cycle(*cycle))))
                ==> abs_gen(*final(self)) == gen_stmt(
                old(self).function_directory.unwrap(),
                cur_scope(*old(self)),
                abs_gen(*old(self)),
                Statement::Cycle(*cycle),
            ),
        decreases 1 + stmts_size(cycle.body@), 0int,
    {
        proof {
            lemma_expr_cost_le_size(cycle.condition);
            lemma_stmts_cost_le_weight(cycle.body@);
        }
        let ghost g0 = *old(self);
        let ghost s_wt = stmt_wt(
            old(self).function_directory.unwrap(),
            cur_scope(*old(self)),
            Statement::Cycle(*cycle),
        );
        let ghost s_room = gen_room(*old(self), stmt_weight(Statement::Cycle(*cycle)));
        let ghost d0 = old(self).function_directory.unwrap();
        let ghost sc0 = cur_scope(*old(self));
        let ghost st0 = abs_gen(*old(self));
        let ghost shead = st0.quads.len() as int;
        let ghost ev = eval_expr(d0, sc0, st0, cycle.condition);
        let ghost sgi = ev.0.quads.len() as int;
        let ghost sst2 = (GenSt {
            quads: ev.0.quads.push(
                (Quadruple {
                    operation: OpCode::GOTOF,
                    arg1: ev.1 as i32,
                    arg2: -1i32,
                    result: -1i32,
                }),
            ),
            ..ev.0
        });
        let ghost sst3 = gen_stmts(d0, sc0, sst2, cycle.body@);
        let ghost sst4 = (GenSt {
            quads: sst3.quads.push(
                (Quadruple {
                    operation: OpCode::GOTO,
                    arg1: -1i32,
                    arg2: -1i32,
                    result: shead as i32,
                }),
            ),
            ..sst3
        });
        let return_pos = self.quad_queue.len();
        self.p_jumps.push(return_pos);
        self.process_expression(&cycle.condition);
        let result_addr = match self.pila_o.pop() {
            Some(v) => v,
            None => 0,
        };
        let result_type = match self.p_types.pop() {
            Some(v) => v,
            None => Type::Bool,
        };
        match result_type {
            Type::Bool => {},
            _ => {
                self.log_error("condition of while statement is not boolean");
            },
        }
        proof {
            if s_wt && s_room {
                assert(self.quad_queue@.len() == g0.quad_queue@.len() + expr_cost(
                    cycle.condition,
                ));
                assert(abs_gen(*self) == ev.0);
                assert(result_addr as int == ev.1);
            }
        }
        let gotof_quad_idx = self.quad_queue.len();
        self.emit(Quadruple::new(OpCode::GOTOF, result_addr, -1, -1));
        let ghost g2 = *self;
        proof {
            if s_wt && s_room {
                assert(abs_gen(g2) =~= sst2);
                assert(gotof_quad_idx as int == sgi);
            }
        }
        self.p_jumps.push(gotof_quad_idx);
        self.generate_from_statements(&cycle.body);
        let ghost g3 = *self;
        proof {
            assert(g2.quad_queue@.subrange(0, g0.quad_queue@.len() as int) =~= g0.quad_queue@);
            assert(g3.quad_queue@.subrange(0, g0.quad_queue@.len() as int) =~= g0.quad_queue@);
            assert(gotof_quad_idx >= g0.quad_queue@.len());
            if s_wt && s_room {
                assert(g2.quad_queue@[gotof_quad_idx as int].operation == OpCode::GOTOF);
                assert(g3.quad_queue@.subrange(0, g2.quad_queue@.len() as int) == g2.quad_queue@);
                assert(g3.quad_queue@[gotof_quad_idx as int].operation == OpCode::GOTOF);
                assert(g3.quad_queue@.len() == g2.quad_queue@.len() + stmts_cost(cycle.body@));
                assert(cur_scope(g2) == sc0);
                assert(abs_gen(g3) == sst3);
                assert(g3.quad_queue@[gotof_quad_idx as int] == (Quadruple {
                    operation: OpCode::GOTOF,
                    arg1: ev.1 as i32,
                    arg2: -1i32,
                    result: -1i32,
                }));
            }
        }
        let loop_gotof_pos = match self.p_jumps.pop() {
            Some(p) => p,
            None => 0,
        };
        let condition_start_target = match self.p_jumps.pop() {
            Some(p) => p,
            None => 0,
        };
        self.emit(Quadruple::new(OpCode::GOTO, -1, -1, condition_start_target as i32));
        let jump_target_after_loop = self.quad_queue.len();
        self.fill_jump(loop_gotof_pos, jump_target_after_loop as i32);
        proof {
            if s_wt && s_room {
                assert(self.quad_queue@[gotof_quad_idx as int].operation == OpCode::GOTOF);
                assert(self.quad_queue@[gotof_quad_idx as int].result
                    == jump_target_after_loop as i32);
                assert(self.quad_queue@.last().operation == OpCode::GOTO);
                assert(self.quad_queue@.last().result == return_pos as i32);
                assert(self.quad_queue@.len() == g0.quad_queue@.len() + stmt_cost(
                    Statement::Cycle(*cycle),
                ));
                assert(return_pos as int == shead);
                assert(abs_gen(*self) =~= (GenSt {
                    quads: sst4.quads.update(
                        sgi,
                        (Quadruple {
                            operation: OpCode::GOTOF,
                            arg1: ev.1 as i32,
                            arg2: -1i32,
                            result: sst4.quads.len() as i32,
                        }),
                    ),
                    ..sst4
                }));
                assert(abs_gen(*self) == gen_stmt(d0, sc0, st0, Statement::Cycle(*cycle)));
            }
            assert(self.pila_o@ =~= old(self).pila_o@);
            assert(self.p_types@ =~= old(self).p_types@);
            assert(self.p_jumps@ =~= old(self).p_jumps@);
            assert(self.quad_queue@.subrange(0, old(self).quad_queue@.len() as int) =~= old(self).quad_queue@);
        }
    }

    /// The callee's recorded start index (or -1 when none is recorded yet)
    /// and its declared parameter types, when the callee exists.
    fn get_function_call_info(&self, id: &str) -> (r: Option<(i32, Vec<Type>)>)
        requires
            gen_wf(*self),
            self.function_directory is Some,
        ensures
            match find_by_name(self.function_directory.unwrap().functions@, id@) {
                Some(fi) => match r {
                    Some(info) => {
                        &&& info.0 == match fi.start_quad_idx {
                            Some(st) => st,
                            None => -1i32,
                        }
                        &&& info.1@.len() == fi.parameters@.len()
                        &&& forall|k: int|
                            0 <= k < fi.parameters@.len() ==> info.1@[k] == (
                            #[trigger] fi.parameters@[k]).1
                    },
                    None => false,
                },
                None => r is None,
            },
    {
        let dir = match &self.function_directory {
            Some(d) => d,
            None => {
                return None;
            },
        };
        match dir.get_function(id) {
            Some(fi) => {
                let start = match fi.start_quad_idx {
                    Some(st) => st,
                    None => -1,
                };
                let mut types: Vec<Type> = Vec::new();
                let np = fi.parameters.len();
                let mut k: usize = 0;
                while k < np
                    invariant
                        0 <= k <= np,
                        np == fi.parameters@.len(),
                        types@.len() == k,
                        forall|j: int| 0 <= j < k ==> types@[j] == (#[trigger] fi.parameters@[j]).1,
                    decreases np - k,
                {
                    types.push(fi.parameters[k].1);
                    k = k + 1;
                }
                Some((start, types))
            },
            None => None,
        }
    }

    /// Compiles a procedure call: an arity mismatch or unknown callee is
    /// rejected with a diagnostic and nothing emitted; otherwise `ERA`,
    /// one evaluated argument plus `PARAM(arg, -1, k)` per parameter in
    /// order, and `GOSUB`, with the callee's start index in `ERA` and
    /// `GOSUB`.
    fn process_function_call(&mut self, func_call: &FunctionCall)
        requires
            gen_wf(*old(self)),
            old(self).function_directory is Some,
        ensures
            gen_wf(*final(self)),
            final(self).scope_stack == old(self).scope_stack,
            final(self).function_directory == old(self).function_directory,
            final(self).p_oper@ == old(self).p_oper@,
            final(self).pila_o@ == old(self).pila_o@,
            final(self).p_types@ == old(self).p_types@,
            final(self).p_jumps@ == old(self).p_jumps@,
            final(self).quad_queue@.subrange(0, old(self).quad_queue@.len() as int) == old(self).quad_queue@,
            grows_at_most(
                *old(self),
                *final(self),
                stmt_weight(Statement::FunctionCall(*func_call)),
            ),
            final(self).errors@.len() >= old(self).errors@.len(),
            find_by_name(old(self).function_directory.unwrap().functions@, func_call.id@)
                is None ==> final(self).quad_queue@ == old(self).quad_queue@,
            (match find_by_name(
                old(self).function_directory.unwrap().functions@,
                func_call.id@,
            ) {
                Some(fi) => fi.parameters@.len() != func_call.arguments@.len() ==> final(self).quad_queue@ == old(self).quad_queue@,
                None => true,
            }),
            (stmt_wt(
                old(self).function_directory.unwrap(),
                cur_scope(*old(self)),
                Statement::FunctionCall(*func_call),
            ) && gen_room(*old(self), stmt_weight(Statement::FunctionCall(*func_call)))) ==> {
                let base = old(self).quad_queue@.len() as int;
                let cstart = call_start_of(
                    old(self).function_directory.unwrap(),
                    func_call.id@,
                );
                &&& final(self).quad_queue@.len() == base + stmt_cost(
                    Statement::FunctionCall(*func_call),
                )
                &&& final(self).quad_queue@[base] == (Quadruple {
                    operation: OpCode::ERA,
                    arg1: cstart,
                    arg2: -1i32,
                    result: -1i32,
                })
                &&& final(self).quad_queue@.last() == (Quadruple {
                    operation: OpCode::GOSUB,
                    arg1: cstart,
                    arg2: -1i32,
                    result: -1i32,
                })
                &&& abs_gen(*final(self)) == gen_call(
                    old(self).function_directory.unwrap(),
                    cur_scope(*old(self)),
                    abs_gen(*old(self)),
                    *func_call,
                )
                &&& forall|k: int|
                    0 <= k < func_call.arguments@.len() ==> 0 <= #[trigger] param_pos(
                        base,
                        func_call.arguments@,
                        k,
                    ) < final(self).quad_queue@.len()
                &&& forall|k: int|
                    0 <= k < func_call.arguments@.len() ==> {
                        &&& (#[trigger] final(self).quad_queue@[param_pos(
                            base,
                            func_call.arguments@,
                            k,
                        )]).operation == OpCode::PARAM
                        &&& final(self).quad_queue@[param_pos(
                            base,
                            func_call.arguments@,
                            k,
                        )].arg2 == -1
                        &&& final(self).quad_queue@[param_pos(
                            base,
                            func_call.arguments@,
                            k,
                        )].result == k as i32
                    }
            },
    {
        proof {
            lemma_exprs_cost_le_weight(func_call.arguments@);
        }
        let ghost g0 = *old(self);
        let ghost s_wt = stmt_wt(
            old(self).function_directory.unwrap(),
            cur_scope(*old(self)),
            Statement::FunctionCall(*func_call),
        );
        let ghost s_room = gen_room(
            *old(self),
            stmt_weight(Statement::FunctionCall(*func_call)),
        );
        let info = match self.get_function_call_info(func_call.id.as_str()) {
            Some(i) => i,
            None => {
                let mut msg = String::from_str("called function not found in directory: ");
                msg.append(func_call.id.as_str());
                self.log_error_string(msg);
                return ;
            },
        };
        let n_args = func_call.arguments.len();
        if n_args != info.1.len() {
            let mut msg = String::from_str(
                "argument count does not match the declared parameter count: ",
            );
            msg.append(func_call.id.as_str());
            self.log_error_string(msg);
            return ;
        }
        let func_id_for_era = info.0;
        proof {
            assert(func_id_for_era == call_start_of(
                g0.function_directory.unwrap(),
                func_call.id@,
            ));
        }
        if func_id_for_era == -1 {
            let mut msg = String::from_str("start index not recorded for called function: ");
            msg.append(func_call.id.as_str());
            self.log_error_string(msg);
        }
        self.emit(Quadruple::new(OpCode::ERA, func_id_for_era, -1, -1));
        let ghost mid = *self;
        proof {
            assert(mid.quad_queue@.subrange(0, g0.quad_queue@.len() as int) =~= g0.quad_queue@);
            if s_room {
                assert(abs_gen(mid) =~= (GenSt {
                    quads: abs_gen(g0).quads.push(
                        (Quadruple {
                            operation: OpCode::ERA,
                            arg1: call_start_of(g0.function_directory.unwrap(), func_call.id@),
                            arg2: -1i32,
                            result: -1i32,
                        }),
                    ),
                    ..abs_gen(g0)
                }));
            }
        }
        let mut k: usize = 0;
        while k < n_args
            invariant
                0 <= k <= n_args,
                n_args == func_call.arguments@.len(),
                n_args == info.1@.len(),
                (match find_by_name(
                    g0.function_directory.unwrap().functions@,
                    func_call.id@,
                ) {
                    Some(fi) => fi.parameters@.len() == func_call.arguments@.len(),
                    None => false,
                }),
                gen_wf(*self),
                self.function_directory is Some,
                g0 == *old(self),
                s_wt == stmt_wt(
                    g0.function_directory.unwrap(),
                    cur_scope(g0),
                    Statement::FunctionCall(*func_call),
                ),
                s_room == gen_room(g0, stmt_weight(Statement::FunctionCall(*func_call))),
                mid.function_directory == g0.function_directory,
                mid.scope_stack == g0.scope_stack,
                mid.p_oper@ == g0.p_oper@,
                mid.pila_o@ == g0.pila_o@,
                mid.p_types@ == g0.p_types@,
                mid.p_jumps@ == g0.p_jumps@,
                mid.string_literals == g0.string_literals,
                mid.quad_queue@.subrange(0, g0.quad_queue@.len() as int) == g0.quad_queue@,
                mid.errors@.len() >= g0.errors@.len(),
                grows_at_most(g0, mid, 1),
                s_room ==> mid.quad_queue@.len() == g0.quad_queue@.len() + 1,
                self.function_directory == mid.function_directory,
                self.scope_stack == mid.scope_stack,
                self.p_oper@ == mid.p_oper@,
                self.pila_o@ == mid.pila_o@,
                self.p_types@ == mid.p_types@,
                self.p_jumps@ == mid.p_jumps@,
                self.string_literals == mid.string_literals,
                self.quad_queue@.subrange(0, mid.quad_queue@.len() as int) == mid.quad_queue@,
                self.quad_queue@.subrange(0, g0.quad_queue@.len() as int) == g0.quad_queue@,
                grows_at_most(mid, *self, exprs_weight(func_call.arguments@.take(k as int))),
                self.errors@.len() >= g0.errors@.len(),
                (s_wt && s_room) ==> self.quad_queue@.len() == mid.quad_queue@.len() + exprs_cost(
                    func_call.arguments@.take(k as int),
                ),
                (s_wt && s_room) ==> mid.quad_queue@ == g0.quad_queue@.push(
                    (Quadruple {
                        operation: OpCode::ERA,
                        arg1: call_start_of(g0.function_directory.unwrap(), func_call.id@),
                        arg2: -1i32,
                        result: -1i32,
                    }),
                ),
                (s_wt && s_room) ==> abs_gen(mid) == (GenSt {
                    quads: abs_gen(g0).quads.push(
                        (Quadruple {
                            operation: OpCode::ERA,
                            arg1: call_start_of(g0.function_directory.unwrap(), func_call.id@),
                            arg2: -1i32,
                            result: -1i32,
                        }),
                    ),
                    ..abs_gen(g0)
                }),
                (s_wt && s_room) ==> gen_args(
                    g0.function_directory.unwrap(),
                    cur_scope(g0),
                    abs_gen(mid),
                    func_call.arguments@,
                    0,
                ) == gen_args(
                    g0.function_directory.unwrap(),
                    cur_scope(g0),
                    abs_gen(*self),
                    func_call.arguments@,
                    k as int,
                ),
                (s_wt && s_room) ==> forall|k2: int|
                    0 <= k2 < k ==> {
                        &&& (#[trigger] self.quad_queue@[param_pos(
                            g0.quad_queue@.len() as int,
                            func_call.arguments@,
                            k2,
                        )]).operation == OpCode::PARAM
                        &&& self.quad_queue@[param_pos(
                            g0.quad_queue@.len() as int,
                            func_call.arguments@,
                            k2,
                        )].arg2 == -1
                        &&& self.quad_queue@[param_pos(
                            g0.quad_queue@.len() as int,
                            func_call.arguments@,
                            k2,
                        )].result == k2 as i32
                    },
            decreases n_args - k,
        {
            proof {
                lemma_exprs_weight_split(func_call.arguments@, k as int);
                assert(func_call.arguments@.skip(k as int)[0] == func_call.arguments@[k as int]);
                assert(func_call.arguments@.skip(k as int).drop_first() =~= func_call.arguments@.skip(
                    k + 1,
                ));
                lemma_expr_cost_le_size(func_call.arguments@[k as int]);
            }
            if k >= MAX_QUADS {
                proof {
                    if s_wt && s_room {
                        lemma_exprs_weight_ge_len(func_call.arguments@);
                        assert(false);
                    }
                }
                self.log_error("too many call arguments");
                return ;
            }
            let ghost before_arg = *self;
            self.process_expression(&func_call.arguments[k]);
            let arg_addr = match self.pila_o.pop() {
                Some(v) => v,
                None => 0,
            };
            let arg_type = match self.p_types.pop() {
                Some(v) => v,
                None => Type::Int,
            };
            let expected = info.1[k];
            let valid = match &self.function_directory {
                Some(dir) => dir.is_valid_assignment(&expected, &arg_type),
                None => false,
            };
            if !valid {
                self.log_error("argument type is not assignable to the declared parameter type");
            }
            let ghost before_param = *self;
            self.emit(Quadruple::new(OpCode::PARAM, arg_addr, -1, k as i32));
            proof {
                lemma_exprs_cost_take_step(func_call.arguments@, k as int);
                lemma_exprs_weight_take_step(func_call.arguments@, k as int);
                assert(self.pila_o@ =~= mid.pila_o@);
                assert(self.p_types@ =~= mid.p_types@);
                assert(self.quad_queue@.subrange(0, mid.quad_queue@.len() as int)
                    =~= mid.quad_queue@);
                assert(self.quad_queue@.subrange(0, g0.quad_queue@.len() as int)
                    =~= g0.quad_queue@);
                if s_wt && s_room {
                    assert(expr_wt(
                        g0.function_directory.unwrap(),
                        cur_scope(g0),
                        func_call.arguments@[k as int],
                    ));
                    assert(before_arg.quad_queue@.len() == mid.quad_queue@.len() + exprs_cost(
                        func_call.arguments@.take(k as int),
                    ));
                    assert(before_param.quad_queue@.len() == before_arg.quad_queue@.len()
                        + expr_cost(func_call.arguments@[k as int]));
                    assert(before_param.quad_queue@.len() < MAX_QUADS);
                    assert(self.quad_queue@ == before_param.quad_queue@.push(
                        (Quadruple {
                            operation: OpCode::PARAM,
                            arg1: arg_addr,
                            arg2: -1i32,
                            result: k as i32,
                        }),
                    ));
                    ({
                        let d0 = g0.function_directory.unwrap();
                        let sc0 = cur_scope(g0);
                        let ev = eval_expr(d0, sc0, abs_gen(before_arg), func_call.arguments@[k as int]);
                        assert(abs_gen(before_param) == ev.0);
                        assert(arg_addr as int == ev.1);
                        assert(abs_gen(*self) =~= (GenSt {
                            quads: ev.0.quads.push(
                                (Quadruple {
                                    operation: OpCode::PARAM,
                                    arg1: ev.1 as i32,
                                    arg2: -1i32,
                                    result: k as i32,
                                }),
                            ),
                            ..ev.0
                        }));
                        assert(gen_args(d0, sc0, abs_gen(before_arg), func_call.arguments@, k as int)
                            == gen_args(d0, sc0, abs_gen(*self), func_call.arguments@, k + 1));
                    });
                    assert forall|k2: int| 0 <= k2 < k + 1 implies {
                        &&& (#[trigger] self.quad_queue@[param_pos(
                            g0.quad_queue@.len() as int,
                            func_call.arguments@,
                            k2,
                        )]).operation == OpCode::PARAM
                        &&& self.quad_queue@[param_pos(
                            g0.quad_queue@.len() as int,
                            func_call.arguments@,
                            k2,
                        )].arg2 == -1
                        &&& self.quad_queue@[param_pos(
                            g0.quad_queue@.len() as int,
                            func_call.arguments@,
                            k2,
                        )].result == k2 as i32
                    } by {
                        let pi = param_pos(g0.quad_queue@.len() as int, func_call.arguments@, k2);
                        if k2 < k {
                            let probe = before_arg.quad_queue@[param_pos(
                                g0.quad_queue@.len() as int,
                                func_call.arguments@,
                                k2,
                            )];
                            lemma_exprs_cost_split(func_call.arguments@.take(k as int), k2 + 1);
                            assert(func_call.arguments@.take(k as int).take(k2 + 1)
                                =~= func_call.arguments@.take(k2 + 1));
                            assert(0 <= pi < before_arg.quad_queue@.len());
                            assert(before_param.quad_queue@.subrange(
                                0,
                                before_arg.quad_queue@.len() as int,
                            ) == before_arg.quad_queue@);
                            assert(before_param.quad_queue@[pi] == before_param.quad_queue@.subrange(
                                0,
                                before_arg.quad_queue@.len() as int,
                            )[pi]);
                            assert(before_param.quad_queue@[pi] == before_arg.quad_queue@[pi]);
                            assert(self.quad_queue@[pi] == before_param.quad_queue@[pi]);
                        } else {
                            assert(pi == self.quad_queue@.len() - 1);
                        }
                    }
                }
            }
            k = k + 1;
        }
        proof {
            assert(func_call.arguments@.take(n_args as int) =~= func_call.arguments@);
        }
        let ghost before_gosub = *self;
        self.emit(Quadruple::new(OpCode::GOSUB, func_id_for_era, -1, -1));
        proof {
            assert(self.quad_queue@.subrange(0, old(self).quad_queue@.len() as int) =~= old(self).quad_queue@);
            if s_wt && s_room {
                assert(before_gosub.quad_queue@.len() < MAX_QUADS);
                assert(self.quad_queue@ == before_gosub.quad_queue@.push(
                    (Quadruple {
                        operation: OpCode::GOSUB,
                        arg1: func_id_for_era,
                        arg2: -1i32,
                        result: -1i32,
                    }),
                ));
                assert(before_gosub.quad_queue@.subrange(0, mid.quad_queue@.len() as int)
                    == mid.quad_queue@);
                assert(g0.quad_queue@.len() < mid.quad_queue@.len());
                assert(before_gosub.quad_queue@[g0.quad_queue@.len() as int]
                    == before_gosub.quad_queue@.subrange(
                    0,
                    mid.quad_queue@.len() as int,
                )[g0.quad_queue@.len() as int]);
                assert(self.quad_queue@[g0.quad_queue@.len() as int]
                    == before_gosub.quad_queue@[g0.quad_queue@.len() as int]);
                assert(self.quad_queue@[g0.quad_queue@.len() as int] == (Quadruple {
                    operation: OpCode::ERA,
                    arg1: call_start_of(g0.function_directory.unwrap(), func_call.id@),
                    arg2: -1i32,
                    result: -1i32,
                }));
                ({
                    let d0 = g0.function_directory.unwrap();
                    let sc0 = cur_scope(g0);
                    assert(gen_args(d0, sc0, abs_gen(mid), func_call.arguments@, 0) == gen_args(
                        d0,
                        sc0,
                        abs_gen(before_gosub),
                        func_call.arguments@,
                        func_call.arguments@.len() as int,
                    ));
                    assert(gen_args(
                        d0,
                        sc0,
                        abs_gen(before_gosub),
                        func_call.arguments@,
                        func_call.arguments@.len() as int,
                    ) == abs_gen(before_gosub));
                    assert(abs_gen(*self) =~= (GenSt {
                        quads: abs_gen(before_gosub).quads.push(
                            (Quadruple {
                                operation: OpCode::GOSUB,
                                arg1: call_start_of(d0, func_call.id@),
                                arg2: -1i32,
                                result: -1i32,
                            }),
                        ),
                        ..abs_gen(before_gosub)
                    }));
                    assert(abs_gen(*self) == gen_call(d0, sc0, abs_gen(g0), *func_call));
                });
                assert forall|k2: int|
                    0 <= k2 < func_call.arguments@.len() implies 0 <= #[trigger] param_pos(
                    g0.quad_queue@.len() as int,
                    func_call.arguments@,
                    k2,
                ) < self.quad_queue@.len() by {
                    lemma_exprs_cost_split(func_call.arguments@, k2 + 1);
                    assert(func_call.arguments@.take(func_call.arguments@.len() as int)
                        =~= func_call.arguments@);
                }
                assert forall|k2: int| 0 <= k2 < func_call.arguments@.len() implies {
                    &&& (#[trigger] self.quad_queue@[param_pos(
                        g0.quad_queue@.len() as int,
                        func_call.arguments@,
                        k2,
                    )]).operation == OpCode::PARAM
                    &&& self.quad_queue@[param_pos(
                        g0.quad_queue@.len() as int,
                        func_call.arguments@,
                        k2,
                    )].arg2 == -1
                    &&& self.quad_queue@[param_pos(
                        g0.quad_queue@.len() as int,
                        func_call.arguments@,
                        k2,
                    )].result == k2 as i32
                } by {
                    let pi = param_pos(g0.quad_queue@.len() as int, func_call.arguments@, k2);
                    let probe = before_gosub.quad_queue@[param_pos(
                        g0.quad_queue@.len() as int,
                        func_call.arguments@,
                        k2,
                    )];
                    lemma_exprs_cost_split(func_call.arguments@, k2 + 1);
                    assert(func_call.arguments@.take(func_call.arguments@.len() as int)
                        =~= func_call.arguments@);
                    assert(0 <= pi < before_gosub.quad_queue@.len());
                    assert(self.quad_queue@[pi] == before_gosub.quad_queue@[pi]);
                }
            }
        }
    }

    /// Compiles one statement.
    fn process_statement(&mut self, statement: &Statement)
        requires
            gen_wf(*old(self)),
            old(self).function_directory is Some,
        ensures
            gen_wf(*final(self)),
            final(self).scope_stack == old(self).scope_stack,
            final(self).function_directory == old(self).function_directory,
            final(self).p_oper@ == old(self).p_oper@,
            final(self).pila_o@ == old(self).pila_o@,
            final(self).p_types@ == old(self).p_types@,
            final(self).p_jumps@ == old(self).p_jumps@,
            final(self).quad_queue@.subrange(0, old(self).quad_queue@.len() as int) == old(self).quad_queue@,
            grows_at_most(*old(self), *final(self), stmt_weight(*statement)),
            final(self).errors@.len() >= old(self).errors@.len(),
            (stmt_wt(old(self).function_directory.unwrap(), cur_scope(*old(self)), *statement)
                && gen_room(*old(self), stmt_weight(*statement))) ==> final(self).quad_queue@.len() == old(self).quad_queue@.len() + stmt_cost(*statement),
            (stmt_wt(old(self).function_directory.unwrap(), cur_scope(*old(self)), *statement)
                && gen_room(*old(self), stmt_weight(*statement))) ==> abs_gen(*final(self))
                == gen_stmt(
                old(self).function_directory.unwrap(),
                cur_scope(*old(self)),
                abs_gen(*old(self)),
                *statement,
            ),
        decreases stmt_size(*statement), 1int,
    {
        let ghost d0 = old(self).function_directory.unwrap();
        let ghost sc0 = cur_scope(*old(self));
        let ghost st0 = abs_gen(*old(self));
        let ghost s_wt = stmt_wt(d0, sc0, *statement);
        let ghost s_room = gen_room(*old(self), stmt_weight(*statement));
        match statement {
            Statement::Assignment(assign) => {
                self.process_assignment(assign);
                proof {
                    if s_wt && s_room {
                        assert(abs_gen(*self) == gen_stmt(d0, sc0, st0, *statement));
                    }
                }
            },
            Statement::Print(print_stmt) => self.process_print(print_stmt),
            Statement::Condition(cond) => self.process_condition(cond),
            Statement::Cycle(cycle) => self.process_cycle(cycle),
            Statement::FunctionCall(func_call) => {
                self.process_function_call(func_call);
                proof {
                    if s_wt && s_room {
                        assert(abs_gen(*self) == gen_stmt(d0, sc0, st0, *statement));
                    }
                }
            },
        }
    }

    /// Compiles a list of statements in order.
    pub fn generate_from_statements(&mut self, statements: &Vec<Statement>)
        requires
            gen_wf(*old(self)),
            old(self).function_directory is Some,
        ensures
            gen_wf(*final(self)),
            final(self).scope_stack == old(self).scope_stack,
            final(self).function_directory == old(self).function_directory,
            final(self).p_oper@ == old(self).p_oper@,
            final(self).pila_o@ == old(self).pila_o@,
            final(self).p_types@ == old(self).p_types@,
            final(self).p_jumps@ == old(self).p_jumps@,
            final(self).quad_queue@.subrange(0, old(self).quad_queue@.len() as int) == old(self).quad_queue@,
            grows_at_most(*old(self), *final(self), stmts_weight(statements@)),
            final(self).errors@.len() >= old(self).errors@.len(),
            (stmts_wt(old(self).function_directory.unwrap(), cur_scope(*old(self)), statements@)
                && gen_room(*old(self), stmts_weight(statements@))) ==> final(self).quad_queue@.len() == old(self).quad_queue@.len() + stmts_cost(statements@),
            (stmts_wt(old(self).function_directory.unwrap(), cur_scope(*old(self)), statements@)
                && gen_room(*old(self), stmts_weight(statements@))) ==> abs_gen(*final(self))
                == gen_stmts(
                old(self).function_directory.unwrap(),
                cur_scope(*old(self)),
                abs_gen(*old(self)),
                statements@,
            ),
        decreases stmts_size(statements@), 2int,
    {
        let ghost d0 = old(self).function_directory.unwrap();
        let ghost sc0 = cur_scope(*old(self));
        let ghost st0 = abs_gen(*old(self));
        let ghost l_wt = stmts_wt(d0, sc0, statements@) && gen_room(
            *old(self),
            stmts_weight(statements@),
        );
        let n = statements.len();
        let mut i: usize = 0;
        while i < n
            invariant
                0 <= i <= n,
                n == statements@.len(),
                gen_wf(*self),
                self.function_directory is Some,
                self.function_directory == old(self).function_directory,
                self.scope_stack == old(self).scope_stack,
                self.p_oper@ == old(self).p_oper@,
                self.pila_o@ == old(self).pila_o@,
                self.p_types@ == old(self).p_types@,
                self.p_jumps@ == old(self).p_jumps@,
                self.quad_queue@.subrange(0, old(self).quad_queue@.len() as int) == old(self).quad_queue@,
                grows_at_most(*old(self), *self, stmts_weight(statements@.take(i as int))),
                self.errors@.len() >= old(self).errors@.len(),
                (stmts_wt(
                    old(self).function_directory.unwrap(),
                    cur_scope(*old(self)),
                    statements@,
                ) && gen_room(*old(self), stmts_weight(statements@)))
                    ==> self.quad_queue@.len() == old(self).quad_queue@.len() + stmts_cost(
                    statements@.take(i as int),
                ),
                d0 == old(self).function_directory.unwrap(),
                sc0 == cur_scope(*old(self)),
                st0 == abs_gen(*old(self)),
                l_wt == (stmts_wt(d0, sc0, statements@) && gen_room(
                    *old(self),
                    stmts_weight(statements@),
                )),
                l_wt ==> abs_gen(*self) == gen_stmts(d0, sc0, st0, statements@.take(i as int)),
            decreases stmts_size(statements@), 3int, n - i,
        {
            proof {
                lemma_stmt_size_le(statements@, i as int);
                lemma_stmts_weight_split(statements@, i as int);
                assert(statements@.skip(i as int)[0] == statements@[i as int]);
                assert(statements@.skip(i as int).drop_first() =~= statements@.skip(i + 1));
                lemma_stmts_wt_at(statements@, i as int);
                lemma_stmt_cost_le_weight(statements@[i as int]);
            }
            let ghost before = *self;
            self.process_statement(&statements[i]);
            proof {
                lemma_stmts_cost_take_step(statements@, i as int);
                lemma_stmts_weight_take_step(statements@, i as int);
                assert(self.quad_queue@.subrange(0, old(self).quad_queue@.len() as int) =~= old(self).quad_queue@);
                if l_wt {
                    assert(cur_scope(before) == sc0);
                    assert(abs_gen(*self) == gen_stmt(
                        d0,
                        sc0,
                        abs_gen(before),
                        statements@[i as int],
                    ));
                    lemma_gen_stmts_snoc(d0, sc0, st0, statements@.take(i as int), statements@[i as int]);
                    assert(statements@.take(i as int).push(statements@[i as int]) =~= statements@.take(i + 1));
                }
            }
            i = i + 1;
        }
        proof {
            assert(statements@.take(n as int) =~= statements@);
        }
    }

    /// Pushes a scope onto the scope stack.
    fn enter_scope_internal(&mut self, scope_name: String)
        ensures
            *final(self) == (QuadrupleGenerator { scope_stack: final(self).scope_stack, ..*old(self) }),
            final(self).scope_stack@ == old(self).scope_stack@.push(scope_name),
            cur_scope(*final(self)) == scope_name@,
    {
        self.scope_stack.push(scope_name);
    }

    /// Pops the current scope, keeping at least the base scope.
    fn exit_scope_internal(&mut self)
        ensures
            *final(self) == (QuadrupleGenerator { scope_stack: final(self).scope_stack, ..*old(self) }),
            old(self).scope_stack@.len() > 1 ==> final(self).scope_stack@ == old(self).scope_stack@.drop_last(),
            old(self).scope_stack@.len() <= 1 ==> final(self).scope_stack@ == old(self).scope_stack@,
    {
        if self.scope_stack.len() > 1 {
            let _ = self.scope_stack.pop();
        }
    }

    /// Clears all stacks, pools, the instruction log, and the recorded
    /// diagnostics for a fresh generation pass; the directory stays.
    pub fn clear(&mut self)
        ensures
            final(self).p_oper@.len() == 0,
            final(self).pila_o@.len() == 0,
            final(self).p_types@.len() == 0,
            final(self).p_jumps@.len() == 0,
            final(self).quad_queue@.len() == 0,
            final(self).int_constants@.len() == 0,
            final(self).float_constants@.len() == 0,
            final(self).bool_constants@.len() == 0,
            final(self).string_literals@.len() == 0,
            final(self).errors@.len() == 0,
            final(self).temp_int_counter == MemoryAddresses::TEMP_INT_START,
            final(self).temp_float_counter == MemoryAddresses::TEMP_FLOAT_START,
            final(self).temp_bool_counter == MemoryAddresses::TEMP_BOOL_START,
            final(self).scope_stack@.len() == 1,
            cur_scope(*final(self)) == "global"@,
            final(self).function_directory == old(self).function_directory,
            gen_wf(*old(self)) ==> gen_wf(*final(self)),
    {
        self.p_oper = Vec::new();
        self.pila_o = Vec::new();
        self.p_types = Vec::new();
        self.p_jumps = Vec::new();
        self.quad_queue = Vec::new();
        self.int_constants = Vec::new();
        self.float_constants = Vec::new();
        self.bool_constants = Vec::new();
        self.string_literals = Vec::new();
        self.errors = Vec::new();
        self.temp_int_counter = MemoryAddresses::TEMP_INT_START;
        self.temp_float_counter = MemoryAddresses::TEMP_FLOAT_START;
        self.temp_bool_counter = MemoryAddresses::TEMP_BOOL_START;
        let mut scopes: Vec<String> = Vec::new();
        scopes.push(String::from_str("global"));
        self.scope_stack = scopes;
    }

    /// Compiles a whole program: the reserved `GOTO` to main at index 0,
    /// each procedure's body in source order (its start index recorded and
    /// its body terminated by `ENDFUNC`), then main's body (its start
    /// backpatched into instruction 0) and a trailing `HALT`. Fails only
    /// when no directory was installed.
    pub fn generate_for_program(&mut self, program_ast: &Program) -> (r: Result<(), String>)
        requires
            gen_wf(*old(self)),
        ensures
            gen_wf(*final(self)),
            r is Ok <==> old(self).function_directory is Some,
            r is Err ==> *final(self) == *old(self),
            r is Ok ==> {
                &&& final(self).p_oper@.len() == 0
                &&& final(self).pila_o@.len() == 0
                &&& final(self).p_types@.len() == 0
                &&& final(self).p_jumps@.len() == 0
                &&& final(self).scope_stack@.len() == 1
                &&& cur_scope(*final(self)) == "global"@
                &&& final(self).function_directory is Some
                &&& same_shape(
                    final(self).function_directory.unwrap().functions@,
                    old(self).function_directory.unwrap().functions@,
                )
                &&& final(self).quad_queue@.len() >= 1
                &&& final(self).quad_queue@[0].operation == OpCode::GOTO
                &&& (program_wt(old(self).function_directory.unwrap(), *program_ast)
                    && program_fits_gen(*program_ast)) ==> {
                    &&& final(self).quad_queue@.len() == program_cost(*program_ast)
                    &&& final(self).quad_queue@[0].result == 1 + funcs_cost(program_ast.funcs@)
                    &&& final(self).quad_queue@.last().operation == OpCode::HALT
                    &&& (crate::function_directory::built_from(
                        old(self).function_directory.unwrap(),
                        *program_ast,
                    ) ==> {
                        let m = find_by_name(
                            final(self).function_directory.unwrap().functions@,
                            "main"@,
                        );
                        m is Some && m.unwrap().start_quad_idx == Some(
                            (1 + funcs_cost(program_ast.funcs@)) as i32,
                        )
                    })
                    &&& (crate::function_directory::built_from(
                        old(self).function_directory.unwrap(),
                        *program_ast,
                    ) ==> forall|k: int|
                        0 <= k < program_ast.funcs@.len() ==> {
                            let fs = final(self).function_directory.unwrap().functions@;
                            &&& fs[3 + k].0@ == (#[trigger] program_ast.funcs@[k]).id@
                            &&& fs[3 + k].1.start_quad_idx == Some(
                                fn_start_pos(program_ast.funcs@, k) as i32,
                            )
                            &&& find_by_name(fs, program_ast.funcs@[k].id@) == Some(fs[3 + k].1)
                        })
                    &&& forall|k: int|
                        0 <= k < program_ast.funcs@.len() ==> 1 <= #[trigger] fn_end_pos(
                            program_ast.funcs@,
                            k,
                        ) < final(self).quad_queue@.len() && final(self).quad_queue@[fn_end_pos(
                            program_ast.funcs@,
                            k,
                        )].operation == OpCode::ENDFUNC
                    &&& (program_ast.funcs@.len() == 0 ==> {
                        let stm = gen_stmts(
                            final(self).function_directory.unwrap(),
                            "main"@,
                            clean_start(),
                            program_ast.main_body@,
                        );
                        abs_gen(*final(self)) == (GenSt {
                            quads: stm.quads.push(
                                (Quadruple {
                                    operation: OpCode::HALT,
                                    arg1: -1i32,
                                    arg2: -1i32,
                                    result: -1i32,
                                }),
                            ),
                            ..stm
                        })
                    })
                }
            },
    {
        match &self.function_directory {
            None => {
                return Err(String::from_str("function directory not set in quadruple generator"));
            },
            Some(_) => {},
        }
        let ghost dir0 = old(self).function_directory.unwrap();
        let ghost p_wt = program_wt(dir0, *program_ast);
        let ghost p_fits = program_fits_gen(*program_ast);
        let ghost bf = crate::function_directory::built_from(dir0, *program_ast);
        self.clear();
        let ghost gc = *self;
        let goto_main_quad_idx = self.quad_queue.len();
        self.emit(Quadruple::new(OpCode::GOTO, -1, -1, -1));
        proof {
            assert(self.quad_queue@.len() == 1);
            assert(self.quad_queue@[0].operation == OpCode::GOTO);
            assert(abs_gen(*self) =~= (GenSt {
                temp_int: MemoryAddresses::TEMP_INT_START as int,
                temp_float: MemoryAddresses::TEMP_FLOAT_START as int,
                temp_bool: MemoryAddresses::TEMP_BOOL_START as int,
                ints: Seq::<i32>::empty(),
                floats: Seq::<u64>::empty(),
                strs: 0,
                quads: seq![
                    (Quadruple {
                        operation: OpCode::GOTO,
                        arg1: -1i32,
                        arg2: -1i32,
                        result: -1i32,
                    }),
                ],
            }));
        }
        let n = program_ast.funcs.len();
        let mut i: usize = 0;
        proof {
            assert(program_ast.funcs@.take(0) =~= Seq::<FunctionDeclaration>::empty());
        }
        while i < n
            invariant
                0 <= i <= n,
                n == program_ast.funcs@.len(),
                gen_wf(*self),
                self.function_directory is Some,
                dir0 == old(self).function_directory.unwrap(),
                p_wt == program_wt(dir0, *program_ast),
                p_fits == program_fits_gen(*program_ast),
                same_shape(self.function_directory.unwrap().functions@, dir0.functions@),
                self.scope_stack@.len() == 1,
                cur_scope(*self) == "global"@,
                self.p_oper@.len() == 0,
                self.pila_o@.len() == 0,
                self.p_types@.len() == 0,
                self.p_jumps@.len() == 0,
                self.string_literals@.len() <= funcs_weight(program_ast.funcs@.take(i as int)),
                self.quad_queue@.len() >= 1,
                self.quad_queue@[0].operation == OpCode::GOTO,
                grows_at_most(gc, *self, 1 + funcs_weight(program_ast.funcs@.take(i as int))),
                gc.quad_queue@.len() == 0,
                gc.int_constants@.len() == 0,
                gc.float_constants@.len() == 0,
                gc.string_literals@.len() == 0,
                gc.errors@.len() == 0,
                gc.temp_int_counter == MemoryAddresses::TEMP_INT_START,
                gc.temp_float_counter == MemoryAddresses::TEMP_FLOAT_START,
                gc.temp_bool_counter == MemoryAddresses::TEMP_BOOL_START,
                (p_wt && p_fits) ==> self.quad_queue@.len() == 1 + funcs_cost(
                    program_ast.funcs@.take(i as int),
                ),
                bf == crate::function_directory::built_from(dir0, *program_ast),
                (p_wt && p_fits && bf) ==> forall|j: int|
                    0 <= j < i ==> (#[trigger] self.function_directory.unwrap().functions@[3
                        + j]).1.start_quad_idx == Some(fn_start_pos(program_ast.funcs@, j) as i32),
                (p_wt && p_fits) ==> forall|j: int|
                    0 <= j < i ==> 1 <= #[trigger] fn_end_pos(program_ast.funcs@, j)
                        < self.quad_queue@.len() && self.quad_queue@[fn_end_pos(
                        program_ast.funcs@,
                        j,
                    )].operation == OpCode::ENDFUNC,
                n == 0 ==> abs_gen(*self) == (GenSt {
                    temp_int: MemoryAddresses::TEMP_INT_START as int,
                    temp_float: MemoryAddresses::TEMP_FLOAT_START as int,
                    temp_bool: MemoryAddresses::TEMP_BOOL_START as int,
                    ints: Seq::<i32>::empty(),
                    floats: Seq::<u64>::empty(),
                    strs: 0,
                    quads: seq![
                        (Quadruple {
                            operation: OpCode::GOTO,
                            arg1: -1i32,
                            arg2: -1i32,
                            result: -1i32,
                        }),
                    ],
                }),
            decreases n - i,
        {
            proof {
                lemma_funcs_weight_split(program_ast.funcs@, i as int);
                assert(program_ast.funcs@.skip(i as int)[0] == program_ast.funcs@[i as int]);
                assert(program_ast.funcs@.skip(i as int).drop_first()
                    =~= program_ast.funcs@.skip(i + 1));
                lemma_stmts_cost_le_weight(program_ast.funcs@[i as int].body@);
                if p_wt {
                    lemma_funcs_wt_at(dir0, program_ast.funcs@, i as int);
                }
            }
            let func_decl = &program_ast.funcs[i];
            let func_start_idx = self.quad_queue.len() as i32;
            let ghost dir_before = self.function_directory.unwrap();
            match &mut self.function_directory {
                Some(dir) => {
                    dir.set_function_start_quad(func_decl.id.as_str(), func_start_idx);
                },
                None => {},
            }
            proof {
                let dir_after = self.function_directory.unwrap();
                assert(same_shape(dir_after.functions@, dir_before.functions@)) by {
                    if has_name(dir_before.functions@, func_decl.id@) {
                    }
                }
                assert(same_shape(dir_after.functions@, dir0.functions@));
                if p_wt && p_fits && bf {
                    let fs_b = dir_before.functions@;
                    assert(dir0.functions@[3 + i as int].0@ == program_ast.funcs@[i as int].id@);
                    assert(fs_b[3 + i as int].0@ == func_decl.id@);
                    crate::function_directory::lemma_has_name_iff(fs_b, func_decl.id@);
                    assert(has_name(fs_b, func_decl.id@));
                    let k = choose|k: int|
                        {
                            &&& 0 <= k < fs_b.len()
                            &&& (#[trigger] fs_b[k]).0@ == func_decl.id@
                            &&& find_by_name(fs_b, func_decl.id@) == Some(fs_b[k].1)
                            &&& dir_after.functions@ == fs_b.update(
                                k,
                                (
                                    fs_b[k].0,
                                    (FunctionInfo {
                                        return_type: fs_b[k].1.return_type,
                                        parameters: fs_b[k].1.parameters,
                                        local_variables: fs_b[k].1.local_variables,
                                        is_program: fs_b[k].1.is_program,
                                        start_quad_idx: Some(func_start_idx),
                                    }),
                                ),
                            )
                        };
                    assert(k == 3 + i) by {
                        if k != 3 + i {
                            assert(fs_b[k].0@ == fs_b[3 + i as int].0@);
                        }
                    }
                    assert(func_start_idx as int == fn_start_pos(program_ast.funcs@, i as int));
                    assert(func_start_idx == fn_start_pos(program_ast.funcs@, i as int) as i32);
                    assert forall|j: int| 0 <= j < i + 1 implies (#[trigger] dir_after.functions@[3
                        + j]).1.start_quad_idx == Some(fn_start_pos(program_ast.funcs@, j) as i32) by {
                        if j < i {
                            assert(dir_after.functions@[3 + j] == fs_b[3 + j]);
                        }
                    }
                }
            }
            self.enter_scope_internal(func_decl.id.clone());
            let ghost before_body = *self;
            self.generate_from_statements(&func_decl.body);
            let ghost after_body = *self;
            proof {
                assert(self.quad_queue@.subrange(0, before_body.quad_queue@.len() as int)[0]
                    == before_body.quad_queue@[0]);
                assert(self.quad_queue@[0].operation == OpCode::GOTO);
                if p_wt && p_fits {
                    lemma_stmts_wt_same_shape(
                        dir0,
                        before_body.function_directory.unwrap(),
                        func_decl.id@,
                        func_decl.body@,
                    );
                    assert(stmts_wt(
                        before_body.function_directory.unwrap(),
                        cur_scope(before_body),
                        func_decl.body@,
                    ));
                    assert(gen_room(before_body, stmts_weight(func_decl.body@)));
                    assert(self.quad_queue@.len() == 1 + funcs_cost(
                        program_ast.funcs@.take(i as int),
                    ) + stmts_cost(func_decl.body@));
                }
            }
            self.emit(Quadruple::new(OpCode::ENDFUNC, -1, -1, -1));
            self.exit_scope_internal();
            proof {
                lemma_funcs_cost_take_step(program_ast.funcs@, i as int);
                lemma_funcs_weight_take_step(program_ast.funcs@, i as int);
                assert(self.quad_queue@[0].operation == OpCode::GOTO);
                if p_wt && p_fits {
                    assert(after_body.quad_queue@.len() == fn_end_pos(
                        program_ast.funcs@,
                        i as int,
                    ));
                    assert(self.quad_queue@ == after_body.quad_queue@.push(
                        (Quadruple {
                            operation: OpCode::ENDFUNC,
                            arg1: -1i32,
                            arg2: -1i32,
                            result: -1i32,
                        }),
                    ));
                    assert forall|j: int| 0 <= j < i + 1 implies 1 <= #[trigger] fn_end_pos(
                        program_ast.funcs@,
                        j,
                    ) < self.quad_queue@.len() && self.quad_queue@[fn_end_pos(
                        program_ast.funcs@,
                        j,
                    )].operation == OpCode::ENDFUNC by {
                        let pos = fn_end_pos(program_ast.funcs@, j);
                        if j < i {
                            assert(before_body.quad_queue@[pos].operation == OpCode::ENDFUNC);
                            assert(pos < before_body.quad_queue@.len());
                            assert(after_body.quad_queue@.subrange(
                                0,
                                before_body.quad_queue@.len() as int,
                            ) == before_body.quad_queue@);
                            assert(after_body.quad_queue@[pos] == after_body.quad_queue@.subrange(
                                0,
                                before_body.quad_queue@.len() as int,
                            )[pos]);
                        } else {
                            assert(pos == after_body.quad_queue@.len());
                        }
                    }
                }
            }
            i = i + 1;
        }
        let ghost g_funcs = *self;
        proof {
            assert(program_ast.funcs@.take(n as int) =~= program_ast.funcs@);
        }
        let main_start_index = self.quad_queue.len() as i32;
        let ghost dir_before_main = self.function_directory.unwrap();
        match &mut self.function_directory {
            Some(dir) => {
                dir.set_function_start_quad("main", main_start_index);
            },
            None => {},
        }
        proof {
            let dir_after = self.function_directory.unwrap();
            assert(same_shape(dir_after.functions@, dir_before_main.functions@)) by {
                if has_name(dir_before_main.functions@, "main"@) {
                }
            }
            assert(same_shape(dir_after.functions@, dir0.functions@));
            if crate::function_directory::built_from(dir0, *program_ast) {
                let fs0 = dir_before_main.functions@;
                assert(fs0[2].0@ == "main"@);
                crate::function_directory::lemma_has_name_iff(fs0, "main"@);
                assert(has_name(fs0, "main"@));
                let k = choose|k: int|
                    {
                        &&& 0 <= k < fs0.len()
                        &&& (#[trigger] fs0[k]).0@ == "main"@
                        &&& find_by_name(fs0, "main"@) == Some(fs0[k].1)
                        &&& dir_after.functions@ == fs0.update(
                            k,
                            (
                                fs0[k].0,
                                (FunctionInfo {
                                    return_type: fs0[k].1.return_type,
                                    parameters: fs0[k].1.parameters,
                                    local_variables: fs0[k].1.local_variables,
                                    is_program: fs0[k].1.is_program,
                                    start_quad_idx: Some(main_start_index),
                                }),
                            ),
                        )
                    };
                assert(k == 2) by {
                    if k != 2 {
                        assert(fs0[k].0@ == fs0[2].0@);
                    }
                }
                assert(dir_after.functions@[2].0@ == "main"@);
                assert forall|j: int| 0 <= j < 2 implies dir_after.functions@[j].0@ != "main"@ by {
                    assert(dir_after.functions@[j].0@ == fs0[j].0@);
                    assert(fs0[j].0@ != fs0[2].0@);
                }
                crate::function_directory::lemma_find_by_name_at(dir_after.functions@, "main"@, 2);
                assert(find_by_name(dir_after.functions@, "main"@).unwrap().start_quad_idx == Some(
                    main_start_index,
                ));
                if p_wt && p_fits {
                    assert forall|j: int| 0 <= j < program_ast.funcs@.len() implies (
                    #[trigger] dir_after.functions@[3 + j]).1.start_quad_idx == Some(
                        fn_start_pos(program_ast.funcs@, j) as i32,
                    ) by {
                        assert(dir_after.functions@[3 + j] == fs0[3 + j]);
                        assert(fs0[3 + j].1.start_quad_idx == Some(
                            fn_start_pos(program_ast.funcs@, j) as i32,
                        ));
                    }
                }
            }
        }
        self.fill_jump(goto_main_quad_idx, main_start_index);
        proof {
            assert(self.quad_queue@[0].operation == OpCode::GOTO);
            assert(self.quad_queue@[0].result == main_start_index);
            if n == 0 {
                assert(main_start_index == 1);
                assert(abs_gen(*self).quads =~= clean_start().quads);
                assert(abs_gen(*self) =~= clean_start());
            }
        }
        self.enter_scope_internal(String::from_str("main"));
        let ghost before_main = *self;
        self.generate_from_statements(&program_ast.main_body);
        let ghost after_main = *self;
        proof {
            assert(self.quad_queue@.subrange(0, before_main.quad_queue@.len() as int)[0]
                == before_main.quad_queue@[0]);
            assert(self.quad_queue@[0].operation == OpCode::GOTO);
            assert(self.quad_queue@[0].result == main_start_index);
            if p_wt && p_fits {
                lemma_stmts_wt_same_shape(
                    dir0,
                    before_main.function_directory.unwrap(),
                    "main"@,
                    program_ast.main_body@,
                );
                assert(stmts_wt(
                    before_main.function_directory.unwrap(),
                    cur_scope(before_main),
                    program_ast.main_body@,
                ));
                assert(gen_room(before_main, stmts_weight(program_ast.main_body@)));
            }
        }
        self.emit(Quadruple::new(OpCode::HALT, -1, -1, -1));
        self.exit_scope_internal();
        proof {
            if p_wt && p_fits {
                assert(self.quad_queue@.len() == program_cost(*program_ast));
                assert(self.quad_queue@[0].operation == OpCode::GOTO);
                assert(self.quad_queue@[0].result == 1 + funcs_cost(program_ast.funcs@));
                assert(self.quad_queue@.last().operation == OpCode::HALT);
                if bf {
                    let fsf = self.function_directory.unwrap().functions@;
                    assert forall|k: int| 0 <= k < program_ast.funcs@.len() implies fsf[3
                        + k].0@ == (#[trigger] program_ast.funcs@[k]).id@ && fsf[3
                        + k].1.start_quad_idx == Some(fn_start_pos(program_ast.funcs@, k) as i32)
                        && find_by_name(fsf, program_ast.funcs@[k].id@) == Some(fsf[3 + k].1) by {
                        assert(same_shape(fsf, dir0.functions@));
                        assert(fsf[3 + k].0@ == dir0.functions@[3 + k].0@);
                        assert(fsf[3 + k].1.start_quad_idx == Some(
                            fn_start_pos(program_ast.funcs@, k) as i32,
                        ));
                        assert forall|j: int| 0 <= j < 3 + k implies fsf[j].0@
                            != program_ast.funcs@[k].id@ by {
                            assert(fsf[j].0@ != fsf[3 + k].0@);
                        }
                        crate::function_directory::lemma_find_by_name_at(
                            fsf,
                            program_ast.funcs@[k].id@,
                            3 + k,
                        );
                    }
                }
                assert forall|k: int| 0 <= k < program_ast.funcs@.len() implies 1
                    <= #[trigger] fn_end_pos(program_ast.funcs@, k) < self.quad_queue@.len()
                    && self.quad_queue@[fn_end_pos(program_ast.funcs@, k)].operation
                    == OpCode::ENDFUNC by {
                    let pos = fn_end_pos(program_ast.funcs@, k);
                    assert(g_funcs.quad_queue@[pos].operation == OpCode::ENDFUNC);
                    assert(pos < g_funcs.quad_queue@.len());
                    assert(before_main.quad_queue@[pos] == g_funcs.quad_queue@[pos]);
                    assert(after_main.quad_queue@.subrange(
                        0,
                        before_main.quad_queue@.len() as int,
                    ) == before_main.quad_queue@);
                    assert(after_main.quad_queue@[pos] == after_main.quad_queue@.subrange(
                        0,
                        before_main.quad_queue@.len() as int,
                    )[pos]);
                    assert(self.quad_queue@[pos] == after_main.quad_queue@[pos]);
                }
                if program_ast.funcs@.len() == 0 {
                    let dfin = self.function_directory.unwrap();
                    assert(abs_gen(before_main) == clean_start());
                    assert(cur_scope(before_main) == "main"@);
                    assert(before_main.function_directory.unwrap() == dfin);
                    let stm = gen_stmts(dfin, "main"@, clean_start(), program_ast.main_body@);
                    assert(abs_gen(*self) =~= (GenSt {
                        quads: stm.quads.push(
                            (Quadruple {
                                operation: OpCode::HALT,
                                arg1: -1i32,
                                arg2: -1i32,
                                result: -1i32,
                            }),
                        ),
                        ..stm
                    }));
                }
            }
        }
        Ok(())
    }

    /// The generated quadruples, in emission order.
    pub fn get_quadruples(&self) -> (r: &Vec<Quadruple>)
        ensures
            r@ == self.quad_queue@,
    {
        &self.quad_queue
    }

    /// The recorded diagnostics; a compilation with any recorded
    /// diagnostic is failed.
    pub fn get_errors(&self) -> (r: &Vec<String>)
        ensures
            r@ == self.errors@,
    {
        &self.errors
    }

    /// The integer constant pool as `(value, address)` pairs; the address
    /// of a slot is the pool base plus its index.
    pub fn get_int_constants(&self) -> (r: Vec<(i32, i32)>)
        requires
            gen_wf(*self),
        ensures
            r@.len() == self.int_constants@.len(),
            forall|k: int|
                0 <= k < r@.len() ==> #[trigger] r@[k] == (
                    self.int_constants@[k],
                    (MemoryAddresses::CTE_INT_START + k) as i32,
                ),
    {
        let mut out: Vec<(i32, i32)> = Vec::new();
        let n = self.int_constants.len();
        let mut i: usize = 0;
        while i < n
            invariant
                0 <= i <= n,
                n == self.int_constants@.len(),
                n <= CTE_INT_CAP,
                out@.len() == i,
                forall|k: int|
                    0 <= k < i ==> #[trigger] out@[k] == (
                        self.int_constants@[k],
                        (MemoryAddresses::CTE_INT_START + k) as i32,
                    ),
            decreases n - i,
        {
            out.push((self.int_constants[i], MemoryAddresses::CTE_INT_START + (i as i32)));
            i = i + 1;
        }
        out
    }

    /// The float constant pool as `(bit pattern, address)` pairs.
    pub fn get_float_constants(&self) -> (r: Vec<(u64, i32)>)
        requires
            gen_wf(*self),
        ensures
            r@.len() == self.float_constants@.len(),
            forall|k: int|
                0 <= k < r@.len() ==> #[trigger] r@[k] == (
                    self.float_constants@[k],
                    (MemoryAddresses::CTE_FLOAT_START + k) as i32,
                ),
    {
        let mut out: Vec<(u64, i32)> = Vec::new();
        let n = self.float_constants.len();
        let mut i: usize = 0;
        while i < n
            invariant
                0 <= i <= n,
                n == self.float_constants@.len(),
                n <= CTE_FLOAT_CAP,
                out@.len() == i,
                forall|k: int|
                    0 <= k < i ==> #[trigger] out@[k] == (
                        self.float_constants@[k],
                        (MemoryAddresses::CTE_FLOAT_START + k) as i32,
                    ),
            decreases n - i,
        {
            out.push((self.float_constants[i], MemoryAddresses::CTE_FLOAT_START + (i as i32)));
            i = i + 1;
        }
        out
    }

    /// The boolean literal slots as `(value, address)` pairs in the
    /// boolean temporary segment.
    pub fn get_bool_constants(&self) -> (r: Vec<(bool, i32)>)
        requires
            gen_wf(*self),
        ensures
            r@.len() == self.bool_constants@.len(),
            forall|k: int|
                0 <= k < r@.len() ==> #[trigger] r@[k] == (
                    self.bool_constants@[k],
                    (MemoryAddresses::TEMP_BOOL_START + k) as i32,
                ),
    {
        let mut out: Vec<(bool, i32)> = Vec::new();
        let n = self.bool_constants.len();
        let mut i: usize = 0;
        while i < n
            invariant
                0 <= i <= n,
                n == self.bool_constants@.len(),
                n <= 1000,
                out@.len() == i,
                forall|k: int|
                    0 <= k < i ==> #[trigger] out@[k] == (
                        self.bool_constants@[k],
                        (MemoryAddresses::TEMP_BOOL_START + k) as i32,
                    ),
            decreases n - i,
        {
            out.push((self.bool_constants[i], MemoryAddresses::TEMP_BOOL_START + (i as i32)));
            i = i + 1;
        }
        out
    }

    /// The pooled integer value at an address of the integer constant
    /// segment, when one is stored there.
    pub fn get_int_constant_value(&self, address: i32) -> (r: Option<i32>)
        ensures
            r == if MemoryAddresses::CTE_INT_START <= address < MemoryAddresses::CTE_FLOAT_START
                && address - MemoryAddresses::CTE_INT_START < self.int_constants@.len() {
                Some(self.int_constants@[address - MemoryAddresses::CTE_INT_START])
            } else {
                None::<i32>
            },
    {
        if address >= MemoryAddresses::CTE_INT_START && address < MemoryAddresses::CTE_FLOAT_START {
            let index = (address - MemoryAddresses::CTE_INT_START) as usize;
            if index < self.int_constants.len() {
                return Some(self.int_constants[index]);
            }
        }
        None
    }

    /// The pooled float bit pattern at an address of the float constant
    /// segment, when one is stored there.
    pub fn get_float_constant_value(&self, address: i32) -> (r: Option<u64>)
        ensures
            r == if MemoryAddresses::CTE_FLOAT_START <= address < MemoryAddresses::CTE_BOOL_START
                && address - MemoryAddresses::CTE_FLOAT_START < self.float_constants@.len() {
                Some(self.float_constants@[address - MemoryAddresses::CTE_FLOAT_START])
            } else {
                None::<u64>
            },
    {
        if address >= MemoryAddresses::CTE_FLOAT_START && address
            < MemoryAddresses::CTE_BOOL_START {
            let index = (address - MemoryAddresses::CTE_FLOAT_START) as usize;
            if index < self.float_constants.len() {
                return Some(self.float_constants[index]);
            }
        }
        None
    }

    /// The boolean literal value at an address of the boolean temporary
    /// segment, when one is recorded there.
    pub fn get_bool_constant_value(&self, address: i32) -> (r: Option<bool>)
        ensures
            r == if MemoryAddresses::TEMP_BOOL_START <= address < MemoryAddresses::TEMP_BOOL_END
                && address - MemoryAddresses::TEMP_BOOL_START < self.bool_constants@.len() {
                Some(self.bool_constants@[address - MemoryAddresses::TEMP_BOOL_START])
            } else {
                None::<bool>
            },
    {
        if address >= MemoryAddresses::TEMP_BOOL_START && address
            < MemoryAddresses::TEMP_BOOL_END {
            let index = (address - MemoryAddresses::TEMP_BOOL_START) as usize;
            if index < self.bool_constants.len() {
                return Some(self.bool_constants[index]);
            }
        }
        None
    }

    /// The generated quadruples rendered for display.
    pub fn get_quadruples_as_strings(&self) -> (r: Vec<String>)
        ensures
            r@.len() == self.quad_queue@.len(),
    {
        let mut out: Vec<String> = Vec::new();
        let n = self.quad_queue.len();
        let mut i: usize = 0;
        while i < n
            invariant
                0 <= i <= n,
                n == self.quad_queue@.len(),
                out@.len() == i,
            decreases n - i,
        {
            out.push(self.quad_queue[i].to_string());
            i = i + 1;
        }
        out
    }

    /// The scope name recorded for a starting instruction index, when some
    /// scope starts there.
    pub fn get_function_name_by_start_idx(&self, start_idx: i32) -> (r: Option<String>)
        requires
            self.function_directory is Some,
        ensures
            match r {
                Some(name) => exists|k: int|
                    0 <= k < self.function_directory.unwrap().functions@.len() && (
                    #[trigger] self.function_directory.unwrap().functions@[k]).1.start_quad_idx
                        == Some(start_idx) && self.function_directory.unwrap().functions@[k].0@
                        == name@,
                None => forall|k: int|
                    0 <= k < self.function_directory.unwrap().functions@.len() ==> (
                    #[trigger] self.function_directory.unwrap().functions@[k]).1.start_quad_idx
                        != Some(start_idx),
            },
    {
        let dir = match &self.function_directory {
            Some(d) => d,
            None => {
                return None;
            },
        };
        let fns = dir.get_all_functions();
        let n = fns.len();
        let mut i: usize = 0;
        while i < n
            invariant
                0 <= i <= n,
                n == fns@.len(),
                fns@ == self.function_directory.unwrap().functions@,
                forall|k: int|
                    0 <= k < i ==> (#[trigger] fns@[k]).1.start_quad_idx != Some(start_idx),
            decreases n - i,
        {
            match fns[i].1.start_quad_idx {
                Some(st) => {
                    if st == start_idx {
                        return Some(fns[i].0.clone());
                    }
                },
                None => {},
            }
            i = i + 1;
        }
        None
    }

    /// The display name of an address: the scope-qualified variable or
    /// parameter bound to it, a temporary's tag, a pooled constant's
    /// value, or the bare address; `-1` displays as `-`.
    pub fn get_name_by_address(&self, address: i32) -> (s: String)
        requires
            gen_wf(*self),
        ensures
            address == -1 ==> s@ == "-"@,
    {
        if address == -1 {
            proof {
                reveal_strlit("-");
            }
            return String::from_str("-");
        }
        if let Some(dir) = &self.function_directory {
            let fns = dir.get_all_functions();
            let n = fns.len();
            let mut i: usize = 0;
            while i < n
                invariant
                    n == fns@.len(),
                    address != -1,
                decreases n - i,
            {
                let info = &fns[i].1;
                let nl = info.local_variables.len();
                let mut j: usize = 0;
                while j < nl
                    invariant
                        i < n,
                        n == fns@.len(),
                        address != -1,
                        nl == info.local_variables@.len(),
                    decreases nl - j,
                {
                    if info.local_variables[j].1.address == address {
                        let mut s = fns[i].0.clone();
                        s.append(".");
                        s.append(info.local_variables[j].0.as_str());
                        s.append(" (");
                        s.append(i32_string(address).as_str());
                        s.append(")");
                        return s;
                    }
                    j = j + 1;
                }
                let np = info.parameters.len();
                let mut k: usize = 0;
                while k < np
                    invariant
                        i < n,
                        n == fns@.len(),
                        address != -1,
                        np == info.parameters@.len(),
                    decreases np - k,
                {
                    if info.parameters[k].2 == address {
                        let mut s = fns[i].0.clone();
                        s.append(".");
                        s.append(info.parameters[k].0.as_str());
                        s.append(" (param) (");
                        s.append(i32_string(address).as_str());
                        s.append(")");
                        return s;
                    }
                    k = k + 1;
                }
                i = i + 1;
            }
        }
        if address >= MemoryAddresses::TEMP_INT_START && address
            < MemoryAddresses::TEMP_FLOAT_START {
            let mut s = String::from_str("t_int");
            s.append(i32_string(address - MemoryAddresses::TEMP_INT_START).as_str());
            s.append(" (");
            s.append(i32_string(address).as_str());
            s.append(")");
            return s;
        }
        if address >= MemoryAddresses::TEMP_FLOAT_START && address
            < MemoryAddresses::TEMP_BOOL_START {
            let mut s = String::from_str("t_float");
            s.append(i32_string(address - MemoryAddresses::TEMP_FLOAT_START).as_str());
            s.append(" (");
            s.append(i32_string(address).as_str());
            s.append(")");
            return s;
        }
        if address >= MemoryAddresses::TEMP_BOOL_START && address
            < MemoryAddresses::TEMP_BOOL_END {
            let mut s = String::from_str("t_bool");
            s.append(i32_string(address - MemoryAddresses::TEMP_BOOL_START).as_str());
            s.append(" (");
            s.append(i32_string(address).as_str());
            s.append(")");
            return s;
        }
        match self.get_int_constant_value(address) {
            Some(v) => {
                let mut s = i32_string(v);
                s.append(" (cte_int) (");
                s.append(i32_string(address).as_str());
                s.append(")");
                return s;
            },
            None => {},
        }
        match self.get_float_constant_value(address) {
            Some(_) => {
                let mut s = String::from_str("cte_float (");
                s.append(i32_string(address).as_str());
                s.append(")");
                return s;
            },
            None => {},
        }
        let mut s = String::from_str("addr:");
        s.append(i32_string(address).as_str());
        s
    }

    /// The variables visible for display in the current scope: its locals
    /// and parameters, then the globals they do not shadow.
    pub fn get_variables(&self) -> (r: Vec<(String, i32)>)
        requires
            gen_wf(*self),
            self.function_directory is Some,
        ensures
            (match find_by_name(
                self.function_directory.unwrap().functions@,
                cur_scope(*self),
            ) {
                Some(fi) => r@.len() >= fi.local_variables@.len() + fi.parameters@.len(),
                None => true,
            }),
    {
        let mut vars: Vec<(String, i32)> = Vec::new();
        let scope = self.current_scope();
        let dir = match &self.function_directory {
            Some(d) => d,
            None => {
                return vars;
            },
        };
        match dir.get_function(scope.as_str()) {
            Some(info) => {
                let nl = info.local_variables.len();
                let mut j: usize = 0;
                while j < nl
                    invariant
                        j <= nl,
                        nl == info.local_variables@.len(),
                        vars@.len() == j,
                    decreases nl - j,
                {
                    vars.push(
                        (info.local_variables[j].0.clone(), info.local_variables[j].1.address),
                    );
                    j = j + 1;
                }
                let np = info.parameters.len();
                let mut k: usize = 0;
                while k < np
                    invariant
                        k <= np,
                        nl == info.local_variables@.len(),
                        np == info.parameters@.len(),
                        vars@.len() == nl + k,
                    decreases np - k,
                {
                    vars.push((info.parameters[k].0.clone(), info.parameters[k].2));
                    k = k + 1;
                }
            },
            None => {},
        }
        let ghost base_len = vars@.len();
        if !str_eq(scope.as_str(), "global") {
            match dir.get_global_variables() {
                Some(globals) => {
                    let ng = globals.len();
                    let mut g: usize = 0;
                    while g < ng
                        invariant
                            ng == globals@.len(),
                            vars@.len() >= base_len,
                        decreases ng - g,
                    {
                        let name = &globals[g].0;
                        let mut shadowed = false;
                        let nv = vars.len();
                        let mut v: usize = 0;
                        while v < nv
                            invariant
                                nv == vars@.len(),
                        decreases nv - v,
                        {
                            if str_eq(vars[v].0.as_str(), name.as_str()) {
                                shadowed = true;
                            }
                            v = v + 1;
                        }
                        if !shadowed {
                            vars.push((name.clone(), globals[g].1.address));
                        }
                        g = g + 1;
                    }
                },
                None => {},
            }
        }
        vars
    }

    /// The generated quadruples rendered with names in place of addresses.
    pub fn get_quadruples_as_strings_with_names(&self) -> (r: Vec<String>)
        requires
            gen_wf(*self),
            self.function_directory is Some,
        ensures
            r@.len() == self.quad_queue@.len(),
    {
        let mut out: Vec<String> = Vec::new();
        let n = self.quad_queue.len();
        let mut i: usize = 0;
        while i < n
            invariant
                0 <= i <= n,
                n == self.quad_queue@.len(),
                out@.len() == i,
                gen_wf(*self),
                self.function_directory is Some,
            decreases n - i,
        {
            let q = self.quad_queue[i];
            out.push(q.to_string_with_names(self));
            i = i + 1;
        }
        out
    }
}

impl Quadruple {
    /// Renders the quadruple with names in place of addresses: jump
    /// targets and parameter indices stay numeric; `ERA` and `GOSUB` show
    /// the callee's name when its start index is recorded.
    pub fn to_string_with_names(&self, qg: &QuadrupleGenerator) -> (s: String)
        requires
            gen_wf(*qg),
            qg.function_directory is Some,
        ensures
            s@.len() >= 2,
            s@[0] == '(',
            s@.last() == ')',
    {
        proof {
            reveal_strlit("(");
            reveal_strlit(")");
        }
    let q = self;
    let op_str = crate::quadruples::op_str_of(q.operation);
    let arg1_name = if q.operation == OpCode::ERA || q.operation == OpCode::GOSUB {
        match qg.get_function_name_by_start_idx(q.arg1) {
            Some(name) => name,
            None => qg.get_name_by_address(q.arg1),
        }
    } else {
        qg.get_name_by_address(q.arg1)
    };
    let result_name = if q.operation == OpCode::PARAM || q.operation == OpCode::GOTO || q.operation
        == OpCode::GOTOF || q.operation == OpCode::GOTOT {
        crate::quadruples::i32_string(q.result)
    } else {
        qg.get_name_by_address(q.result)
    };
    let arg2_name = qg.get_name_by_address(q.arg2);
    let mut s = String::from_str("(");
    s.append(op_str);
    s.append(", ");
    s.append(arg1_name.as_str());
    s.append(", ");
    s.append(arg2_name.as_str());
    s.append(", ");
    s.append(result_name.as_str());
    s.append(")");
    s
    }
}

/// Quadruples the non-entry procedures emit: each body's cost plus its
/// terminating `ENDFUNC`.
pub open spec fn funcs_cost(fs: Seq<FunctionDeclaration>) -> nat
    decreases fs,
{
    if fs.len() == 0 {
        0
    } else {
        stmts_cost(fs[0].body@) + 1 + funcs_cost(fs.drop_first())
    }
}

/// Resource weight of the non-entry procedures.
pub open spec fn funcs_weight(fs: Seq<FunctionDeclaration>) -> nat
    decreases fs,
{
    if fs.len() == 0 {
        0
    } else {
        stmts_weight(fs[0].body@) + 1 + funcs_weight(fs.drop_first())
    }
}

/// Every procedure body is well typed in its own scope.
pub open spec fn funcs_wt(d: FunctionDirectory, fs: Seq<FunctionDeclaration>) -> bool
    decreases fs,
{
    if fs.len() == 0 {
        true
    } else {
        stmts_wt(d, fs[0].id@, fs[0].body@) && funcs_wt(d, fs.drop_first())
    }
}

/// The whole program is well typed: every procedure body in its scope and
/// the main body in `main`.
pub open spec fn program_wt(d: FunctionDirectory, p: Program) -> bool {
    funcs_wt(d, p.funcs@) && stmts_wt(d, "main"@, p.main_body@)
}

/// Quadruples a well-typed program compiles to: the reserved `GOTO`, the
/// procedure section, the main body, and the trailing `HALT`.
pub open spec fn program_cost(p: Program) -> nat {
    1 + funcs_cost(p.funcs@) + stmts_cost(p.main_body@) + 1
}

/// Resource weight of the whole program.
pub open spec fn program_weight(p: Program) -> nat {
    2 + funcs_weight(p.funcs@) + stmts_weight(p.main_body@)
}

/// The program fits the generator's pools and segments; the float constant
/// pool is the tightest of them.
pub open spec fn program_fits_gen(p: Program) -> bool {
    program_weight(p) <= CTE_FLOAT_CAP
}

/// Splitting a procedure list splits its weight.
pub proof fn lemma_funcs_weight_split(fs: Seq<FunctionDeclaration>, i: int)
    requires
        0 <= i <= fs.len(),
    ensures
        funcs_weight(fs) == funcs_weight(fs.take(i)) + funcs_weight(fs.skip(i)),
    decreases i,
{
    if i == 0 {
        assert(fs.take(0) =~= Seq::<FunctionDeclaration>::empty());
        assert(fs.skip(0) =~= fs);
    } else {
        lemma_funcs_weight_split(fs.drop_first(), i - 1);
        assert(fs.take(i).drop_first() =~= fs.drop_first().take(i - 1));
        assert(fs.skip(i) =~= fs.drop_first().skip(i - 1));
        assert(funcs_weight(fs.take(i)) == stmts_weight(fs.take(i)[0].body@) + 1 + funcs_weight(
            fs.take(i).drop_first(),
        ));
    }
}

/// A longer procedure prefix weighs one more procedure.
pub proof fn lemma_funcs_weight_take_step(fs: Seq<FunctionDeclaration>, i: int)
    requires
        0 <= i < fs.len(),
    ensures
        funcs_weight(fs.take(i + 1)) == funcs_weight(fs.take(i)) + stmts_weight(fs[i].body@) + 1,
    decreases i,
{
    if i == 0 {
        assert(fs.take(1).drop_first() =~= Seq::<FunctionDeclaration>::empty());
        assert(fs.take(0) =~= Seq::<FunctionDeclaration>::empty());
        assert(fs.take(1)[0] == fs[0]);
    } else {
        lemma_funcs_weight_take_step(fs.drop_first(), i - 1);
        assert(fs.take(i + 1).drop_first() =~= fs.drop_first().take(i));
        assert(fs.take(i).drop_first() =~= fs.drop_first().take(i - 1));
        assert(fs.take(i + 1)[0] == fs[0]);
        assert(fs.take(i)[0] == fs[0]);
        assert(fs.drop_first()[i - 1] == fs[i]);
    }
}

/// A longer procedure prefix costs one more procedure.
pub proof fn lemma_funcs_cost_take_step(fs: Seq<FunctionDeclaration>, i: int)
    requires
        0 <= i < fs.len(),
    ensures
        funcs_cost(fs.take(i + 1)) == funcs_cost(fs.take(i)) + stmts_cost(fs[i].body@) + 1,
    decreases i,
{
    if i == 0 {
        assert(fs.take(1).drop_first() =~= Seq::<FunctionDeclaration>::empty());
        assert(fs.take(0) =~= Seq::<FunctionDeclaration>::empty());
        assert(fs.take(1)[0] == fs[0]);
    } else {
        lemma_funcs_cost_take_step(fs.drop_first(), i - 1);
        assert(fs.take(i + 1).drop_first() =~= fs.drop_first().take(i));
        assert(fs.take(i).drop_first() =~= fs.drop_first().take(i - 1));
        assert(fs.take(i + 1)[0] == fs[0]);
        assert(fs.take(i)[0] == fs[0]);
        assert(fs.drop_first()[i - 1] == fs[i]);
    }
}

/// Every body of a well-typed procedure list is well typed in its scope.
pub proof fn lemma_funcs_wt_at(d: FunctionDirectory, fs: Seq<FunctionDeclaration>, i: int)
    requires
        0 <= i < fs.len(),
        funcs_wt(d, fs),
    ensures
        stmts_wt(d, fs[i].id@, fs[i].body@),
    decreases i,
{
    if i > 0 {
        lemma_funcs_wt_at(d, fs.drop_first(), i - 1);
        assert(fs.drop_first()[i - 1] == fs[i]);
    }
}

/// Splitting a statement list splits its weight.
pub proof fn lemma_stmts_weight_split(ss: Seq<Statement>, i: int)
    requires
        0 <= i <= ss.len(),
    ensures
        stmts_weight(ss) == stmts_weight(ss.take(i)) + stmts_weight(ss.skip(i)),
    decreases i,
{
    if i == 0 {
        assert(ss.take(0) =~= Seq::<Statement>::empty());
        assert(ss.skip(0) =~= ss);
    } else {
        lemma_stmts_weight_split(ss.drop_first(), i - 1);
        assert(ss.take(i).drop_first() =~= ss.drop_first().take(i - 1));
        assert(ss.skip(i) =~= ss.drop_first().skip(i - 1));
        assert(stmts_weight(ss.take(i)) == stmt_weight(ss.take(i)[0]) + stmts_weight(
            ss.take(i).drop_first(),
        ));
    }
}

/// A longer statement prefix weighs one more statement.
pub proof fn lemma_stmts_weight_take_step(ss: Seq<Statement>, i: int)
    requires
        0 <= i < ss.len(),
    ensures
        stmts_weight(ss.take(i + 1)) == stmts_weight(ss.take(i)) + stmt_weight(ss[i]),
    decreases i,
{
    if i == 0 {
        assert(ss.take(1).drop_first() =~= Seq::<Statement>::empty());
        assert(ss.take(0) =~= Seq::<Statement>::empty());
        assert(ss.take(1)[0] == ss[0]);
    } else {
        lemma_stmts_weight_take_step(ss.drop_first(), i - 1);
        assert(ss.take(i + 1).drop_first() =~= ss.drop_first().take(i));
        assert(ss.take(i).drop_first() =~= ss.drop_first().take(i - 1));
        assert(ss.take(i + 1)[0] == ss[0]);
        assert(ss.take(i)[0] == ss[0]);
        assert(ss.drop_first()[i - 1] == ss[i]);
    }
}

/// A longer statement prefix costs one more statement.
pub proof fn lemma_stmts_cost_take_step(ss: Seq<Statement>, i: int)
    requires
        0 <= i < ss.len(),
    ensures
        stmts_cost(ss.take(i + 1)) == stmts_cost(ss.take(i)) + stmt_cost(ss[i]),
    decreases i,
{
    if i == 0 {
        assert(ss.take(1).drop_first() =~= Seq::<Statement>::empty());
        assert(ss.take(0) =~= Seq::<Statement>::empty());
        assert(ss.take(1)[0] == ss[0]);
    } else {
        lemma_stmts_cost_take_step(ss.drop_first(), i - 1);
        assert(ss.take(i + 1).drop_first() =~= ss.drop_first().take(i));
        assert(ss.take(i).drop_first() =~= ss.drop_first().take(i - 1));
        assert(ss.take(i + 1)[0] == ss[0]);
        assert(ss.take(i)[0] == ss[0]);
        assert(ss.drop_first()[i - 1] == ss[i]);
    }
}

/// Every statement of a well-typed list is well typed.
pub proof fn lemma_stmts_wt_at(ss: Seq<Statement>, i: int)
    requires
        0 <= i < ss.len(),
    ensures
        forall|d: FunctionDirectory, scope: Seq<char>|
            stmts_wt(d, scope, ss) ==> #[trigger] stmt_wt(d, scope, ss[i]),
    decreases i,
{
    if i == 0 {
    } else {
        lemma_stmts_wt_at(ss.drop_first(), i - 1);
        assert forall|d: FunctionDirectory, scope: Seq<char>|
            stmts_wt(d, scope, ss) implies #[trigger] stmt_wt(d, scope, ss[i]) by {
            assert(ss.drop_first()[i - 1] == ss[i]);
            assert(stmts_wt(d, scope, ss.drop_first()));
        }
    }
}

/// Splitting an argument list splits its weight.
pub proof fn lemma_exprs_weight_split(es: Seq<Expression>, i: int)
    requires
        0 <= i <= es.len(),
    ensures
        exprs_weight(es) == exprs_weight(es.take(i)) + exprs_weight(es.skip(i)),
    decreases i,
{
    if i == 0 {
        assert(es.take(0) =~= Seq::<Expression>::empty());
        assert(es.skip(0) =~= es);
    } else {
        lemma_exprs_weight_split(es.drop_first(), i - 1);
        assert(es.take(i).drop_first() =~= es.drop_first().take(i - 1));
        assert(es.skip(i) =~= es.drop_first().skip(i - 1));
        assert(exprs_weight(es.take(i)) == expr_size(es.take(i)[0]) + 1 + exprs_weight(
            es.take(i).drop_first(),
        ));
    }
}

/// A longer argument prefix weighs one more argument.
pub proof fn lemma_exprs_weight_take_step(es: Seq<Expression>, i: int)
    requires
        0 <= i < es.len(),
    ensures
        exprs_weight(es.take(i + 1)) == exprs_weight(es.take(i)) + expr_size(es[i]) + 1,
    decreases i,
{
    if i == 0 {
        assert(es.take(1).drop_first() =~= Seq::<Expression>::empty());
        assert(es.take(0) =~= Seq::<Expression>::empty());
        assert(es.take(1)[0] == es[0]);
    } else {
        lemma_exprs_weight_take_step(es.drop_first(), i - 1);
        assert(es.take(i + 1).drop_first() =~= es.drop_first().take(i));
        assert(es.take(i).drop_first() =~= es.drop_first().take(i - 1));
        assert(es.take(i + 1)[0] == es[0]);
        assert(es.take(i)[0] == es[0]);
        assert(es.drop_first()[i - 1] == es[i]);
    }
}

/// An argument list weighs at least one per argument.
pub proof fn lemma_exprs_weight_ge_len(es: Seq<Expression>)
    ensures
        exprs_weight(es) >= es.len(),
    decreases es,
{
    if es.len() > 0 {
        lemma_exprs_weight_ge_len(es.drop_first());
    }
}

/// Splitting an argument list splits its cost.
pub proof fn lemma_exprs_cost_split(es: Seq<Expression>, i: int)
    requires
        0 <= i <= es.len(),
    ensures
        exprs_cost(es) == exprs_cost(es.take(i)) + exprs_cost(es.skip(i)),
    decreases i,
{
    if i == 0 {
        assert(es.take(0) =~= Seq::<Expression>::empty());
        assert(es.skip(0) =~= es);
    } else {
        lemma_exprs_cost_split(es.drop_first(), i - 1);
        assert(es.take(i).drop_first() =~= es.drop_first().take(i - 1));
        assert(es.skip(i) =~= es.drop_first().skip(i - 1));
        assert(exprs_cost(es.take(i)) == expr_cost(es.take(i)[0]) + 1 + exprs_cost(
            es.take(i).drop_first(),
        ));
    }
}

/// A longer argument prefix costs one more argument.
pub proof fn lemma_exprs_cost_take_step(es: Seq<Expression>, i: int)
    requires
        0 <= i < es.len(),
    ensures
        exprs_cost(es.take(i + 1)) == exprs_cost(es.take(i)) + expr_cost(es[i]) + 1,
    decreases i,
{
    if i == 0 {
        assert(es.take(1).drop_first() =~= Seq::<Expression>::empty());
        assert(es.take(0) =~= Seq::<Expression>::empty());
        assert(es.take(1)[0] == es[0]);
    } else {
        lemma_exprs_cost_take_step(es.drop_first(), i - 1);
        assert(es.take(i + 1).drop_first() =~= es.drop_first().take(i));
        assert(es.take(i).drop_first() =~= es.drop_first().take(i - 1));
        assert(es.take(i + 1)[0] == es[0]);
        assert(es.take(i)[0] == es[0]);
        assert(es.drop_first()[i - 1] == es[i]);
    }
}

/// Well-typedness of one statement: expressions type, assignment targets
/// and callees resolve, and call arity matches the declaration.
pub open spec fn stmt_wt(d: FunctionDirectory, scope: Seq<char>, s: Statement) -> bool
    decreases s,
{
    match s {
        Statement::Assignment(a) => expr_wt(d, scope, a.expression) && resolve_var(
            d,
            scope,
            a.id@,
        ) is Some,
        Statement::Print(p) => match p {
            PrintStatement::Expression(e) => expr_wt(d, scope, e),
            PrintStatement::StringLiteral(_) => true,
        },
        Statement::Condition(c) => {
            &&& expr_wt(d, scope, c.condition)
            &&& stmts_wt(d, scope, c.if_body@)
            &&& match c.else_body {
                Some(e) => stmts_wt(d, scope, e@),
                None => true,
            }
        },
        Statement::Cycle(c) => expr_wt(d, scope, c.condition) && stmts_wt(d, scope, c.body@),
        Statement::FunctionCall(f) => {
            &&& match find_by_name(d.functions@, f.id@) {
                Some(fi) => fi.parameters@.len() == f.arguments@.len(),
                None => false,
            }
            &&& exprs_wt(d, scope, f.arguments@)
        },
    }
}

/// Well-typedness of a statement list.
pub open spec fn stmts_wt(d: FunctionDirectory, scope: Seq<char>, ss: Seq<Statement>) -> bool
    decreases ss,
{
    if ss.len() == 0 {
        true
    } else {
        stmt_wt(d, scope, ss[0]) && stmts_wt(d, scope, ss.drop_first())
    }
}

/// Well-typedness of an expression list.
pub open spec fn exprs_wt(d: FunctionDirectory, scope: Seq<char>, es: Seq<Expression>) -> bool {
    forall|k: int| 0 <= k < es.len() ==> expr_wt(d, scope, #[trigger] es[k])
}

/// Quadruples a well-typed statement emits.
pub open spec fn stmt_cost(s: Statement) -> nat
    decreases s,
{
    match s {
        Statement::Assignment(a) => expr_cost(a.expression) + 1,
        Statement::Print(p) => match p {
            PrintStatement::Expression(e) => expr_cost(e) + 1,
            PrintStatement::StringLiteral(_) => 1,
        },
        Statement::Condition(c) => {
            expr_cost(c.condition) + 1 + stmts_cost(c.if_body@) + match c.else_body {
                Some(e) => 1 + stmts_cost(e@),
                None => 0nat,
            }
        },
        Statement::Cycle(c) => expr_cost(c.condition) + 1 + stmts_cost(c.body@) + 1,
        Statement::FunctionCall(f) => 2 + exprs_cost(f.arguments@),
    }
}

/// Quadruples a well-typed statement list emits.
pub open spec fn stmts_cost(ss: Seq<Statement>) -> nat
    decreases ss,
{
    if ss.len() == 0 {
        0
    } else {
        stmt_cost(ss[0]) + stmts_cost(ss.drop_first())
    }
}

/// Quadruples a call's arguments emit: each argument's cost plus its PARAM.
pub open spec fn exprs_cost(es: Seq<Expression>) -> nat
    decreases es,
{
    if es.len() == 0 {
        0
    } else {
        expr_cost(es[0]) + 1 + exprs_cost(es.drop_first())
    }
}

/// Resource weight of one statement: an upper bound on everything it may
/// allocate.
pub open spec fn stmt_weight(s: Statement) -> nat
    decreases s,
{
    match s {
        Statement::Assignment(a) => expr_size(a.expression) + 1,
        Statement::Print(p) => match p {
            PrintStatement::Expression(e) => expr_size(e) + 1,
            PrintStatement::StringLiteral(_) => 1,
        },
        Statement::Condition(c) => {
            expr_size(c.condition) + 2 + stmts_weight(c.if_body@) + match c.else_body {
                Some(e) => stmts_weight(e@),
                None => 0nat,
            }
        },
        Statement::Cycle(c) => expr_size(c.condition) + 2 + stmts_weight(c.body@),
        Statement::FunctionCall(f) => 2 + exprs_weight(f.arguments@),
    }
}

/// Resource weight of a statement list.
pub open spec fn stmts_weight(ss: Seq<Statement>) -> nat
    decreases ss,
{
    if ss.len() == 0 {
        0
    } else {
        stmt_weight(ss[0]) + stmts_weight(ss.drop_first())
    }
}

/// Resource weight of a call's arguments.
pub open spec fn exprs_weight(es: Seq<Expression>) -> nat
    decreases es,
{
    if es.len() == 0 {
        0
    } else {
        expr_size(es[0]) + 1 + exprs_weight(es.drop_first())
    }
}

/// A statement's cost never exceeds its weight.
pub proof fn lemma_stmt_cost_le_weight(s: Statement)
    ensures
        stmt_cost(s) <= stmt_weight(s),
    decreases s,
{
    match s {
        Statement::Assignment(a) => {
            lemma_expr_cost_le_size(a.expression);
        },
        Statement::Print(p) => {
            match p {
                PrintStatement::Expression(e) => {
                    lemma_expr_cost_le_size(e);
                },
                PrintStatement::StringLiteral(_) => {},
            }
        },
        Statement::Condition(c) => {
            lemma_expr_cost_le_size(c.condition);
            lemma_stmts_cost_le_weight(c.if_body@);
            match c.else_body {
                Some(e) => {
                    lemma_stmts_cost_le_weight(e@);
                },
                None => {},
            }
        },
        Statement::Cycle(c) => {
            lemma_expr_cost_le_size(c.condition);
            lemma_stmts_cost_le_weight(c.body@);
        },
        Statement::FunctionCall(f) => {
            lemma_exprs_cost_le_weight(f.arguments@);
        },
    }
}

/// A statement list's cost never exceeds its weight.
pub proof fn lemma_stmts_cost_le_weight(ss: Seq<Statement>)
    ensures
        stmts_cost(ss) <= stmts_weight(ss),
    decreases ss,
{
    if ss.len() > 0 {
        lemma_stmt_cost_le_weight(ss[0]);
        lemma_stmts_cost_le_weight(ss.drop_first());
    }
}

/// An argument list's cost never exceeds its weight.
pub proof fn lemma_exprs_cost_le_weight(es: Seq<Expression>)
    ensures
        exprs_cost(es) <= exprs_weight(es),
    decreases es,
{
    if es.len() > 0 {
        lemma_expr_cost_le_size(es[0]);
        lemma_exprs_cost_le_weight(es.drop_first());
    }
}

/// Two directories have the same shape: equal scope names, parameters,
/// locals, and entry flags; only recorded start indices may differ.
pub open spec fn same_shape(
    a: Seq<(String, FunctionInfo)>,
    b: Seq<(String, FunctionInfo)>,
) -> bool {
    &&& a.len() == b.len()
    &&& forall|k: int|
        0 <= k < a.len() ==> (#[trigger] a[k]).0@ == (#[trigger] b[k]).0@ && a[k].1.parameters
            == b[k].1.parameters && a[k].1.local_variables == b[k].1.local_variables
            && a[k].1.is_program == b[k].1.is_program
}

/// Same-shape directories resolve every name alike.
pub proof fn lemma_find_same_shape(
    a: Seq<(String, FunctionInfo)>,
    b: Seq<(String, FunctionInfo)>,
    name: Seq<char>,
)
    requires
        same_shape(a, b),
    ensures
        match (find_by_name(a, name), find_by_name(b, name)) {
            (Option::None, Option::None) => true,
            (Option::Some(x), Option::Some(y)) => x.parameters == y.parameters
                && x.local_variables == y.local_variables,
            _ => false,
        },
    decreases a.len(),
{
    if a.len() > 0 {
        assert(a[0].0@ == b[0].0@);
        assert forall|k: int|
            0 <= k < a.drop_first().len() implies (#[trigger] a.drop_first()[k]).0@ == (
        #[trigger] b.drop_first()[k]).0@ && a.drop_first()[k].1.parameters
            == b.drop_first()[k].1.parameters && a.drop_first()[k].1.local_variables
            == b.drop_first()[k].1.local_variables && a.drop_first()[k].1.is_program
            == b.drop_first()[k].1.is_program by {
            assert(a.drop_first()[k] == a[k + 1]);
            assert(b.drop_first()[k] == b[k + 1]);
        }
        lemma_find_same_shape(a.drop_first(), b.drop_first(), name);
    }
}

/// Same-shape directories resolve every variable alike.
pub proof fn lemma_resolve_same_shape(
    da: FunctionDirectory,
    db: FunctionDirectory,
    scope: Seq<char>,
    name: Seq<char>,
)
    requires
        same_shape(da.functions@, db.functions@),
    ensures
        resolve_var(da, scope, name) == resolve_var(db, scope, name),
{
    lemma_find_same_shape(da.functions@, db.functions@, scope);
    lemma_find_same_shape(da.functions@, db.functions@, "global"@);
}

/// Same-shape directories type every expression alike.
pub proof fn lemma_expr_type_same_shape(
    da: FunctionDirectory,
    db: FunctionDirectory,
    scope: Seq<char>,
    e: Expression,
)
    requires
        same_shape(da.functions@, db.functions@),
    ensures
        expr_type(da, scope, e) == expr_type(db, scope, e),
    decreases e,
{
    match e {
        Expression::BinaryOp { left, right, .. } => {
            lemma_expr_type_same_shape(da, db, scope, *left);
            lemma_expr_type_same_shape(da, db, scope, *right);
        },
        Expression::Identifier(id) => {
            lemma_resolve_same_shape(da, db, scope, id@);
        },
        _ => {},
    }
}

/// Same-shape directories accept every statement alike.
pub proof fn lemma_stmt_wt_same_shape(
    da: FunctionDirectory,
    db: FunctionDirectory,
    scope: Seq<char>,
    s: Statement,
)
    requires
        same_shape(da.functions@, db.functions@),
    ensures
        stmt_wt(da, scope, s) == stmt_wt(db, scope, s),
    decreases s,
{
    match s {
        Statement::Assignment(a) => {
            lemma_expr_type_same_shape(da, db, scope, a.expression);
            lemma_resolve_same_shape(da, db, scope, a.id@);
        },
        Statement::Print(p) => {
            match p {
                PrintStatement::Expression(e) => {
                    lemma_expr_type_same_shape(da, db, scope, e);
                },
                PrintStatement::StringLiteral(_) => {},
            }
        },
        Statement::Condition(c) => {
            lemma_expr_type_same_shape(da, db, scope, c.condition);
            lemma_stmts_wt_same_shape(da, db, scope, c.if_body@);
            match c.else_body {
                Some(e) => {
                    lemma_stmts_wt_same_shape(da, db, scope, e@);
                },
                None => {},
            }
        },
        Statement::Cycle(c) => {
            lemma_expr_type_same_shape(da, db, scope, c.condition);
            lemma_stmts_wt_same_shape(da, db, scope, c.body@);
        },
        Statement::FunctionCall(f) => {
            lemma_find_same_shape(da.functions@, db.functions@, f.id@);
            assert forall|k: int| 0 <= k < f.arguments@.len() implies expr_wt(
                da,
                scope,
                #[trigger] f.arguments@[k],
            ) == expr_wt(db, scope, f.arguments@[k]) by {
                lemma_expr_type_same_shape(da, db, scope, f.arguments@[k]);
            }
        },
    }
}

/// Same-shape directories accept every statement list alike.
pub proof fn lemma_stmts_wt_same_shape(
    da: FunctionDirectory,
    db: FunctionDirectory,
    scope: Seq<char>,
    ss: Seq<Statement>,
)
    requires
        same_shape(da.functions@, db.functions@),
    ensures
        stmts_wt(da, scope, ss) == stmts_wt(db, scope, ss),
    decreases ss,
{
    if ss.len() > 0 {
        lemma_stmt_wt_same_shape(da, db, scope, ss[0]);
        lemma_stmts_wt_same_shape(da, db, scope, ss.drop_first());
    }
}

/// Room for `n` more temporaries in every temporary segment.
pub open spec fn temp_room(g: QuadrupleGenerator, n: nat) -> bool {
    &&& g.temp_int_counter + n <= MemoryAddresses::TEMP_FLOAT_START
    &&& g.temp_float_counter + n <= MemoryAddresses::TEMP_BOOL_START
    &&& g.temp_bool_counter + n <= MemoryAddresses::TEMP_BOOL_END
}

/// The generator's temporary counter for a result type.
pub open spec fn temp_counter_of(g: QuadrupleGenerator, t: Type) -> i32 {
    match t {
        Type::Int => g.temp_int_counter,
        Type::Float => g.temp_float_counter,
        Type::Bool => g.temp_bool_counter,
    }
}

/// The operator of an arithmetic or comparison operation code.
pub open spec fn op_of_code(c: i32) -> Operator {
    if c == OpCode::SUB {
        Operator::Minus
    } else if c == OpCode::MULT {
        Operator::Multiply
    } else if c == OpCode::DIV {
        Operator::Divide
    } else if c == OpCode::GT {
        Operator::GreaterThan
    } else if c == OpCode::LT {
        Operator::LessThan
    } else if c == OpCode::EQ {
        Operator::Equal
    } else if c == OpCode::NEQ {
        Operator::NotEqual
    } else {
        Operator::Plus
    }
}

/// A multiply-or-divide operation code.
pub open spec fn is_md_code(c: i32) -> bool {
    c == OpCode::MULT || c == OpCode::DIV
}

/// An add-or-subtract operation code.
pub open spec fn is_as_code(c: i32) -> bool {
    c == OpCode::ADD || c == OpCode::SUB
}

/// The instruction index of the `PARAM` for argument `k` of a call whose
/// `ERA` sits at `base`: each argument's evaluation precedes its `PARAM`.
pub open spec fn param_pos(base: int, args: Seq<Expression>, k: int) -> int {
    base + exprs_cost(args.take(k + 1))
}

/// The start index a call site records for a callee: the recorded start
/// instruction index, or -1 when generation has not reached the callee.
pub open spec fn call_start_of(d: FunctionDirectory, name: Seq<char>) -> i32 {
    match find_by_name(d.functions@, name) {
        Some(fi) => match fi.start_quad_idx {
            Some(st) => st,
            None => -1i32,
        },
        None => -1i32,
    }
}

/// The allocation-relevant state of the generator as mathematics: the
/// three temporary counters, the two constant pools, the string-literal
/// count, and the instruction log. The generator's contracts pin the
/// emitted instructions — opcodes and operand addresses — by saying how
/// this state evolves.
#[verifier::ext_equal]
pub struct GenSt {
    pub temp_int: int,
    pub temp_float: int,
    pub temp_bool: int,
    pub ints: Seq<i32>,
    pub floats: Seq<u64>,
    pub strs: int,
    pub quads: Seq<Quadruple>,
}

/// The allocation state of a generator.
pub open spec fn abs_gen(g: QuadrupleGenerator) -> GenSt {
    GenSt {
        temp_int: g.temp_int_counter as int,
        temp_float: g.temp_float_counter as int,
        temp_bool: g.temp_bool_counter as int,
        ints: g.int_constants@,
        floats: g.float_constants@,
        strs: g.string_literals@.len() as int,
        quads: g.quad_queue@,
    }
}

/// The state's temporary counter for a result type.
pub open spec fn st_temp_of(st: GenSt, t: Type) -> int {
    match t {
        Type::Int => st.temp_int,
        Type::Float => st.temp_float,
        Type::Bool => st.temp_bool,
    }
}

/// The state after allocating one temporary of the type.
pub open spec fn st_bump(st: GenSt, t: Type) -> GenSt {
    match t {
        Type::Int => GenSt { temp_int: st.temp_int + 1, ..st },
        Type::Float => GenSt { temp_float: st.temp_float + 1, ..st },
        Type::Bool => GenSt { temp_bool: st.temp_bool + 1, ..st },
    }
}

/// What evaluating an expression does, exactly as the generator does it
/// for a well-typed expression with room: the state afterwards, the
/// address left on the operand stack, and the type left on the type
/// stack. An identifier resolves to its directory address; an integer or
/// float literal to its pooled slot (first match wins, else a fresh
/// slot); a boolean literal takes a fresh boolean-temporary slot and
/// emits the one instruction that initializes it; a binary operation
/// evaluates its left then right operand, then emits one instruction from
/// their two addresses into a fresh temporary of the classified type.
pub open spec fn eval_expr(
    d: FunctionDirectory,
    sc: Seq<char>,
    st: GenSt,
    e: Expression,
) -> (GenSt, int, Type)
    decreases e,
{
    match e {
        Expression::Identifier(id) => (
            st,
            resolve_var(d, sc, id@).unwrap().address as int,
            resolve_var(d, sc, id@).unwrap().var_type,
        ),
        Expression::IntegerLiteral(v) => {
            if pool_index_of(st.ints, v) != -1 {
                (st, MemoryAddresses::CTE_INT_START + pool_index_of(st.ints, v), Type::Int)
            } else {
                (
                    (GenSt { ints: st.ints.push(v), ..st }),
                    MemoryAddresses::CTE_INT_START + st.ints.len(),
                    Type::Int,
                )
            }
        },
        Expression::FloatLiteral(v) => {
            if pool_index_of(st.floats, v) != -1 {
                (st, MemoryAddresses::CTE_FLOAT_START + pool_index_of(st.floats, v), Type::Float)
            } else {
                (
                    (GenSt { floats: st.floats.push(v), ..st }),
                    MemoryAddresses::CTE_FLOAT_START + st.floats.len(),
                    Type::Float,
                )
            }
        },
        Expression::BooleanLiteral(b) => (
            (GenSt {
                temp_bool: st.temp_bool + 1,
                quads: st.quads.push(
                    (Quadruple {
                        operation: OpCode::ASSIGN,
                        arg1: -1i32,
                        arg2: if b {
                            1i32
                        } else {
                            0i32
                        },
                        result: st.temp_bool as i32,
                    }),
                ),
                ..st
            }),
            st.temp_bool,
            Type::Bool,
        ),
        Expression::BinaryOp { left, operator, right } => {
            let lr = eval_expr(d, sc, st, *left);
            let rr = eval_expr(d, sc, lr.0, *right);
            let rt = semantics_of(lr.2, rr.2, operator).unwrap();
            let temp = st_temp_of(rr.0, rt);
            (
                (GenSt {
                    quads: rr.0.quads.push(
                        (Quadruple {
                            operation: code_of(operator),
                            arg1: lr.1 as i32,
                            arg2: rr.1 as i32,
                            result: temp as i32,
                        }),
                    ),
                    ..st_bump(rr.0, rt)
                }),
                temp,
                rt,
            )
        },
    }
}

/// What compiling a call's arguments does, from argument `k` on: each
/// argument is evaluated and followed by the `PARAM` carrying its address
/// and index.
pub open spec fn gen_args(
    d: FunctionDirectory,
    sc: Seq<char>,
    st: GenSt,
    args: Seq<Expression>,
    k: int,
) -> GenSt
    decreases args.len() - k,
{
    if 0 <= k < args.len() {
        let ar = eval_expr(d, sc, st, args[k]);
        gen_args(
            d,
            sc,
            (GenSt {
                quads: ar.0.quads.push(
                    (Quadruple {
                        operation: OpCode::PARAM,
                        arg1: ar.1 as i32,
                        arg2: -1i32,
                        result: k as i32,
                    }),
                ),
                ..ar.0
            }),
            args,
            k + 1,
        )
    } else {
        st
    }
}

/// What compiling a whole call does: `ERA` with the callee's recorded
/// start, the argument evaluations with their `PARAM`s in order, and
/// `GOSUB` with the same start.
pub open spec fn gen_call(
    d: FunctionDirectory,
    sc: Seq<char>,
    st: GenSt,
    fc: FunctionCall,
) -> GenSt {
    let cstart = call_start_of(d, fc.id@);
    let st1 = GenSt {
        quads: st.quads.push(
            (Quadruple { operation: OpCode::ERA, arg1: cstart, arg2: -1i32, result: -1i32 }),
        ),
        ..st
    };
    let st2 = gen_args(d, sc, st1, fc.arguments@, 0);
    GenSt {
        quads: st2.quads.push(
            (Quadruple { operation: OpCode::GOSUB, arg1: cstart, arg2: -1i32, result: -1i32 }),
        ),
        ..st2
    }
}

/// Index of the `ENDFUNC` that terminates procedure `j`'s compiled body:
/// the reserved `GOTO`, then every earlier procedure's instructions, then
/// the body's own.
pub open spec fn fn_end_pos(fs: Seq<FunctionDeclaration>, j: int) -> int {
    1 + funcs_cost(fs.take(j)) as int + stmts_cost(fs[j].body@) as int
}

/// Index of the first instruction of procedure `j`'s compiled body: the
/// reserved `GOTO`, then every earlier procedure's instructions.
pub open spec fn fn_start_pos(fs: Seq<FunctionDeclaration>, j: int) -> int {
    1 + funcs_cost(fs.take(j)) as int
}

/// The allocation state a procedure-free program's main body starts from:
/// empty pools, the temporary counters at their bases, and the lone `GOTO`
/// at index 0 already patched to land on instruction 1, where main begins.
pub open spec fn clean_start() -> GenSt {
    GenSt {
        temp_int: MemoryAddresses::TEMP_INT_START as int,
        temp_float: MemoryAddresses::TEMP_FLOAT_START as int,
        temp_bool: MemoryAddresses::TEMP_BOOL_START as int,
        ints: Seq::<i32>::empty(),
        floats: Seq::<u64>::empty(),
        strs: 0,
        quads: seq![
            (Quadruple { operation: OpCode::GOTO, arg1: -1i32, arg2: -1i32, result: 1i32 }),
        ],
    }
}

/// What compiling one statement does, exactly as the generator does it
/// for a well-typed statement with room: assignments and prints evaluate
/// and emit their one instruction with the evaluated operand's address;
/// conditionals and loops emit their conditional jump with the target
/// backpatched to the block boundary; calls follow the call protocol.
pub open spec fn gen_stmt(
    d: FunctionDirectory,
    sc: Seq<char>,
    st: GenSt,
    s: Statement,
) -> GenSt
    decreases stmt_size(s), 0int,
{
    match s {
        Statement::Assignment(a) => {
            let ev = eval_expr(d, sc, st, a.expression);
            GenSt {
                quads: ev.0.quads.push(
                    (Quadruple {
                        operation: OpCode::ASSIGN,
                        arg1: ev.1 as i32,
                        arg2: -1i32,
                        result: resolve_var(d, sc, a.id@).unwrap().address,
                    }),
                ),
                ..ev.0
            }
        },
        Statement::Print(p) => match p {
            PrintStatement::Expression(e) => {
                let ev = eval_expr(d, sc, st, e);
                GenSt {
                    quads: ev.0.quads.push(
                        (Quadruple {
                            operation: OpCode::PRINT,
                            arg1: ev.1 as i32,
                            arg2: -1i32,
                            result: -1i32,
                        }),
                    ),
                    ..ev.0
                }
            },
            PrintStatement::StringLiteral(_) => (GenSt {
                strs: st.strs + 1,
                quads: st.quads.push(
                    (Quadruple {
                        operation: OpCode::PRINT,
                        arg1: (MemoryAddresses::STR_LIT_START + st.strs) as i32,
                        arg2: -1i32,
                        result: -1i32,
                    }),
                ),
                ..st
            }),
        },
        Statement::Condition(c) => {
            let ev = eval_expr(d, sc, st, c.condition);
            let gi = ev.0.quads.len() as int;
            let st2 = GenSt {
                quads: ev.0.quads.push(
                    (Quadruple {
                        operation: OpCode::GOTOF,
                        arg1: ev.1 as i32,
                        arg2: -1i32,
                        result: -1i32,
                    }),
                ),
                ..ev.0
            };
            let st3 = gen_stmts(d, sc, st2, c.if_body@);
            match c.else_body {
                None => (GenSt {
                    quads: st3.quads.update(
                        gi,
                        (Quadruple {
                            operation: OpCode::GOTOF,
                            arg1: ev.1 as i32,
                            arg2: -1i32,
                            result: st3.quads.len() as i32,
                        }),
                    ),
                    ..st3
                }),
                Some(eb) => {
                    let go = st3.quads.len() as int;
                    let st4 = GenSt {
                        quads: st3.quads.push(
                            (Quadruple {
                                operation: OpCode::GOTO,
                                arg1: -1i32,
                                arg2: -1i32,
                                result: -1i32,
                            }),
                        ),
                        ..st3
                    };
                    let st5 = GenSt {
                        quads: st4.quads.update(
                            gi,
                            (Quadruple {
                                operation: OpCode::GOTOF,
                                arg1: ev.1 as i32,
                                arg2: -1i32,
                                result: st4.quads.len() as i32,
                            }),
                        ),
                        ..st4
                    };
                    let st6 = gen_stmts(d, sc, st5, eb@);
                    GenSt {
                        quads: st6.quads.update(
                            go,
                            (Quadruple {
                                operation: OpCode::GOTO,
                                arg1: -1i32,
                                arg2: -1i32,
                                result: st6.quads.len() as i32,
                            }),
                        ),
                        ..st6
                    }
                },
            }
        },
        Statement::Cycle(c) => {
            let head = st.quads.len() as int;
            let ev = eval_expr(d, sc, st, c.condition);
            let gi = ev.0.quads.len() as int;
            let st2 = GenSt {
                quads: ev.0.quads.push(
                    (Quadruple {
                        operation: OpCode::GOTOF,
                        arg1: ev.1 as i32,
                        arg2: -1i32,
                        result: -1i32,
                    }),
                ),
                ..ev.0
            };
            let st3 = gen_stmts(d, sc, st2, c.body@);
            let st4 = GenSt {
                quads: st3.quads.push(
                    (Quadruple {
                        operation: OpCode::GOTO,
                        arg1: -1i32,
                        arg2: -1i32,
                        result: head as i32,
                    }),
                ),
                ..st3
            };
            GenSt {
                quads: st4.quads.update(
                    gi,
                    (Quadruple {
                        operation: OpCode::GOTOF,
                        arg1: ev.1 as i32,
                        arg2: -1i32,
                        result: st4.quads.len() as i32,
                    }),
                ),
                ..st4
            }
        },
        Statement::FunctionCall(f) => gen_call(d, sc, st, f),
    }
}

/// What compiling a statement list does: each statement in order.
pub open spec fn gen_stmts(
    d: FunctionDirectory,
    sc: Seq<char>,
    st: GenSt,
    ss: Seq<Statement>,
) -> GenSt
    decreases stmts_size(ss), 1int,
{
    if ss.len() == 0 {
        st
    } else {
        gen_stmts_rest(d, sc, gen_stmt(d, sc, st, ss[0]), ss)
    }
}

/// The tail of a statement-list fold.
pub open spec fn gen_stmts_rest(
    d: FunctionDirectory,
    sc: Seq<char>,
    st: GenSt,
    ss: Seq<Statement>,
) -> GenSt
    decreases stmts_size(ss), 0int,
    when ss.len() > 0
    via gen_stmts_rest_dec
{
    gen_stmts(d, sc, st, ss.drop_first())
}

#[via_fn]
proof fn gen_stmts_rest_dec(d: FunctionDirectory, sc: Seq<char>, st: GenSt, ss: Seq<Statement>) {
    assert(stmt_size(ss[0]) >= 1);
    assert(stmts_size(ss.drop_first()) < stmts_size(ss));
}

/// A statement-list fold extended by one statement is the fold followed by
/// that statement.
pub proof fn lemma_gen_stmts_snoc(
    d: FunctionDirectory,
    sc: Seq<char>,
    st: GenSt,
    ss: Seq<Statement>,
    s: Statement,
)
    ensures
        gen_stmts(d, sc, st, ss.push(s)) == gen_stmt(d, sc, gen_stmts(d, sc, st, ss), s),
    decreases ss.len(),
{
    if ss.len() == 0 {
        assert(ss.push(s)[0] == s);
        assert(ss.push(s).drop_first() =~= Seq::<Statement>::empty());
        assert(gen_stmts(d, sc, st, ss.push(s)) == gen_stmts_rest(
            d,
            sc,
            gen_stmt(d, sc, st, s),
            ss.push(s),
        ));
        assert(gen_stmts_rest(d, sc, gen_stmt(d, sc, st, s), ss.push(s)) == gen_stmts(
            d,
            sc,
            gen_stmt(d, sc, st, s),
            Seq::<Statement>::empty(),
        ));
        assert(gen_stmts(d, sc, st, ss) == st);
    } else {
        assert(ss.push(s)[0] == ss[0]);
        assert(ss.push(s).drop_first() =~= ss.drop_first().push(s));
        lemma_gen_stmts_snoc(d, sc, gen_stmt(d, sc, st, ss[0]), ss.drop_first(), s);
        assert(gen_stmts(d, sc, st, ss.push(s)) == gen_stmts_rest(
            d,
            sc,
            gen_stmt(d, sc, st, ss[0]),
            ss.push(s),
        ));
        assert(gen_stmts_rest(d, sc, gen_stmt(d, sc, st, ss[0]), ss.push(s)) == gen_stmts(
            d,
            sc,
            gen_stmt(d, sc, st, ss[0]),
            ss.drop_first().push(s),
        ));
        assert(gen_stmts(d, sc, st, ss) == gen_stmts_rest(
            d,
            sc,
            gen_stmt(d, sc, st, ss[0]),
            ss,
        ));
        assert(gen_stmts_rest(d, sc, gen_stmt(d, sc, st, ss[0]), ss) == gen_stmts(
            d,
            sc,
            gen_stmt(d, sc, st, ss[0]),
            ss.drop_first(),
        ));
    }
}

/// Room for `n` more of everything the expression walk may allocate.
pub open spec fn gen_room(g: QuadrupleGenerator, n: nat) -> bool {
    &&& temp_room(g, n)
    &&& g.quad_queue@.len() + n <= MAX_QUADS
    &&& g.int_constants@.len() + n <= CTE_INT_CAP
    &&& g.float_constants@.len() + n <= CTE_FLOAT_CAP
    &&& g.string_literals@.len() + n <= STR_LIT_CAP
}

/// Between two generator states every allocation grew by at most `n`.
pub open spec fn grows_at_most(a: QuadrupleGenerator, b: QuadrupleGenerator, n: nat) -> bool {
    &&& a.quad_queue@.len() <= b.quad_queue@.len() <= a.quad_queue@.len() + n
    &&& a.temp_int_counter <= b.temp_int_counter <= a.temp_int_counter + n
    &&& a.temp_float_counter <= b.temp_float_counter <= a.temp_float_counter + n
    &&& a.temp_bool_counter <= b.temp_bool_counter <= a.temp_bool_counter + n
    &&& a.int_constants@.len() <= b.int_constants@.len() <= a.int_constants@.len() + n
    &&& a.float_constants@.len() <= b.float_constants@.len() <= a.float_constants@.len() + n
    &&& a.string_literals@.len() <= b.string_literals@.len() <= a.string_literals@.len() + n
}

/// The first match in a pool scan is the pool index of the value.
pub proof fn lemma_pool_first_index<T>(pool: Seq<T>, v: T, i: int)
    requires
        0 <= i < pool.len(),
        pool[i] == v,
        forall|k: int| 0 <= k < i ==> pool[k] != v,
    ensures
        pool_index_of(pool, v) == i,
    decreases pool.len(),
{
    if i > 0 {
        lemma_pool_first_index(pool.drop_first(), v, i - 1);
    }
}

/// A statement of straight-line arithmetic: an assignment or an expression
/// print whose expression holds no boolean literal.
pub open spec fn stmt_straight(s: Statement) -> bool {
    match s {
        Statement::Assignment(a) => expr_bool_lits(a.expression) == 0,
        Statement::Print(p) => match p {
            PrintStatement::Expression(e) => expr_bool_lits(e) == 0,
            PrintStatement::StringLiteral(_) => false,
        },
        _ => false,
    }
}

/// A straight-line statement list.
pub open spec fn stmts_straight(ss: Seq<Statement>) -> bool
    decreases ss,
{
    if ss.len() == 0 {
        true
    } else {
        stmt_straight(ss[0]) && stmts_straight(ss.drop_first())
    }
}

/// The binary operators of a straight-line statement.
pub open spec fn stmt_ops(s: Statement) -> nat {
    match s {
        Statement::Assignment(a) => expr_ops(a.expression),
        Statement::Print(p) => match p {
            PrintStatement::Expression(e) => expr_ops(e),
            PrintStatement::StringLiteral(_) => 0,
        },
        _ => 0,
    }
}

/// The binary operators of a straight-line statement list.
pub open spec fn stmts_ops(ss: Seq<Statement>) -> nat
    decreases ss,
{
    if ss.len() == 0 {
        0
    } else {
        stmt_ops(ss[0]) + stmts_ops(ss.drop_first())
    }
}

/// For a program of straight-line arithmetic — no procedures, every main
/// statement an assignment or an expression print — the number of emitted
/// quadruples equals the number of binary operators plus one per
/// assignment or print, plus the reserved jump to main and the trailing
/// halt. Together with the compiler's exact instruction count for
/// well-typed programs that fit its pools, this pins the emitted stream's
/// length to the source's shape.
pub proof fn lemma_straight_line_quad_count(p: Program)
    requires
        p.funcs@.len() == 0,
        stmts_straight(p.main_body@),
    ensures
        program_cost(p) == stmts_ops(p.main_body@) + p.main_body@.len() + 2,
{
    lemma_straight_line_stmts(p.main_body@);
}

/// Straight-line statement lists cost one instruction per statement on
/// top of their operators.
proof fn lemma_straight_line_stmts(ss: Seq<Statement>)
    requires
        stmts_straight(ss),
    ensures
        stmts_cost(ss) == stmts_ops(ss) + ss.len(),
    decreases ss,
{
    if ss.len() > 0 {
        lemma_straight_line_stmts(ss.drop_first());
        assert(stmt_cost(ss[0]) == stmt_ops(ss[0]) + 1) by {
            match ss[0] {
                Statement::Assignment(a) => {
                    assert(expr_cost(a.expression) == expr_ops(a.expression));
                },
                Statement::Print(p) => {
                    match p {
                        PrintStatement::Expression(e) => {
                            assert(expr_cost(e) == expr_ops(e));
                        },
                        PrintStatement::StringLiteral(_) => {},
                    }
                },
                _ => {},
            }
        }
    }
}

} // verus!

//! The code generator: lowers IR to a function of basic blocks over 64-bit
//! floating-point values, which reads and writes the runtime context through
//! the runtime bridge alone.
//!
//! The function is kept as the list of the builder operations that produce
//! it. An operation that creates a block, declares a variable or defines a
//! value is named, by every later operation, by its position in the list.
use crate::ast::{BinaryOp, ControlFlowExpr, UnaryOp};
use crate::eval::{
    array_element, array_items, canonical_clear, canonical_copy, canonical_copy_element, canonical_get,
    canonical_push, canonical_set, canonical_text, length_count, number_or_zero, path_key, path_namespace,
    values_equal, QualifiedName, RuntimeContext, StoreKey, StoreModel, ValueModel,
};
use crate::ir::copy_texts;
use crate::ir::{
    builtin_arity, checked, checked_program, checked_statement, BuiltinFunction, FunctionRef, IrExpr, IrField,
    IrProgram, IrStatement,
};
use crate::number::{index_of_number, number_from_length, number_of_nat, LOOP_LIMIT, ONE, ZERO};
use crate::text::{decimal_text, push_decimal, same_text, texts};
use vstd::prelude::*;

verus! {

/// Arithmetic on two numbers.
#[derive(Debug, Clone, Copy, PartialEq, Eq, Structural)]
pub enum FloatOp {
    Add,
    Sub,
    Mul,
    Div,
    /// The smaller of two numbers; a NaN operand gives NaN.
    Min,
}

/// Ordered comparison of two numbers; every comparison with a NaN is false
/// but `NotEqual`.
#[derive(Debug, Clone, Copy, PartialEq, Eq, Structural)]
pub enum FloatCond {
    Equal,
    NotEqual,
    LessThan,
    LessThanOrEqual,
    GreaterThan,
    GreaterThanOrEqual,
}

/// The functions of the runtime bridge that compiled code imports.
#[derive(Debug, Clone, Copy, PartialEq, Eq, Hash, Structural)]
pub enum RuntimeHelper {
    GetNumber,
    SetNumber,
    ClearValue,
    CopyValue,
    ArrayPushNumber,
    ArrayPushString,
    ArrayGetNumber,
    ArrayLength,
    ArrayCopyElement,
    SetString,
    EqualPaths,
    NotEqualPaths,
    EqualPathString,
    NotEqualPathString,
}

/// What a call instruction calls.
#[derive(Debug, Clone, Copy, PartialEq, Eq, Hash, Structural)]
pub enum Callee {
    /// A function of the runtime bridge: the context pointer is passed
    /// ahead of the listed arguments.
    Runtime(RuntimeHelper),
    /// A math function.
    Builtin(BuiltinFunction),
}

/// The type of a value in compiled code.
#[derive(Debug, Clone, Copy, PartialEq, Eq, Structural)]
pub enum ValueType {
    /// A 64-bit floating-point number.
    Number,
    /// A 64-bit signed integer.
    Integer,
    /// An address or a byte count, as wide as a pointer.
    Pointer,
}

/// One builder operation.
#[derive(Debug, Clone, Copy, PartialEq, Eq, Structural)]
pub enum Op {
    /// Creates the entry block with the function's two parameters, the
    /// context pointer and the slots pointer, makes it current and seals it.
    Entry,
    /// Creates a block.
    CreateBlock,
    /// Appends a number parameter to a block; defines the parameter.
    BlockParam { block: usize },
    /// Makes a block the current block.
    SwitchTo { block: usize },
    /// Declares that a block has all its predecessors.
    Seal { block: usize },
    /// Declares a number variable.
    DeclareVar,
    /// Assigns a variable.
    DefVar { var: usize, value: usize },
    /// Reads a variable; defines the value read.
    UseVar { var: usize },
    /// Defines the number with this bit pattern.
    Number { bits: u64 },
    /// Defines the number that a decimal literal of the program denotes.
    Literal { literal: usize },
    /// Defines the address of the name of a slot, loaded from the slot table.
    SlotPointer { slot: usize },
    /// Defines the byte length of the name of a slot, loaded from the slot
    /// table.
    SlotLength { slot: usize },
    /// Defines the address of a read-only data object.
    DataAddress { data: usize },
    /// Defines the byte length of a read-only data object.
    DataSize { data: usize },
    /// Defines the negation of a number.
    Neg { value: usize },
    /// Defines the result of arithmetic on two numbers.
    Binary { op: FloatOp, left: usize, right: usize },
    /// Defines the truth of a comparison of two numbers.
    Compare { cond: FloatCond, left: usize, right: usize },
    /// Defines 1.0 for a truth that holds and 0.0 for one that does not.
    BoolToFloat { value: usize },
    /// Defines the number that equals a signed integer.
    IntToFloat { value: usize },
    /// Defines the signed integer that a number truncates to.
    FloatToInt { value: usize },
    /// Gives the next argument of the call that follows.
    Arg { value: usize },
    /// Calls a function with the arguments given since the last call;
    /// defines the result, where the function has one.
    Call { callee: Callee },
    /// Ends the current block with a jump.
    Jump { target: usize },
    /// Ends the current block with a jump that passes a block argument.
    JumpWith { target: usize, argument: usize },
    /// Ends the current block: to `then_block` where the truth holds, else
    /// to `else_block`.
    Branch { condition: usize, then_block: usize, else_block: usize },
    /// Ends the current block and returns a number.
    Return { value: usize },
}

/// The blocks that `break` and `continue` jump to inside a loop.
#[derive(Debug, Clone, Copy, PartialEq, Eq, Structural)]
pub struct LoopContext {
    pub break_block: usize,
    pub continue_block: usize,
}

/// The exit block: it loads the return variable and returns it.
pub const EXIT_BLOCK: usize = 1;

/// The variable that holds the value to return, 0.0 at first.
pub const RETURN_VAR: usize = 2;

/// The code of a function so far, with the tables that it refers to.
pub struct Code {
    /// The builder operations, in order.
    pub ops: Seq<Op>,
    /// The slot table: the names that the code refers to, in the order of
    /// their first use.
    pub slots: Seq<StoreKey>,
    /// The decimal literals of the program, in the order of their use.
    pub literals: Seq<Seq<char>>,
    /// The read-only data objects, one for each use of a string literal.
    pub data: Seq<Seq<char>>,
    /// The loops that enclose the current position, innermost last.
    pub loops: Seq<LoopContext>,
}

/// The first position of a name in the slot table.
pub open spec fn find_slot(slots: Seq<StoreKey>, name: StoreKey) -> Option<int>
    decreases slots.len(),
{
    if slots.len() == 0 {
        None
    } else {
        match find_slot(slots.drop_last(), name) {
            Some(i) => Some(i),
            None => if slots.last() == name {
                Some(slots.len() - 1)
            } else {
                None
            },
        }
    }
}

/// The name that a path stands for.
pub open spec fn name_of(parts: Seq<Seq<char>>) -> StoreKey {
    (path_namespace(parts), path_key(parts))
}

/// The path of the temporary that is named while the slot table holds `n`
/// names.
pub open spec fn temp_path(prefix: Seq<char>, n: nat) -> Seq<Seq<char>> {
    seq![prefix + decimal_text(n)]
}

impl Code {
    /// The position that the next operation takes.
    pub open spec fn next(self) -> usize {
        self.ops.len() as usize
    }

    /// The position of the last operation.
    pub open spec fn last(self) -> usize {
        (self.ops.len() - 1) as usize
    }

    pub open spec fn emit(self, op: Op) -> Code {
        Code { ops: self.ops.push(op), ..self }
    }

    /// The slot of a name: the one it has, else a new one at the end of
    /// the table.
    pub open spec fn slot(self, name: StoreKey) -> (Code, usize) {
        match find_slot(self.slots, name) {
            Some(i) => (self, i as usize),
            None => (Code { slots: self.slots.push(name), ..self }, self.slots.len() as usize),
        }
    }

    pub open spec fn number(self, bits: u64) -> Code {
        self.emit(Op::Number { bits })
    }

    pub open spec fn literal(self, text: Seq<char>) -> Code {
        Code { literals: self.literals.push(text), ..self }.emit(
            Op::Literal { literal: self.literals.len() as usize },
        )
    }

    /// Loads pointer and length of a slot's name: two values, at `next()`
    /// and behind it.
    pub open spec fn load_slot(self, slot: usize) -> Code {
        self.emit(Op::SlotPointer { slot }).emit(Op::SlotLength { slot })
    }

    pub open spec fn arg(self, value: usize) -> Code {
        self.emit(Op::Arg { value })
    }

    /// Pointer and length as two arguments, the pointer being the value `at`.
    pub open spec fn pair(self, at: usize) -> Code {
        self.arg(at).arg((at + 1) as usize)
    }

    pub open spec fn call(self, helper: RuntimeHelper) -> Code {
        self.emit(Op::Call { callee: Callee::Runtime(helper) })
    }

    /// A call of a bridge function on one slot.
    pub open spec fn call_on_slot(self, helper: RuntimeHelper, slot: usize) -> Code {
        self.load_slot(slot).pair(self.next()).call(helper)
    }

    /// Reads the number at a name; the value is the last operation.
    pub open spec fn load_variable(self, name: StoreKey) -> Code {
        let (code, slot) = self.slot(name);
        code.call_on_slot(RuntimeHelper::GetNumber, slot)
    }

    /// Reads the length of the array at a name as a number; the value is
    /// the last operation.
    pub open spec fn load_array_length(self, name: StoreKey) -> Code {
        let (code, slot) = self.slot(name);
        let called = code.call_on_slot(RuntimeHelper::ArrayLength, slot);
        called.emit(Op::IntToFloat { value: called.last() })
    }

    /// Reads the element of the array at a name that the number `index`
    /// selects; the value is the last operation.
    pub open spec fn array_get(self, name: StoreKey, index: usize) -> Code {
        let (code, slot) = self.slot(name);
        code.load_slot(slot).pair(code.next()).arg(index).call(RuntimeHelper::ArrayGetNumber)
    }

    pub open spec fn store_number(self, name: StoreKey, value: usize) -> Code {
        let (code, slot) = self.slot(name);
        code.load_slot(slot).pair(code.next()).arg(value).call(RuntimeHelper::SetNumber)
    }

    pub open spec fn clear_slot(self, slot: usize) -> Code {
        self.call_on_slot(RuntimeHelper::ClearValue, slot)
    }

    /// Clears the destination, then copies the source to it with the kind
    /// of value that it has.
    pub open spec fn copy_assignment(self, dest: StoreKey, src: StoreKey) -> Code {
        let (first, dest_slot) = self.slot(dest);
        let (second, src_slot) = first.slot(src);
        let cleared = second.clear_slot(dest_slot);
        cleared.load_slot(dest_slot).load_slot(src_slot).pair(cleared.next()).pair(
            (cleared.next() + 2) as usize,
        ).call(RuntimeHelper::CopyValue)
    }

    /// A new data object that holds a text.
    pub open spec fn with_data(self, text: Seq<char>) -> Code {
        Code { data: self.data.push(text), ..self }
    }

    pub open spec fn set_string(self, name: StoreKey, text: Seq<char>) -> Code {
        let (code, slot) = self.slot(name);
        let data = code.data.len() as usize;
        let at = code.next();
        code.with_data(text).load_slot(slot).emit(Op::DataSize { data }).emit(Op::DataAddress { data }).pair(
            at,
        ).arg((at + 3) as usize).arg((at + 2) as usize).call(RuntimeHelper::SetString)
    }

    pub open spec fn push_number(self, slot: usize, value: usize) -> Code {
        self.load_slot(slot).pair(self.next()).arg(value).call(RuntimeHelper::ArrayPushNumber)
    }

    pub open spec fn push_string(self, slot: usize, text: Seq<char>) -> Code {
        let data = self.data.len() as usize;
        let at = self.next();
        self.with_data(text).emit(Op::DataSize { data }).emit(Op::DataAddress { data }).load_slot(slot).pair(
            (at + 2) as usize,
        ).arg((at + 1) as usize).arg(at).call(RuntimeHelper::ArrayPushString)
    }

    /// Compares what two names hold; the value is the last operation.
    pub open spec fn paths_equality(self, left: StoreKey, right: StoreKey, is_equal: bool) -> Code {
        let (first, left_slot) = self.slot(left);
        let loaded = first.load_slot(left_slot);
        let (second, right_slot) = loaded.slot(right);
        second.load_slot(right_slot).pair(first.next()).pair((first.next() + 2) as usize).call(
            if is_equal {
                RuntimeHelper::EqualPaths
            } else {
                RuntimeHelper::NotEqualPaths
            },
        )
    }

    /// Compares what a name holds with a text; the value is the last
    /// operation.
    pub open spec fn path_string_equality(self, name: StoreKey, text: Seq<char>, is_equal: bool) -> Code {
        let (code, slot) = self.slot(name);
        let data = code.data.len() as usize;
        let at = code.next();
        code.with_data(text).load_slot(slot).emit(Op::DataAddress { data }).emit(Op::DataSize { data }).pair(
            at,
        ).pair((at + 2) as usize).call(
            if is_equal {
                RuntimeHelper::EqualPathString
            } else {
                RuntimeHelper::NotEqualPathString
            },
        )
    }

    /// Tests a number for truth: whether it differs from zero. The truth is
    /// the last operation.
    pub open spec fn truth_of(self, value: usize) -> Code {
        self.number(ZERO).emit(Op::Compare { cond: FloatCond::NotEqual, left: value, right: self.next() })
    }

    /// Compares two numbers and widens the truth to 1.0 or 0.0; the value
    /// is the last operation.
    pub open spec fn comparison(self, cond: FloatCond, left: usize, right: usize) -> Code {
        self.emit(Op::Compare { cond, left, right }).emit(Op::BoolToFloat { value: self.next() })
    }

    /// Applies a unary operator; the value is `unary_value`.
    pub open spec fn unary(self, op: UnaryOp, value: usize) -> Code {
        match op {
            UnaryOp::Plus => self,
            UnaryOp::Minus => self.emit(Op::Neg { value }),
            UnaryOp::Not => self.number(ZERO).comparison(FloatCond::Equal, value, self.next()),
        }
    }

    pub open spec fn unary_value(self, op: UnaryOp, value: usize) -> usize {
        match op {
            UnaryOp::Plus => value,
            _ => self.unary(op, value).last(),
        }
    }

    /// Applies an arithmetic or ordering operator; the value is the last
    /// operation.
    pub open spec fn binary(self, op: BinaryOp, left: usize, right: usize) -> Code {
        match op {
            BinaryOp::Add => self.emit(Op::Binary { op: FloatOp::Add, left, right }),
            BinaryOp::Sub => self.emit(Op::Binary { op: FloatOp::Sub, left, right }),
            BinaryOp::Mul => self.emit(Op::Binary { op: FloatOp::Mul, left, right }),
            BinaryOp::Div => self.emit(Op::Binary { op: FloatOp::Div, left, right }),
            BinaryOp::Less => self.comparison(FloatCond::LessThan, left, right),
            BinaryOp::LessEqual => self.comparison(FloatCond::LessThanOrEqual, left, right),
            BinaryOp::Greater => self.comparison(FloatCond::GreaterThan, left, right),
            BinaryOp::GreaterEqual => self.comparison(FloatCond::GreaterThanOrEqual, left, right),
            BinaryOp::NotEqual => self.comparison(FloatCond::NotEqual, left, right),
            _ => self.comparison(FloatCond::Equal, left, right),
        }
    }

    /// Opens a two-armed branch on a truth: creates the `then` block at
    /// `next()`, the `else` block and the merge block behind it, gives the
    /// merge block its parameter, branches, and goes on in the `then` block.
    pub open spec fn open_branch(self, condition: usize) -> Code {
        let at = self.next();
        self.emit(Op::CreateBlock).emit(Op::CreateBlock).emit(Op::CreateBlock).emit(
            Op::BlockParam { block: (at + 2) as usize },
        ).emit(
            Op::Branch { condition, then_block: at, else_block: (at + 1) as usize },
        ).emit(Op::SwitchTo { block: at })
    }

    /// Ends the `then` arm of the branch opened at `at` with its value and
    /// goes on in the `else` block.
    pub open spec fn next_arm(self, at: usize, value: usize) -> Code {
        self.emit(Op::JumpWith { target: (at + 2) as usize, argument: value }).emit(Op::Seal { block: at }).emit(
            Op::SwitchTo { block: (at + 1) as usize },
        )
    }

    /// Ends the `else` arm of the branch opened at `at` with its value and
    /// goes on in the merge block, whose parameter, at `at + 3`, is the
    /// value of the branch.
    pub open spec fn close_branch(self, at: usize, value: usize) -> Code {
        self.emit(Op::JumpWith { target: (at + 2) as usize, argument: value }).emit(
            Op::Seal { block: (at + 1) as usize },
        ).emit(Op::SwitchTo { block: (at + 2) as usize }).emit(Op::Seal { block: (at + 2) as usize })
    }

    /// Goes on in a new block that nothing jumps to.
    pub open spec fn fresh_block(self) -> Code {
        let at = self.next();
        self.emit(Op::CreateBlock).emit(Op::SwitchTo { block: at }).emit(Op::Seal { block: at })
    }

    /// `break` or `continue`: a jump to the target of the innermost loop,
    /// and a new block for what follows. The value, the last operation
    /// before the jump, is 0.0.
    pub open spec fn flow(self, flow: ControlFlowExpr) -> Code {
        let target = match flow {
            ControlFlowExpr::Break => self.loops.last().break_block,
            ControlFlowExpr::Continue => self.loops.last().continue_block,
        };
        self.number(ZERO).emit(Op::Jump { target }).fresh_block()
    }

    /// Opens a counting loop that runs while the counter is below `bound`:
    /// declares the counter at `next()`, sets it to 0.0, creates the header
    /// block at `next() + 3`, the body, exit and increment blocks behind
    /// it, tests the counter in the header, and goes on in the body, inside
    /// the loop.
    pub open spec fn open_loop(self, bound: usize) -> Code {
        let at = self.next();
        let header = (at + 3) as usize;
        let body = (at + 4) as usize;
        let exit = (at + 5) as usize;
        self.emit(Op::DeclareVar).number(ZERO).emit(Op::DefVar { var: at, value: (at + 1) as usize }).emit(
            Op::CreateBlock,
        ).emit(Op::CreateBlock).emit(Op::CreateBlock).emit(Op::CreateBlock).emit(Op::Jump { target: header }).emit(
            Op::SwitchTo { block: header },
        ).emit(Op::UseVar { var: at }).emit(
            Op::Compare { cond: FloatCond::LessThan, left: (at + 9) as usize, right: bound },
        ).emit(Op::Branch { condition: (at + 10) as usize, then_block: body, else_block: exit }).emit(
            Op::SwitchTo { block: body },
        )
    }

    /// Enters a loop whose blocks were created at `at`.
    pub open spec fn enter_loop(self, at: usize) -> Code {
        Code {
            loops: self.loops.push(
                LoopContext { break_block: (at + 5) as usize, continue_block: (at + 6) as usize },
            ),
            ..self
        }
    }

    /// Leaves the innermost loop, opened at `at`: jumps to the increment
    /// block, which adds 1.0 to the counter and jumps back to the header,
    /// and goes on in the exit block.
    pub open spec fn close_loop(self, at: usize) -> Code {
        let header = (at + 3) as usize;
        let body = (at + 4) as usize;
        let exit = (at + 5) as usize;
        let increment = (at + 6) as usize;
        let start = self.next();
        Code { loops: self.loops.drop_last(), ..self }.emit(Op::Jump { target: increment }).emit(
            Op::Seal { block: body },
        ).emit(Op::SwitchTo { block: increment }).emit(Op::UseVar { var: at }).number(ONE).emit(
            Op::Binary { op: FloatOp::Add, left: (start + 3) as usize, right: (start + 4) as usize },
        ).emit(Op::DefVar { var: at, value: (start + 5) as usize }).emit(Op::Jump { target: header }).emit(
            Op::Seal { block: increment },
        ).emit(Op::Seal { block: header }).emit(Op::SwitchTo { block: exit }).emit(Op::Seal { block: exit })
    }

    /// Binds the loop variable of a `for_each` to the element that the
    /// counter, the variable declared at `at`, selects.
    pub open spec fn bind_element(self, at: usize, collection: StoreKey, variable: StoreKey) -> Code {
        let start = self.next();
        let read = self.emit(Op::UseVar { var: at }).emit(Op::FloatToInt { value: start });
        let (first, collection_slot) = read.slot(collection);
        let loaded = first.load_slot(collection_slot);
        let (second, variable_slot) = loaded.slot(variable);
        second.load_slot(variable_slot).pair((start + 2) as usize).arg((start + 1) as usize).pair(
            (start + 4) as usize,
        ).call(RuntimeHelper::ArrayCopyElement)
    }

    /// Sets the return variable, jumps to the exit block, and goes on in a
    /// new block.
    pub open spec fn return_value(self, value: usize) -> Code {
        self.emit(Op::DefVar { var: RETURN_VAR, value }).emit(Op::Jump { target: EXIT_BLOCK }).fresh_block()
    }

    /// Ends a program: jumps to the exit block, which returns the return
    /// variable.
    pub open spec fn finish_program(self) -> Code {
        let at = self.next();
        self.emit(Op::Jump { target: EXIT_BLOCK }).emit(Op::SwitchTo { block: EXIT_BLOCK }).emit(
            Op::Seal { block: EXIT_BLOCK },
        ).emit(Op::UseVar { var: RETURN_VAR }).emit(Op::Return { value: (at + 3) as usize })
    }

    /// The values as the arguments of the call that follows.
    pub open spec fn args(self, values: Seq<usize>) -> Code
        decreases values.len(),
    {
        if values.len() == 0 {
            self
        } else {
            self.args(values.drop_last()).arg(values.last())
        }
    }
}

/// The type of the value that an operation defines, if it defines a
/// value of one of the three machine types.
pub open spec fn kind_of(op: Op) -> Option<ValueType> {
    match op {
        Op::BlockParam { .. }
        | Op::UseVar { .. }
        | Op::Number { .. }
        | Op::Literal { .. }
        | Op::Neg { .. }
        | Op::Binary { .. }
        | Op::BoolToFloat { .. }
        | Op::IntToFloat { .. } => Some(ValueType::Number),
        Op::FloatToInt { .. } => Some(ValueType::Integer),
        Op::SlotPointer { .. } | Op::SlotLength { .. } | Op::DataAddress { .. } | Op::DataSize { .. } => Some(
            ValueType::Pointer,
        ),
        Op::Call { callee } => match callee {
            Callee::Runtime(helper) => helper_result(helper),
            Callee::Builtin(_) => Some(ValueType::Number),
        },
        _ => None,
    }
}

/// The types of the arguments that a call takes.
pub open spec fn callee_arguments(callee: Callee) -> Seq<ValueType> {
    match callee {
        Callee::Runtime(helper) => helper_arguments(helper),
        Callee::Builtin(function) => Seq::new(builtin_arity(function), |i: int| ValueType::Number),
    }
}

/// Where a builder stands: whether the current block is open, that is,
/// switched to and not yet ended; and the arguments given for the next call.
pub struct BuildState {
    pub open: bool,
    pub pending: Seq<usize>,
}

/// Where a builder stands after one more operation.
pub open spec fn next_state(state: BuildState, op: Op) -> BuildState {
    match op {
        Op::Entry | Op::SwitchTo { .. } => BuildState { open: true, ..state },
        Op::Jump { .. } | Op::JumpWith { .. } | Op::Branch { .. } | Op::Return { .. } => BuildState {
            open: false,
            ..state
        },
        Op::Arg { value } => BuildState { pending: state.pending.push(value), ..state },
        Op::Call { .. } => BuildState { pending: Seq::empty(), ..state },
        _ => state,
    }
}

/// Where a builder stands after a list of operations.
pub open spec fn state_of(ops: Seq<Op>) -> BuildState
    decreases ops.len(),
{
    if ops.len() == 0 {
        BuildState { open: false, pending: Seq::empty() }
    } else {
        next_state(state_of(ops.drop_last()), ops.last())
    }
}

impl Code {
    /// Whether `at` names an operation that defines a value of the type.
    pub open spec fn has_kind(self, at: usize, kind: ValueType) -> bool {
        at < self.ops.len() && kind_of(self.ops[at as int]) == Some(kind)
    }

    /// Whether `at` names a comparison.
    pub open spec fn has_truth(self, at: usize) -> bool {
        at < self.ops.len() && self.ops[at as int] is Compare
    }

    /// Whether `at` names an operation that creates a block.
    pub open spec fn has_block(self, at: usize) -> bool {
        at < self.ops.len() && (self.ops[at as int] is Entry || self.ops[at as int] is CreateBlock)
    }

    /// Whether `at` names the declaration of a variable.
    pub open spec fn has_var(self, at: usize) -> bool {
        at < self.ops.len() && self.ops[at as int] is DeclareVar
    }

    /// Whether the arguments given for the next call are values of the
    /// types that the callee takes.
    pub open spec fn arguments_fit(self, callee: Callee) -> bool {
        let given = state_of(self.ops).pending;
        let taken = callee_arguments(callee);
        given.len() == taken.len() && forall|j: int|
            0 <= j < given.len() ==> self.has_kind(#[trigger] given[j], taken[j])
    }

    /// Whether a builder that has taken the operations of this code can
    /// take `op` next: every block, variable and value that `op` names was
    /// created, declared or defined before, with the type that `op` needs;
    /// every table entry that it names exists; a block is switched to only
    /// while no block is open; anything else stands in an open block.
    pub open spec fn takes(self, op: Op) -> bool {
        let open = state_of(self.ops).open;
        match op {
            Op::Entry => self.ops.len() == 0,
            Op::CreateBlock | Op::DeclareVar => true,
            Op::BlockParam { block } | Op::Seal { block } => self.has_block(block),
            Op::SwitchTo { block } => self.has_block(block) && !open,
            Op::DefVar { var, value } => open && self.has_var(var) && self.has_kind(value, ValueType::Number),
            Op::UseVar { var } => open && self.has_var(var),
            Op::Number { .. } => open,
            Op::Literal { literal } => open && literal < self.literals.len(),
            Op::SlotPointer { slot } | Op::SlotLength { slot } => open && slot < self.slots.len(),
            Op::DataAddress { data } | Op::DataSize { data } => open && data < self.data.len(),
            Op::Neg { value } | Op::FloatToInt { value } => open && self.has_kind(value, ValueType::Number),
            Op::Binary { left, right, .. } | Op::Compare { left, right, .. } => open && self.has_kind(
                left,
                ValueType::Number,
            ) && self.has_kind(right, ValueType::Number),
            Op::BoolToFloat { value } => open && self.has_truth(value),
            Op::IntToFloat { value } => open && self.has_kind(value, ValueType::Integer),
            Op::Arg { value } => open && value < self.ops.len() && kind_of(self.ops[value as int]) is Some,
            Op::Call { callee } => open && self.arguments_fit(callee),
            Op::Jump { target } => open && self.has_block(target),
            Op::JumpWith { target, argument } => open && self.has_block(target) && self.has_kind(
                argument,
                ValueType::Number,
            ),
            Op::Branch { condition, then_block, else_block } => open && self.has_truth(condition)
                && self.has_block(then_block) && self.has_block(else_block),
            Op::Return { value } => open && self.has_kind(value, ValueType::Number),
        }
    }

    /// The code with its first `n` operations alone.
    pub open spec fn upto(self, n: int) -> Code {
        Code { ops: self.ops.take(n), ..self }
    }

    /// Whether a builder can take the operations one after the other.
    pub open spec fn well_formed(self) -> bool {
        forall|i: int| 0 <= i < self.ops.len() ==> (#[trigger] self.upto(i)).takes(self.ops[i])
    }

    /// Whether `break` and `continue` have blocks to jump to in every
    /// enclosing loop.
    pub open spec fn loops_have_blocks(self) -> bool {
        forall|k: int|
            0 <= k < self.loops.len() ==> self.has_block((#[trigger] self.loops[k]).break_block)
                && self.has_block(self.loops[k].continue_block)
    }

    /// Whether the code has the exit block and the return variable.
    pub open spec fn rooted(self) -> bool {
        self.has_block(EXIT_BLOCK) && self.has_var(RETURN_VAR)
    }

    /// Whether the code is well formed so far and stands in an open block.
    pub open spec fn sound(self) -> bool {
        self.well_formed() && state_of(self.ops).open && self.loops_have_blocks() && self.rooted()
    }

    /// Whether the code is well formed so far and can go on with anything:
    /// a block is open and no argument waits for a call.
    pub open spec fn ready(self) -> bool {
        self.sound() && state_of(self.ops).pending.len() == 0
    }

    /// Whether `at` names the first of the three blocks and the parameter
    /// of a branch.
    pub open spec fn has_branch(self, at: usize) -> bool {
        at + 3 < self.ops.len() && self.has_block(at) && self.has_block((at + 1) as usize)
            && self.has_block((at + 2) as usize) && self.has_kind((at + 3) as usize, ValueType::Number)
    }

    /// Whether `at` names the counter of a loop, with the four blocks of
    /// the loop behind it.
    pub open spec fn has_loop(self, at: usize) -> bool {
        at + 6 < self.ops.len() && self.has_var(at) && self.has_block((at + 3) as usize) && self.has_block(
            (at + 4) as usize,
        ) && self.has_block((at + 5) as usize) && self.has_block((at + 6) as usize)
    }

    /// Whether the code is a whole function: well formed, and every block
    /// that was switched to has its end.
    pub open spec fn complete(self) -> bool {
        self.well_formed() && !state_of(self.ops).open
    }
}

/// The code that every function starts with: the entry block, the exit
/// block, and the return variable set to 0.0.
pub open spec fn initial_code() -> Code {
    Code {
        ops: seq![
            Op::Entry,
            Op::CreateBlock,
            Op::DeclareVar,
            Op::Number { bits: ZERO },
            Op::DefVar { var: RETURN_VAR, value: 3 },
        ],
        slots: Seq::empty(),
        literals: Seq::empty(),
        data: Seq::empty(),
        loops: Seq::empty(),
    }
}

/// Whether an expression is the path `length`.
pub open spec fn is_length(e: IrExpr) -> bool {
    e matches IrExpr::Path(parts) && parts.len() == 1 && parts[0]@ == "length"@
}

/// The code that computes an expression, and the value that it defines;
/// or the feature for which the expression is refused.
pub open spec fn translate(e: IrExpr, code: Code) -> Result<(Code, usize), Seq<char>>
    decreases e, 2nat,
{
    match e {
        IrExpr::Constant(text) => Ok((code.literal(text@), code.next())),
        IrExpr::Path(parts) => {
            let loaded = code.load_variable(name_of(texts(parts@)));
            Ok((loaded, loaded.last()))
        },
        IrExpr::String(_) => Err("string literal as value expression"@),
        IrExpr::Array(elements) => Ok((code.number(number_of_nat(elements.len() as nat) as u64), code.next())),
        IrExpr::Struct(_) => Err("struct literal as value expression"@),
        IrExpr::Index { .. } => translate_index(e, code),
        IrExpr::Flow(flow) => if code.loops.len() == 0 {
            Err("break/continue outside loop"@)
        } else {
            Ok((code.flow(flow), code.next()))
        },
        IrExpr::Unary { op, expr } => match translate(*expr, code) {
            Ok((inner, value)) => Ok((inner.unary(op, value), inner.unary_value(op, value))),
            Err(feature) => Err(feature),
        },
        IrExpr::Binary { op, .. } => match op {
            BinaryOp::And | BinaryOp::Or | BinaryOp::NullCoalesce => translate_logical(e, code),
            BinaryOp::Equal | BinaryOp::NotEqual => translate_equality(e, code),
            _ => translate_pair(e, code),
        },
        IrExpr::Conditional { .. } => translate_conditional(e, code),
        IrExpr::Call { .. } => translate_call(e, code),
    }
}

/// Indexing. The index `length` of a path reads the length of the array at
/// the path; any other index of a path reads the element that the index
/// selects; the index is computed first.
pub open spec fn translate_index(e: IrExpr, code: Code) -> Result<(Code, usize), Seq<char>>
    decreases e, 0nat,
{
    match e {
        IrExpr::Index { target, index } => match *target {
            IrExpr::Path(base) => if is_length(*index) {
                let loaded = code.load_array_length(name_of(texts(base@)));
                Ok((loaded, loaded.last()))
            } else {
                match translate(*index, code) {
                    Ok((indexed, i)) => {
                        let loaded = indexed.array_get(name_of(texts(base@)), i);
                        Ok((loaded, loaded.last()))
                    },
                    Err(feature) => Err(feature),
                }
            },
            _ => Err("indexing non-path expression"@),
        },
        _ => Ok((code, 0)),
    }
}

/// The short-circuit operators. The left operand is computed and tested;
/// the right operand is computed in the one arm that needs it. `&&` gives
/// 1.0 where both operands are true, else 0.0; `||` gives 1.0 where the
/// left operand is true, else the right operand; `??` gives the left
/// operand where it is true, else the right operand.
pub open spec fn translate_logical(e: IrExpr, code: Code) -> Result<(Code, usize), Seq<char>>
    decreases e, 0nat,
{
    match e {
        IrExpr::Binary { op, left, right } => match translate(*left, code) {
            Ok((first, l)) => {
                let tested = first.truth_of(l);
                let at = tested.next();
                let opened = tested.open_branch(tested.last());
                match op {
                    BinaryOp::And => match translate(*right, opened) {
                        Ok((second, r)) => {
                            let truth = second.truth_of(r);
                            let widened = truth.emit(Op::BoolToFloat { value: truth.last() });
                            let other = widened.next_arm(at, widened.last()).number(ZERO);
                            Ok((other.close_branch(at, other.last()), (at + 3) as usize))
                        },
                        Err(feature) => Err(feature),
                    },
                    BinaryOp::Or => {
                        let one = opened.number(ONE);
                        match translate(*right, one.next_arm(at, one.last())) {
                            Ok((second, r)) => Ok((second.close_branch(at, r), (at + 3) as usize)),
                            Err(feature) => Err(feature),
                        }
                    },
                    _ => match translate(*right, opened.next_arm(at, l)) {
                        Ok((second, r)) => Ok((second.close_branch(at, r), (at + 3) as usize)),
                        Err(feature) => Err(feature),
                    },
                }
            },
            Err(feature) => Err(feature),
        },
        _ => Ok((code, 0)),
    }
}

/// Equality. Two paths, and a path and a string literal, are compared by
/// the runtime bridge; two string literals are compared here; anything
/// else is compared as numbers.
pub open spec fn translate_equality(e: IrExpr, code: Code) -> Result<(Code, usize), Seq<char>>
    decreases e, 1nat,
{
    match e {
        IrExpr::Binary { op, left, right } => {
            let is_equal = op == BinaryOp::Equal;
            match (*left, *right) {
                (IrExpr::Path(l), IrExpr::Path(r)) => {
                    let compared = code.paths_equality(name_of(texts(l@)), name_of(texts(r@)), is_equal);
                    Ok((compared, compared.last()))
                },
                (IrExpr::Path(path), IrExpr::String(text)) => {
                    let compared = code.path_string_equality(name_of(texts(path@)), text@, is_equal);
                    Ok((compared, compared.last()))
                },
                (IrExpr::String(text), IrExpr::Path(path)) => {
                    let compared = code.path_string_equality(name_of(texts(path@)), text@, is_equal);
                    Ok((compared, compared.last()))
                },
                (IrExpr::String(l), IrExpr::String(r)) => Ok(
                    (
                        code.number(
                            if (l@ == r@) == is_equal {
                                ONE
                            } else {
                                ZERO
                            },
                        ),
                        code.next(),
                    ),
                ),
                _ => translate_pair(e, code),
            }
        },
        _ => Ok((code, 0)),
    }
}

/// The conditional: the condition is computed and tested, each arm is
/// computed in a block of its own; a missing `else` arm gives 0.0.
pub open spec fn translate_conditional(e: IrExpr, code: Code) -> Result<(Code, usize), Seq<char>>
    decreases e, 0nat,
{
    match e {
        IrExpr::Conditional { condition, then_branch, else_branch } => match translate(*condition, code) {
            Ok((first, c)) => {
                let tested = first.truth_of(c);
                let at = tested.next();
                match translate(*then_branch, tested.open_branch(tested.last())) {
                    Ok((second, t)) => {
                        let other = second.next_arm(at, t);
                        match else_branch {
                            Some(branch) => match translate(*branch, other) {
                                Ok((third, v)) => Ok((third.close_branch(at, v), (at + 3) as usize)),
                                Err(feature) => Err(feature),
                            },
                            None => Ok((other.number(ZERO).close_branch(at, other.next()), (at + 3) as usize)),
                        }
                    },
                    Err(feature) => Err(feature),
                }
            },
            Err(feature) => Err(feature),
        },
        _ => Ok((code, 0)),
    }
}

/// A call: the arguments are computed in order and passed to the function.
pub open spec fn translate_call(e: IrExpr, code: Code) -> Result<(Code, usize), Seq<char>>
    decreases e, 0nat,
{
    match e {
        IrExpr::Call { function, args } => match translate_list(args, args.len() as nat, code) {
            Ok((evaluated, values)) => {
                let called = evaluated.args(values).emit(
                    Op::Call { callee: Callee::Builtin(function->Builtin_0) },
                );
                Ok((called, called.last()))
            },
            Err(feature) => Err(feature),
        },
        _ => Ok((code, 0)),
    }
}

/// The code that computes the two operands of a binary expression, left
/// first, and applies its arithmetic or ordering operator to them.
pub open spec fn translate_pair(e: IrExpr, code: Code) -> Result<(Code, usize), Seq<char>>
    decreases e, 0nat,
{
    match e {
        IrExpr::Binary { op, left, right } => match translate(*left, code) {
            Ok((first, l)) => match translate(*right, first) {
                Ok((second, r)) => {
                    let applied = second.binary(op, l, r);
                    Ok((applied, applied.last()))
                },
                Err(feature) => Err(feature),
            },
            Err(feature) => Err(feature),
        },
        _ => Ok((code, 0)),
    }
}

/// The code that computes the first `n` expressions in order, and the
/// values that they define.
pub open spec fn translate_list(items: Vec<IrExpr>, n: nat, code: Code) -> Result<
    (Code, Seq<usize>),
    Seq<char>,
>
    decreases items, n,
{
    if n == 0 || n > items.len() {
        Ok((code, Seq::empty()))
    } else {
        match translate_list(items, (n - 1) as nat, code) {
            Ok((first, values)) => match translate(items[n - 1], first) {
                Ok((second, value)) => Ok((second, values.push(value))),
                Err(feature) => Err(feature),
            },
            Err(feature) => Err(feature),
        }
    }
}

/// The code that assigns an expression to a target path, by the kind of
/// the expression; or the feature for which the assignment is refused.
pub open spec fn assign(target: Seq<Seq<char>>, e: IrExpr, code: Code) -> Result<Code, Seq<char>>
    decreases e, 2nat,
{
    match e {
        IrExpr::String(text) => Ok(code.set_string(name_of(target), text@)),
        IrExpr::Array(elements) => {
            let (first, slot) = code.slot(name_of(target));
            assign_elements(slot, elements, elements.len() as nat, first.clear_slot(slot))
        },
        IrExpr::Struct(fields) => {
            let (first, slot) = code.slot(name_of(target));
            assign_fields(target, fields, fields.len() as nat, first.clear_slot(slot))
        },
        IrExpr::Index { .. } => Err("index as assignment source"@),
        IrExpr::Flow(_) => Err("control flow expression as assignment source"@),
        _ => match translate(e, code) {
            Ok((computed, value)) => Ok(computed.store_number(name_of(target), value)),
            Err(feature) => Err(feature),
        },
    }
}

/// The code that appends the first `n` elements of an array literal to the
/// array in a slot. A number and a text are appended; any other element is
/// assigned to a temporary and not appended.
pub open spec fn assign_elements(slot: usize, elements: Vec<IrExpr>, n: nat, code: Code) -> Result<
    Code,
    Seq<char>,
>
    decreases elements, n,
{
    if n == 0 || n > elements.len() {
        Ok(code)
    } else {
        match assign_elements(slot, elements, (n - 1) as nat, code) {
            Ok(first) => {
                let element = elements[n - 1];
                match element {
                    IrExpr::String(text) => Ok(first.push_string(slot, text@)),
                    IrExpr::Array(_) | IrExpr::Struct(_) | IrExpr::Index { .. } | IrExpr::Flow(_) => assign(
                        temp_path("__temp_array_elem_"@, first.slots.len()),
                        element,
                        first,
                    ),
                    _ => match translate(element, first) {
                        Ok((computed, value)) => Ok(computed.push_number(slot, value)),
                        Err(feature) => Err(feature),
                    },
                }
            },
            Err(feature) => Err(feature),
        }
    }
}

/// The code that assigns the first `n` fields of a struct literal, each to
/// the target path extended by the name of the field.
pub open spec fn assign_fields(target: Seq<Seq<char>>, fields: Vec<IrField>, n: nat, code: Code) -> Result<
    Code,
    Seq<char>,
>
    decreases fields, n,
{
    if n == 0 || n > fields.len() {
        Ok(code)
    } else {
        match assign_fields(target, fields, (n - 1) as nat, code) {
            Ok(first) => assign(target.push(fields[n - 1].name@), fields[n - 1].value, first),
            Err(feature) => Err(feature),
        }
    }
}

/// The code of a statement; or the feature for which it is refused.
pub open spec fn translate_statement(s: IrStatement, code: Code) -> Result<Code, Seq<char>>
    decreases s, 1nat,
{
    match s {
        IrStatement::Assign { target, value } => match value {
            IrExpr::Path(source) => Ok(
                code.copy_assignment(name_of(texts(target@)), name_of(texts(source@))),
            ),
            _ => assign(texts(target@), value, code),
        },
        IrStatement::Expr(e) => match translate(e, code) {
            Ok((computed, _)) => Ok(computed),
            Err(feature) => Err(feature),
        },
        IrStatement::Block(list) => translate_statements(list, list.len() as nat, code),
        IrStatement::Return(value) => match value {
            Some(e) => match translate(e, code) {
                Ok((computed, v)) => Ok(computed.return_value(v)),
                Err(feature) => Err(feature),
            },
            None => Ok(code.number(ZERO).return_value(code.next())),
        },
        IrStatement::Loop { .. } => translate_loop(s, code),
        IrStatement::ForEach { .. } => translate_for_each(s, code),
    }
}

/// A counting loop. The count is computed once and capped at 1024; the
/// body runs while the counter, which starts at 0.0 and grows by 1.0, is
/// below it. A count that is zero, negative or NaN runs the body never.
pub open spec fn translate_loop(s: IrStatement, code: Code) -> Result<Code, Seq<char>>
    decreases s, 0nat,
{
    match s {
        IrStatement::Loop { count, body } => match translate(count, code) {
            Ok((counted, c)) => {
                let limited = counted.number(LOOP_LIMIT).emit(
                    Op::Binary { op: FloatOp::Min, left: c, right: counted.next() },
                );
                let at = limited.next();
                match translate_statement(*body, limited.open_loop(limited.last()).enter_loop(at)) {
                    Ok(done) => Ok(done.close_loop(at)),
                    Err(feature) => Err(feature),
                }
            },
            Err(feature) => Err(feature),
        },
        _ => Ok(code),
    }
}

/// A loop over an array. The length of the array is read once; the body
/// runs once for each position below it, the loop variable bound to the
/// element at the position.
pub open spec fn translate_for_each(s: IrStatement, code: Code) -> Result<Code, Seq<char>>
    decreases s, 0nat,
{
    match s {
        IrStatement::ForEach { variable, collection, body } => match collection_path(collection, code) {
            Ok((first, parts)) => {
                let measured = first.load_array_length(name_of(parts));
                let at = measured.next();
                let bound = measured.open_loop(measured.last()).bind_element(
                    at,
                    name_of(parts),
                    name_of(texts(variable@)),
                ).enter_loop(at);
                match translate_statement(*body, bound) {
                    Ok(done) => Ok(done.close_loop(at)),
                    Err(feature) => Err(feature),
                }
            },
            Err(feature) => Err(feature),
        },
        _ => Ok(code),
    }
}

/// The path of the collection of a `for_each`: the collection itself where
/// it is a path, else a temporary that the collection is assigned to.
pub open spec fn collection_path(collection: IrExpr, code: Code) -> Result<(Code, Seq<Seq<char>>), Seq<char>> {
    match collection {
        IrExpr::Path(parts) => Ok((code, texts(parts@))),
        _ => {
            let temp = temp_path("__temp_collection_"@, code.slots.len());
            match assign(temp, collection, code) {
                Ok(assigned) => Ok((assigned, temp)),
                Err(feature) => Err(feature),
            }
        },
    }
}

/// The code of the first `n` statements in order.
pub open spec fn translate_statements(list: Vec<IrStatement>, n: nat, code: Code) -> Result<Code, Seq<char>>
    decreases list, n,
{
    if n == 0 || n > list.len() {
        Ok(code)
    } else {
        match translate_statements(list, (n - 1) as nat, code) {
            Ok(first) => translate_statement(list[n - 1], first),
            Err(feature) => Err(feature),
        }
    }
}

/// The function that a pure expression compiles to: it returns the value
/// of the expression.
pub open spec fn expression_code(e: IrExpr) -> Result<Code, Seq<char>> {
    match translate(e, initial_code()) {
        Ok((code, value)) => Ok(code.emit(Op::Return { value })),
        Err(feature) => Err(feature),
    }
}

/// The function that a program compiles to: it returns what the program
/// returned, or 0.0.
pub open spec fn program_code(program: IrProgram) -> Result<Code, Seq<char>> {
    match translate_statements(program.statements, program.statements.len() as nat, initial_code()) {
        Ok(code) => Ok(code.finish_program()),
        Err(feature) => Err(feature),
    }
}

/// Why code generation fails.
#[derive(Debug)]
pub enum JitError {
    /// A math function gave no value.
    MissingReturnValue { function: BuiltinFunction },
    /// A name is not known.
    UnknownVariable { name: String },
    /// A statement that the code generator does not take.
    UnsupportedStatement { feature: &'static str },
    /// An expression that the code generator does not take where it stands.
    UnsupportedExpression { feature: &'static str },
}

/// Whether an error refuses an expression for the given feature.
pub open spec fn refuses(error: JitError, feature: Seq<char>) -> bool {
    error matches JitError::UnsupportedExpression { feature: named } && named@ == feature
}

/// Whether a step gave what `expected` names: the same value and the same
/// code, or a refusal for the same feature.
pub open spec fn translated(
    result: Result<usize, JitError>,
    after: Code,
    expected: Result<(Code, usize), Seq<char>>,
) -> bool {
    match expected {
        Ok((code, value)) => result matches Ok(v) && v == value && after == code && after.ops.len()
            <= usize::MAX,
        Err(feature) => result matches Err(error) && refuses(error, feature),
    }
}

/// The same for a step that defines no value.
pub open spec fn assigned(result: Result<(), JitError>, after: Code, expected: Result<Code, Seq<char>>) -> bool {
    match expected {
        Ok(code) => result is Ok && after == code && after.ops.len() <= usize::MAX,
        Err(feature) => result matches Err(error) && refuses(error, feature),
    }
}

/// The same for a step that defines a list of values.
pub open spec fn translated_list(
    result: Result<Vec<usize>, JitError>,
    after: Code,
    expected: Result<(Code, Seq<usize>), Seq<char>>,
) -> bool {
    match expected {
        Ok((code, values)) => result matches Ok(v) && v@ == values && after == code && after.ops.len()
            <= usize::MAX,
        Err(feature) => result matches Err(error) && refuses(error, feature),
    }
}

/// Whether `at` is the position that the next operation takes.
pub open spec fn starts_at(code: Code, at: usize) -> bool {
    code.ops.len() <= usize::MAX && at == code.ops.len()
}

/// Whether `at` is the position of the last operation.
pub open spec fn ends_at(code: Code, at: usize) -> bool {
    code.ops.len() <= usize::MAX && at == code.ops.len() - 1
}

/// Whether the later code goes on from the earlier: it starts with the
/// same operations, its tables are as long or longer, it stands in the same
/// loops, and its operations can be counted.
pub open spec fn grows(before: Code, after: Code) -> bool {
    &&& before.ops.len() <= after.ops.len() <= usize::MAX
    &&& after.loops == before.loops
    &&& forall|i: int| 0 <= i < before.ops.len() ==> after.ops[i] == before.ops[i]
    &&& before.slots.len() <= after.slots.len()
    &&& before.literals.len() <= after.literals.len()
    &&& before.data.len() <= after.data.len()
}

/// The names of a slot table.
pub open spec fn names(slots: Seq<QualifiedName>) -> Seq<StoreKey> {
    slots.map_values(|name: QualifiedName| name@)
}

/// A code stays well formed where its tables grow.
proof fn lemma_tables_grow(before: Code, after: Code)
    requires
        before.well_formed(),
        after.ops == before.ops,
        before.slots.len() <= after.slots.len(),
        before.literals.len() <= after.literals.len(),
        before.data.len() <= after.data.len(),
    ensures
        after.well_formed(),
{
    assert forall|i: int| 0 <= i < after.ops.len() implies (#[trigger] after.upto(i)).takes(after.ops[i]) by {
        assert(before.upto(i).takes(before.ops[i]));
        assert(after.upto(i).ops == before.upto(i).ops);
    }
}

/// A well-formed code that takes one more operation stays well formed.
proof fn lemma_emit(before: Code, op: Op)
    ensures
        state_of(before.emit(op).ops) == next_state(state_of(before.ops), op),
        before.well_formed() && before.takes(op) ==> before.emit(op).well_formed(),
{
    let after = before.emit(op);
    assert(after.ops.drop_last() =~= before.ops);
    if before.well_formed() && before.takes(op) {
        assert forall|i: int| 0 <= i < after.ops.len() implies (#[trigger] after.upto(i)).takes(
            after.ops[i],
        ) by {
            if i < before.ops.len() {
                assert(after.ops.take(i) =~= before.ops.take(i));
                assert(after.upto(i) == before.upto(i));
            } else {
                assert(after.ops.take(i) =~= before.ops);
                assert(after.upto(i) == before);
            }
        }
    }
}

proof fn lemma_find_slot(slots: Seq<StoreKey>, name: StoreKey)
    ensures
        match find_slot(slots, name) {
            Some(i) => 0 <= i < slots.len() && slots[i] == name && forall|j: int|
                0 <= j < i ==> slots[j] != name,
            None => forall|j: int| 0 <= j < slots.len() ==> slots[j] != name,
        },
    decreases slots.len(),
{
    if slots.len() > 0 {
        let rest = slots.drop_last();
        lemma_find_slot(rest, name);
        assert(forall|j: int| 0 <= j < rest.len() ==> rest[j] == slots[j]);
    }
}

proof fn lemma_list_refused(items: Vec<IrExpr>, i: nat, n: nat, code: Code)
    requires
        i < n <= items.len(),
        translate_list(items, i + 1, code) is Err,
    ensures
        translate_list(items, n, code) == translate_list(items, i + 1, code),
    decreases n,
{
    if n > i + 1 {
        lemma_list_refused(items, i, (n - 1) as nat, code);
    }
}

proof fn lemma_elements_refused(slot: usize, elements: Vec<IrExpr>, i: nat, n: nat, code: Code)
    requires
        i < n <= elements.len(),
        assign_elements(slot, elements, i + 1, code) is Err,
    ensures
        assign_elements(slot, elements, n, code) == assign_elements(slot, elements, i + 1, code),
    decreases n,
{
    if n > i + 1 {
        lemma_elements_refused(slot, elements, i, (n - 1) as nat, code);
    }
}

proof fn lemma_fields_refused(target: Seq<Seq<char>>, fields: Vec<IrField>, i: nat, n: nat, code: Code)
    requires
        i < n <= fields.len(),
        assign_fields(target, fields, i + 1, code) is Err,
    ensures
        assign_fields(target, fields, n, code) == assign_fields(target, fields, i + 1, code),
    decreases n,
{
    if n > i + 1 {
        lemma_fields_refused(target, fields, i, (n - 1) as nat, code);
    }
}

proof fn lemma_statements_refused(list: Vec<IrStatement>, i: nat, n: nat, code: Code)
    requires
        i < n <= list.len(),
        translate_statements(list, i + 1, code) is Err,
    ensures
        translate_statements(list, n, code) == translate_statements(list, i + 1, code),
    decreases n,
{
    if n > i + 1 {
        lemma_statements_refused(list, i, (n - 1) as nat, code);
    }
}

/// The path of a temporary: the prefix followed by a number.
fn temp_parts(prefix: &str, n: usize) -> (r: Vec<String>)
    ensures
        texts(r@) == temp_path(prefix@, n as nat),
{
    let mut name = prefix.to_owned();
    push_decimal(&mut name, n);
    let mut parts: Vec<String> = Vec::new();
    parts.push(name);
    assert(texts(parts@) =~= temp_path(prefix@, n as nat));
    parts
}

/// The state of the code generator while it compiles one function.
struct Translator {
    ops: Vec<Op>,
    slots: Vec<QualifiedName>,
    literals: Vec<String>,
    data: Vec<String>,
    loops: Vec<LoopContext>,
}

impl View for Translator {
    type V = Code;

    closed spec fn view(&self) -> Code {
        Code {
            ops: self.ops@,
            slots: names(self.slots@),
            literals: texts(self.literals@),
            data: texts(self.data@),
            loops: self.loops@,
        }
    }
}

impl Translator {
    fn new() -> (r: Self)
        ensures
            r@ == initial_code(),
    {
        let mut ops: Vec<Op> = Vec::new();
        ops.push(Op::Entry);
        ops.push(Op::CreateBlock);
        ops.push(Op::DeclareVar);
        ops.push(Op::Number { bits: ZERO });
        ops.push(Op::DefVar { var: RETURN_VAR, value: 3 });
        let r = Translator {
            ops,
            slots: Vec::new(),
            literals: Vec::new(),
            data: Vec::new(),
            loops: Vec::new(),
        };
        proof {
            assert(r.ops@ =~= initial_code().ops);
            assert(names(r.slots@) =~= initial_code().slots);
            assert(texts(r.literals@) =~= initial_code().literals);
            assert(texts(r.data@) =~= initial_code().data);
            assert(r.loops@ =~= initial_code().loops);
        }
        r
    }

    fn emit(&mut self, op: Op) -> (at: usize)
        ensures
            final(self)@ == old(self)@.emit(op),
            grows(old(self)@, final(self)@),
            starts_at(old(self)@, at),
            ends_at(final(self)@, at),
            state_of(final(self)@.ops) == next_state(state_of(old(self)@.ops), op),
            old(self)@.well_formed() && old(self)@.takes(op) ==> final(self)@.well_formed(),
            final(self)@.ops[at as int] == op,
    {
        proof {
            lemma_emit(self@, op);
        }
        let at = self.ops.len();
        self.ops.push(op);
        assert(self.ops.len() == self.ops@.len());
        at
    }

    #[verifier::loop_isolation(false)]
    fn ensure_slot(&mut self, name: QualifiedName) -> (slot: usize)
        ensures
            (final(self)@, slot) == old(self)@.slot(name@),
            grows(old(self)@, final(self)@),
            final(self)@.ops == old(self)@.ops,
            slot < final(self)@.slots.len(),
            old(self)@.well_formed() ==> final(self)@.well_formed(),
    {
        proof {
            lemma_find_slot(names(self.slots@), name@);
            self.bounded();
        }
        let mut i: usize = 0;
        while i < self.slots.len()
            invariant
                i <= self.slots.len(),
                self.slots == old(self).slots,
                self@ == old(self)@,
                forall|j: int| 0 <= j < i ==> names(self.slots@)[j] != name@,
            decreases self.slots.len() - i,
        {
            if self.slots[i].same_as(&name) {
                assert(names(self.slots@)[i as int] == name@);
                return i;
            }
            i += 1;
        }
        let index = self.slots.len();
        let ghost before = self.slots@;
        self.slots.push(name);
        assert(names(self.slots@) =~= names(before).push(name@));
        proof {
            if old(self)@.well_formed() {
                lemma_tables_grow(old(self)@, self@);
            }
        }
        index
    }

    fn ensure_slot_from_parts(&mut self, parts: &[String]) -> (slot: usize)
        ensures
            (final(self)@, slot) == old(self)@.slot(name_of(texts(parts@))),
            grows(old(self)@, final(self)@),
            final(self)@.ops == old(self)@.ops,
            slot < final(self)@.slots.len(),
            old(self)@.well_formed() ==> final(self)@.well_formed(),
    {
        let name = QualifiedName::from_parts(parts);
        self.ensure_slot(name)
    }

    fn number(&mut self, bits: u64) -> (at: usize)
        ensures
            final(self)@ == old(self)@.number(bits),
            grows(old(self)@, final(self)@),
            starts_at(old(self)@, at),
            ends_at(final(self)@, at),
            state_of(final(self)@.ops) == state_of(old(self)@.ops),
            old(self)@.sound() ==> final(self)@.sound(),
            final(self)@.has_kind(at, ValueType::Number),
    {
        self.emit(Op::Number { bits })
    }

    fn add_data(&mut self, text: &str) -> (data: usize)
        ensures
            final(self)@ == old(self)@.with_data(text@),
            grows(old(self)@, final(self)@),
            data == old(self)@.data.len(),
            final(self)@.ops == old(self)@.ops,
            data < final(self)@.data.len(),
            old(self)@.well_formed() ==> final(self)@.well_formed(),
    {
        proof {
            self.bounded();
        }
        let data = self.data.len();
        let ghost before = self.data@;
        self.data.push(text.to_owned());
        assert(texts(self.data@) =~= texts(before).push(text@));
        proof {
            if old(self)@.well_formed() {
                lemma_tables_grow(old(self)@, self@);
            }
        }
        data
    }

    fn load_slot(&mut self, slot: usize) -> (at: usize)
        ensures
            final(self)@ == old(self)@.load_slot(slot),
            grows(old(self)@, final(self)@),
            starts_at(old(self)@, at),
            final(self)@.ops.len() == at + 2,
            final(self)@.ops.len() <= usize::MAX,
            state_of(final(self)@.ops) == state_of(old(self)@.ops),
            slot < old(self)@.slots.len() && old(self)@.sound() ==> final(self)@.sound(),
            final(self)@.has_kind(at, ValueType::Pointer),
            final(self)@.has_kind((at + 1) as usize, ValueType::Pointer),
    {
        let at = self.emit(Op::SlotPointer { slot });
        self.emit(Op::SlotLength { slot });
        at
    }

    fn pair(&mut self, at: usize)
        requires
            at + 1 < old(self)@.ops.len() <= usize::MAX,
        ensures
            final(self)@ == old(self)@.pair(at),
            grows(old(self)@, final(self)@),
            state_of(final(self)@.ops).open == state_of(old(self)@.ops).open,
            state_of(final(self)@.ops).pending == state_of(old(self)@.ops).pending.push(at).push((at + 1) as usize),
            old(self)@.sound() && old(self)@.has_kind(at, ValueType::Pointer) && old(self)@.has_kind((at + 1) as usize, ValueType::Pointer) ==> final(self)@.sound(),
    {
        self.emit(Op::Arg { value: at });
        self.emit(Op::Arg { value: at + 1 });
    }

    fn call_on_slot(&mut self, helper: RuntimeHelper, slot: usize) -> (at: usize)
        ensures
            final(self)@ == old(self)@.call_on_slot(helper, slot),
            grows(old(self)@, final(self)@),
            ends_at(final(self)@, at),
            old(self)@.ready() && slot < old(self)@.slots.len() && helper_arguments(helper) == seq![ValueType::Pointer, ValueType::Pointer] ==> final(self)@.ready(),
            kind_of(final(self)@.ops[at as int]) == helper_result(helper),
    {
        let loaded = self.load_slot(slot);
        self.pair(loaded);
        self.emit(Op::Call { callee: Callee::Runtime(helper) })
    }

    fn load_variable(&mut self, parts: &[String]) -> (at: usize)
        ensures
            final(self)@ == old(self)@.load_variable(name_of(texts(parts@))),
            grows(old(self)@, final(self)@),
            ends_at(final(self)@, at),
            old(self)@.ready() ==> final(self)@.ready(),
            final(self)@.has_kind(at, ValueType::Number),
    {
        let slot = self.ensure_slot_from_parts(parts);
        self.call_on_slot(RuntimeHelper::GetNumber, slot)
    }

    fn load_array_length(&mut self, parts: &[String]) -> (at: usize)
        ensures
            final(self)@ == old(self)@.load_array_length(name_of(texts(parts@))),
            grows(old(self)@, final(self)@),
            ends_at(final(self)@, at),
            old(self)@.ready() ==> final(self)@.ready(),
            final(self)@.has_kind(at, ValueType::Number),
    {
        let slot = self.ensure_slot_from_parts(parts);
        let length = self.call_on_slot(RuntimeHelper::ArrayLength, slot);
        self.emit(Op::IntToFloat { value: length })
    }

    fn array_get(&mut self, parts: &[String], index: usize) -> (at: usize)
        ensures
            final(self)@ == old(self)@.array_get(name_of(texts(parts@)), index),
            grows(old(self)@, final(self)@),
            ends_at(final(self)@, at),
            old(self)@.ready() && old(self)@.has_kind(index, ValueType::Number) ==> final(self)@.ready(),
            final(self)@.has_kind(at, ValueType::Number),
    {
        let slot = self.ensure_slot_from_parts(parts);
        let loaded = self.load_slot(slot);
        self.pair(loaded);
        self.emit(Op::Arg { value: index });
        self.emit(Op::Call { callee: Callee::Runtime(RuntimeHelper::ArrayGetNumber) })
    }

    fn store_number(&mut self, parts: &[String], value: usize)
        ensures
            final(self)@ == old(self)@.store_number(name_of(texts(parts@)), value),
            grows(old(self)@, final(self)@),
            old(self)@.ready() && old(self)@.has_kind(value, ValueType::Number) ==> final(self)@.ready(),
    {
        let slot = self.ensure_slot_from_parts(parts);
        let loaded = self.load_slot(slot);
        self.pair(loaded);
        self.emit(Op::Arg { value });
        self.emit(Op::Call { callee: Callee::Runtime(RuntimeHelper::SetNumber) });
    }

    fn clear_slot(&mut self, slot: usize)
        ensures
            final(self)@ == old(self)@.clear_slot(slot),
            grows(old(self)@, final(self)@),
            old(self)@.ready() && slot < old(self)@.slots.len() ==> final(self)@.ready(),
            final(self)@.slots == old(self)@.slots,
    {
        self.call_on_slot(RuntimeHelper::ClearValue, slot);
    }

    #[verifier::rlimit(50)]
    fn copy_assignment(&mut self, target: &[String], source: &[String])
        ensures
            final(self)@ == old(self)@.copy_assignment(name_of(texts(target@)), name_of(texts(source@))),
            grows(old(self)@, final(self)@),
            old(self)@.ready() ==> final(self)@.ready(),
    {
        let dest_slot = self.ensure_slot_from_parts(target);
        let src_slot = self.ensure_slot_from_parts(source);
        self.clear_slot(dest_slot);
        let dest = self.load_slot(dest_slot);
        let src = self.load_slot(src_slot);
        self.pair(dest);
        self.pair(src);
        self.emit(Op::Call { callee: Callee::Runtime(RuntimeHelper::CopyValue) });
    }

    #[verifier::rlimit(50)]
    fn set_string(&mut self, parts: &[String], text: &str)
        ensures
            final(self)@ == old(self)@.set_string(name_of(texts(parts@)), text@),
            grows(old(self)@, final(self)@),
            old(self)@.ready() ==> final(self)@.ready(),
    {
        let slot = self.ensure_slot_from_parts(parts);
        let data = self.add_data(text);
        let loaded = self.load_slot(slot);
        let size = self.emit(Op::DataSize { data });
        let address = self.emit(Op::DataAddress { data });
        self.pair(loaded);
        self.emit(Op::Arg { value: address });
        self.emit(Op::Arg { value: size });
        self.emit(Op::Call { callee: Callee::Runtime(RuntimeHelper::SetString) });
    }

    fn push_number(&mut self, slot: usize, value: usize)
        ensures
            final(self)@ == old(self)@.push_number(slot, value),
            grows(old(self)@, final(self)@),
            old(self)@.ready() && slot < old(self)@.slots.len() && old(self)@.has_kind(value, ValueType::Number) ==> final(self)@.ready(),
            final(self)@.slots == old(self)@.slots,
    {
        let loaded = self.load_slot(slot);
        self.pair(loaded);
        self.emit(Op::Arg { value });
        self.emit(Op::Call { callee: Callee::Runtime(RuntimeHelper::ArrayPushNumber) });
    }

    #[verifier::rlimit(50)]
    fn push_string(&mut self, slot: usize, text: &str)
        ensures
            final(self)@ == old(self)@.push_string(slot, text@),
            grows(old(self)@, final(self)@),
            old(self)@.ready() && slot < old(self)@.slots.len() ==> final(self)@.ready(),
            final(self)@.slots == old(self)@.slots,
    {
        let data = self.add_data(text);
        let size = self.emit(Op::DataSize { data });
        let address = self.emit(Op::DataAddress { data });
        let loaded = self.load_slot(slot);
        self.pair(loaded);
        self.emit(Op::Arg { value: address });
        self.emit(Op::Arg { value: size });
        self.emit(Op::Call { callee: Callee::Runtime(RuntimeHelper::ArrayPushString) });
    }

    #[verifier::rlimit(50)]
    fn paths_equality(&mut self, left: &[String], right: &[String], is_equal: bool) -> (at: usize)
        ensures
            final(self)@ == old(self)@.paths_equality(
                name_of(texts(left@)),
                name_of(texts(right@)),
                is_equal,
            ),
            grows(old(self)@, final(self)@),
            ends_at(final(self)@, at),
            old(self)@.ready() ==> final(self)@.ready(),
            final(self)@.has_kind(at, ValueType::Number),
    {
        let left_slot = self.ensure_slot_from_parts(left);
        let left_loaded = self.load_slot(left_slot);
        let right_slot = self.ensure_slot_from_parts(right);
        let right_loaded = self.load_slot(right_slot);
        self.pair(left_loaded);
        self.pair(right_loaded);
        let helper = if is_equal {
            RuntimeHelper::EqualPaths
        } else {
            RuntimeHelper::NotEqualPaths
        };
        self.emit(Op::Call { callee: Callee::Runtime(helper) })
    }

    #[verifier::rlimit(50)]
    fn path_string_equality(&mut self, path: &[String], text: &str, is_equal: bool) -> (at: usize)
        ensures
            final(self)@ == old(self)@.path_string_equality(name_of(texts(path@)), text@, is_equal),
            grows(old(self)@, final(self)@),
            ends_at(final(self)@, at),
            old(self)@.ready() ==> final(self)@.ready(),
            final(self)@.has_kind(at, ValueType::Number),
    {
        let slot = self.ensure_slot_from_parts(path);
        let data = self.add_data(text);
        let loaded = self.load_slot(slot);
        let address = self.emit(Op::DataAddress { data });
        self.emit(Op::DataSize { data });
        self.pair(loaded);
        self.pair(address);
        let helper = if is_equal {
            RuntimeHelper::EqualPathString
        } else {
            RuntimeHelper::NotEqualPathString
        };
        self.emit(Op::Call { callee: Callee::Runtime(helper) })
    }

    fn truth_of(&mut self, value: usize) -> (at: usize)
        ensures
            final(self)@ == old(self)@.truth_of(value),
            grows(old(self)@, final(self)@),
            ends_at(final(self)@, at),
            state_of(final(self)@.ops) == state_of(old(self)@.ops),
            old(self)@.sound() && old(self)@.has_kind(value, ValueType::Number) ==> final(self)@.sound(),
            final(self)@.has_truth(at),
    {
        let zero = self.number(ZERO);
        self.emit(Op::Compare { cond: FloatCond::NotEqual, left: value, right: zero })
    }

    fn comparison(&mut self, cond: FloatCond, left: usize, right: usize) -> (at: usize)
        ensures
            final(self)@ == old(self)@.comparison(cond, left, right),
            grows(old(self)@, final(self)@),
            ends_at(final(self)@, at),
            state_of(final(self)@.ops) == state_of(old(self)@.ops),
            old(self)@.sound() && old(self)@.has_kind(left, ValueType::Number) && old(self)@.has_kind(right, ValueType::Number) ==> final(self)@.sound(),
            final(self)@.has_kind(at, ValueType::Number),
    {
        let truth = self.emit(Op::Compare { cond, left, right });
        self.emit(Op::BoolToFloat { value: truth })
    }

    fn unary(&mut self, op: UnaryOp, value: usize) -> (at: usize)
        ensures
            final(self)@ == old(self)@.unary(op, value),
            grows(old(self)@, final(self)@),
            at == old(self)@.unary_value(op, value),
            state_of(final(self)@.ops) == state_of(old(self)@.ops),
            old(self)@.sound() && old(self)@.has_kind(value, ValueType::Number) ==> final(self)@.sound(),
            old(self)@.has_kind(value, ValueType::Number) ==> final(self)@.has_kind(at, ValueType::Number),
    {
        proof {
            self.bounded();
        }
        match op {
            UnaryOp::Plus => value,
            UnaryOp::Minus => self.emit(Op::Neg { value }),
            UnaryOp::Not => {
                let zero = self.number(ZERO);
                self.comparison(FloatCond::Equal, value, zero)
            },
        }
    }

    fn binary(&mut self, op: BinaryOp, left: usize, right: usize) -> (at: usize)
        ensures
            final(self)@ == old(self)@.binary(op, left, right),
            grows(old(self)@, final(self)@),
            ends_at(final(self)@, at),
            state_of(final(self)@.ops) == state_of(old(self)@.ops),
            old(self)@.sound() && old(self)@.has_kind(left, ValueType::Number) && old(self)@.has_kind(right, ValueType::Number) ==> final(self)@.sound(),
            final(self)@.has_kind(at, ValueType::Number),
    {
        match op {
            BinaryOp::Add => self.emit(Op::Binary { op: FloatOp::Add, left, right }),
            BinaryOp::Sub => self.emit(Op::Binary { op: FloatOp::Sub, left, right }),
            BinaryOp::Mul => self.emit(Op::Binary { op: FloatOp::Mul, left, right }),
            BinaryOp::Div => self.emit(Op::Binary { op: FloatOp::Div, left, right }),
            BinaryOp::Less => self.comparison(FloatCond::LessThan, left, right),
            BinaryOp::LessEqual => self.comparison(FloatCond::LessThanOrEqual, left, right),
            BinaryOp::Greater => self.comparison(FloatCond::GreaterThan, left, right),
            BinaryOp::GreaterEqual => self.comparison(FloatCond::GreaterThanOrEqual, left, right),
            BinaryOp::NotEqual => self.comparison(FloatCond::NotEqual, left, right),
            _ => self.comparison(FloatCond::Equal, left, right),
        }
    }

    fn open_branch(&mut self, condition: usize) -> (at: usize)
        ensures
            final(self)@ == old(self)@.open_branch(condition),
            grows(old(self)@, final(self)@),
            starts_at(old(self)@, at),
            final(self)@.ops.len() == at + 6,
            final(self)@.ops.len() <= usize::MAX,
            state_of(final(self)@.ops).pending == state_of(old(self)@.ops).pending,
            old(self)@.sound() && old(self)@.has_truth(condition) ==> final(self)@.sound(),
            final(self)@.has_branch(at),
    {
        let then_block = self.emit(Op::CreateBlock);
        let else_block = self.emit(Op::CreateBlock);
        let merge_block = self.emit(Op::CreateBlock);
        self.emit(Op::BlockParam { block: merge_block });
        self.emit(Op::Branch { condition, then_block, else_block });
        self.emit(Op::SwitchTo { block: then_block });
        then_block
    }

    fn next_arm(&mut self, at: usize, value: usize)
        requires
            at + 3 < old(self)@.ops.len() <= usize::MAX,
        ensures
            final(self)@ == old(self)@.next_arm(at, value),
            grows(old(self)@, final(self)@),
            state_of(final(self)@.ops).pending == state_of(old(self)@.ops).pending,
            old(self)@.sound() && old(self)@.has_branch(at) && old(self)@.has_kind(value, ValueType::Number) ==> final(self)@.sound(),
    {
        self.emit(Op::JumpWith { target: at + 2, argument: value });
        self.emit(Op::Seal { block: at });
        self.emit(Op::SwitchTo { block: at + 1 });
    }

    fn close_branch(&mut self, at: usize, value: usize) -> (result: usize)
        requires
            at + 3 < old(self)@.ops.len() <= usize::MAX,
        ensures
            final(self)@ == old(self)@.close_branch(at, value),
            grows(old(self)@, final(self)@),
            result == at + 3,
            state_of(final(self)@.ops).pending == state_of(old(self)@.ops).pending,
            old(self)@.sound() && old(self)@.has_branch(at) && old(self)@.has_kind(value, ValueType::Number) ==> final(self)@.sound(),
    {
        self.emit(Op::JumpWith { target: at + 2, argument: value });
        self.emit(Op::Seal { block: at + 1 });
        self.emit(Op::SwitchTo { block: at + 2 });
        self.emit(Op::Seal { block: at + 2 });
        at + 3
    }

    fn fresh_block(&mut self)
        ensures
            final(self)@ == old(self)@.fresh_block(),
            grows(old(self)@, final(self)@),
            state_of(final(self)@.ops).pending == state_of(old(self)@.ops).pending,
            old(self)@.well_formed() && !state_of(old(self)@.ops).open && old(self)@.loops_have_blocks() && old(
                self,
            )@.rooted() ==> final(self)@.sound(),
    {
        let block = self.emit(Op::CreateBlock);
        self.emit(Op::SwitchTo { block });
        self.emit(Op::Seal { block });
    }

    fn flow(&mut self, flow: ControlFlowExpr) -> (at: usize)
        requires
            old(self)@.loops.len() > 0,
        ensures
            final(self)@ == old(self)@.flow(flow),
            grows(old(self)@, final(self)@),
            starts_at(old(self)@, at),
            old(self)@.ready() ==> final(self)@.ready(),
            final(self)@.has_kind(at, ValueType::Number),
    {
        let context = self.loops[self.loops.len() - 1];
        let target = match flow {
            ControlFlowExpr::Break => context.break_block,
            ControlFlowExpr::Continue => context.continue_block,
        };
        let dummy = self.number(ZERO);
        self.emit(Op::Jump { target });
        self.fresh_block();
        dummy
    }

    #[verifier::rlimit(50)]
    fn open_loop(&mut self, bound: usize) -> (at: usize)
        ensures
            final(self)@ == old(self)@.open_loop(bound),
            grows(old(self)@, final(self)@),
            starts_at(old(self)@, at),
            final(self)@.ops.len() == at + 13,
            final(self)@.ops.len() <= usize::MAX,
            old(self)@.ready() && old(self)@.has_kind(bound, ValueType::Number) ==> final(self)@.ready(),
            final(self)@.has_loop(at),
    {
        let var = self.emit(Op::DeclareVar);
        let zero = self.number(ZERO);
        self.emit(Op::DefVar { var, value: zero });
        let header = self.emit(Op::CreateBlock);
        let body = self.emit(Op::CreateBlock);
        let exit = self.emit(Op::CreateBlock);
        self.emit(Op::CreateBlock);
        self.emit(Op::Jump { target: header });
        self.emit(Op::SwitchTo { block: header });
        let current = self.emit(Op::UseVar { var });
        let condition = self.emit(Op::Compare { cond: FloatCond::LessThan, left: current, right: bound });
        self.emit(Op::Branch { condition, then_block: body, else_block: exit });
        self.emit(Op::SwitchTo { block: body });
        var
    }

    fn enter_loop(&mut self, at: usize)
        requires
            at + 6 < old(self)@.ops.len() <= usize::MAX,
        ensures
            final(self)@ == old(self)@.enter_loop(at),
            final(self)@.ops.len() == old(self)@.ops.len(),
            final(self)@.ops == old(self)@.ops,
            old(self)@.ready() && old(self)@.has_loop(at) ==> final(self)@.ready(),
    {
        proof {
            self.bounded();
        }
        self.loops.push(LoopContext { break_block: at + 5, continue_block: at + 6 });
        proof {
            if old(self)@.ready() && old(self)@.has_loop(at) {
                assert forall|k: int| 0 <= k < self@.loops.len() implies self@.has_block(
                    (#[trigger] self@.loops[k]).break_block,
                ) && self@.has_block(self@.loops[k].continue_block) by {
                    if k < old(self)@.loops.len() {
                        assert(self@.loops[k] == old(self)@.loops[k]);
                    }
                }
                assert(self@.well_formed()) by {
                    lemma_tables_grow(old(self)@, self@);
                }
            }
        }
    }

    #[verifier::rlimit(50)]
    fn close_loop(&mut self, at: usize)
        requires
            at + 6 < old(self)@.ops.len() <= usize::MAX,
            old(self)@.loops.len() > 0,
        ensures
            final(self)@ == old(self)@.close_loop(at),
            old(self)@.ops.len() <= final(self)@.ops.len() <= usize::MAX,
            old(self)@.ready() && old(self)@.has_loop(at) ==> final(self)@.ready(),
    {
        self.loops.pop();
        proof {
            if old(self)@.ready() && old(self)@.has_loop(at) {
                lemma_tables_grow(old(self)@, self@);
                assert forall|k: int| 0 <= k < self@.loops.len() implies self@.has_block(
                    (#[trigger] self@.loops[k]).break_block,
                ) && self@.has_block(self@.loops[k].continue_block) by {
                    assert(self@.loops[k] == old(self)@.loops[k]);
                }
                assert(self@.ready());
            }
        }
        self.emit(Op::Jump { target: at + 6 });
        self.emit(Op::Seal { block: at + 4 });
        self.emit(Op::SwitchTo { block: at + 6 });
        let current = self.emit(Op::UseVar { var: at });
        let one = self.number(ONE);
        let next = self.emit(Op::Binary { op: FloatOp::Add, left: current, right: one });
        self.emit(Op::DefVar { var: at, value: next });
        self.emit(Op::Jump { target: at + 3 });
        self.emit(Op::Seal { block: at + 6 });
        self.emit(Op::Seal { block: at + 3 });
        self.emit(Op::SwitchTo { block: at + 5 });
        self.emit(Op::Seal { block: at + 5 });
    }

    #[verifier::rlimit(50)]
    fn bind_element(&mut self, at: usize, collection: &[String], variable: &[String])
        ensures
            final(self)@ == old(self)@.bind_element(
                at,
                name_of(texts(collection@)),
                name_of(texts(variable@)),
            ),
            grows(old(self)@, final(self)@),
            old(self)@.ready() && old(self)@.has_var(at) ==> final(self)@.ready(),
    {
        let current = self.emit(Op::UseVar { var: at });
        let index = self.emit(Op::FloatToInt { value: current });
        let collection_slot = self.ensure_slot_from_parts(collection);
        let array = self.load_slot(collection_slot);
        let variable_slot = self.ensure_slot_from_parts(variable);
        let dest = self.load_slot(variable_slot);
        self.pair(array);
        self.emit(Op::Arg { value: index });
        self.pair(dest);
        self.emit(Op::Call { callee: Callee::Runtime(RuntimeHelper::ArrayCopyElement) });
    }

    fn return_value(&mut self, value: usize)
        ensures
            final(self)@ == old(self)@.return_value(value),
            grows(old(self)@, final(self)@),
            old(self)@.ready() && old(self)@.has_kind(value, ValueType::Number) ==> final(self)@.ready(),
    {
        self.emit(Op::DefVar { var: RETURN_VAR, value });
        self.emit(Op::Jump { target: EXIT_BLOCK });
        self.fresh_block();
    }

    fn finish_program(&mut self)
        ensures
            final(self)@ == old(self)@.finish_program(),
            grows(old(self)@, final(self)@),
            old(self)@.ready() ==> final(self)@.complete(),
    {
        self.emit(Op::Jump { target: EXIT_BLOCK });
        self.emit(Op::SwitchTo { block: EXIT_BLOCK });
        self.emit(Op::Seal { block: EXIT_BLOCK });
        let value = self.emit(Op::UseVar { var: RETURN_VAR });
        self.emit(Op::Return { value });
    }

    fn args(&mut self, values: &Vec<usize>)
        ensures
            final(self)@ == old(self)@.args(values@),
            grows(old(self)@, final(self)@),
            state_of(final(self)@.ops).open == state_of(old(self)@.ops).open,
            state_of(final(self)@.ops).pending == state_of(old(self)@.ops).pending + values@,
            old(self)@.sound() && (forall|j: int| 0 <= j < values@.len() ==> old(self)@.has_kind(#[trigger] values@[j], ValueType::Number)) ==> final(self)@.sound(),
    {
        proof {
            self.bounded();
        }
        let mut i: usize = 0;
        assert(values@.take(0) =~= Seq::<usize>::empty());
        assert(state_of(self@.ops).pending + values@.take(0) =~= state_of(self@.ops).pending);
        while i < values.len()
            invariant
                i <= values.len(),
                grows(old(self)@, self@),
                self@ == old(self)@.args(values@.take(i as int)),
                state_of(self@.ops).open == state_of(old(self)@.ops).open,
                state_of(self@.ops).pending == state_of(old(self)@.ops).pending + values@.take(i as int),
                old(self)@.sound() && (forall|j: int|
                    0 <= j < values@.len() ==> old(self)@.has_kind(#[trigger] values@[j], ValueType::Number))
                    ==> self@.sound(),
            decreases values.len() - i,
        {
            assert(values@.take(i + 1).drop_last() =~= values@.take(i as int));
            assert(state_of(old(self)@.ops).pending + values@.take(i + 1) =~= (state_of(old(self)@.ops).pending
                + values@.take(i as int)).push(values@[i as int]));
            self.emit(Op::Arg { value: values[i] });
            i += 1;
        }
        assert(values@.take(values.len() as int) =~= values@);
    }
}

fn refuse<T>(feature: &'static str) -> (r: Result<T, JitError>)
    ensures
        r matches Err(error) && refuses(error, feature@),
{
    Err(JitError::UnsupportedExpression { feature })
}

/// Whether an expression is the path `length`.
fn names_length(e: &IrExpr) -> (r: bool)
    ensures
        r == is_length(*e),
{
    match e {
        IrExpr::Path(parts) => parts.len() == 1 && same_text(parts[0].as_str(), "length"),
        _ => false,
    }
}

impl Translator {
    proof fn bounded(&self)
        ensures
            self@.ops.len() <= usize::MAX,
    {
        assert(self.ops.len() == self.ops@.len());
    }

    fn literal(&mut self, text: &String) -> (at: usize)
        ensures
            final(self)@ == old(self)@.literal(text@),
            grows(old(self)@, final(self)@),
            starts_at(old(self)@, at),
            ends_at(final(self)@, at),
            state_of(final(self)@.ops) == state_of(old(self)@.ops),
            old(self)@.sound() ==> final(self)@.sound(),
            final(self)@.has_kind(at, ValueType::Number),
    {
        let literal = self.literals.len();
        let ghost before = self.literals@;
        self.literals.push(text.clone());
        assert(texts(self.literals@) =~= texts(before).push(text@));
        proof {
            if old(self)@.well_formed() {
                lemma_tables_grow(old(self)@, self@);
            }
            assert(self@.ops == old(self)@.ops);
            assert(self@.loops == old(self)@.loops);
            if old(self)@.sound() {
                assert(self@.loops_have_blocks()) by {
                    assert forall|k: int| 0 <= k < self@.loops.len() implies self@.has_block(
                        (#[trigger] self@.loops[k]).break_block,
                    ) && self@.has_block(self@.loops[k].continue_block) by {
                        assert(old(self)@.has_block(old(self)@.loops[k].break_block));
                    }
                }
            }
        }
        self.emit(Op::Literal { literal })
    }

    #[verifier::rlimit(50)]
    fn translate(&mut self, expr: &IrExpr) -> (r: Result<usize, JitError>)
        ensures
            translated(r, final(self)@, translate(*expr, old(self)@)),
            r is Ok ==> grows(old(self)@, final(self)@),
            r matches Ok(value) ==> (old(self)@.ready() && checked(*expr) ==> final(self)@.ready() && final(self)@.has_kind(
                value,
                ValueType::Number,
            )),
        decreases expr, 2nat,
    {
        proof {
            self.bounded();
        }
        match expr {
            IrExpr::Constant(value) => Ok(self.literal(value)),
            IrExpr::Path(parts) => Ok(self.load_variable(parts.as_slice())),
            IrExpr::String(_) => refuse("string literal as value expression"),
            IrExpr::Array(elements) => Ok(self.number(number_from_length(elements.len()))),
            IrExpr::Struct(_) => refuse("struct literal as value expression"),
            IrExpr::Index { .. } => self.translate_index(expr),
            IrExpr::Flow(flow) => {
                if self.loops.len() == 0 {
                    refuse("break/continue outside loop")
                } else {
                    Ok(self.flow(*flow))
                }
            },
            IrExpr::Unary { op, expr } => {
                let value = self.translate(&**expr)?;
                Ok(self.unary(*op, value))
            },
            IrExpr::Binary { op, .. } => match op {
                BinaryOp::And | BinaryOp::Or | BinaryOp::NullCoalesce => self.translate_logical(expr),
                BinaryOp::Equal | BinaryOp::NotEqual => self.translate_equality(expr),
                _ => self.translate_pair(expr),
            },
            IrExpr::Conditional { .. } => self.translate_conditional(expr),
            IrExpr::Call { .. } => self.translate_call(expr),
        }
    }

    #[verifier::rlimit(50)]
    fn translate_index(&mut self, expr: &IrExpr) -> (r: Result<usize, JitError>)
        requires
            *expr is Index,
        ensures
            translated(r, final(self)@, translate_index(*expr, old(self)@)),
            r is Ok ==> grows(old(self)@, final(self)@),
            r matches Ok(value) ==> (old(self)@.ready() && checked(*expr) ==> final(self)@.ready() && final(self)@.has_kind(
                value,
                ValueType::Number,
            )),
        decreases expr, 0nat,
    {
        proof {
            self.bounded();
        }
        match expr {
            IrExpr::Index { target, index } => {
                match &**target {
                    IrExpr::Path(base) => {
                        if names_length(&**index) {
                            Ok(self.load_array_length(base.as_slice()))
                        } else {
                            let index_value = self.translate(&**index)?;
                            Ok(self.array_get(base.as_slice(), index_value))
                        }
                    },
                    _ => refuse("indexing non-path expression"),
                }
            },
            _ => Ok(0),
        }
    }

    #[verifier::rlimit(50)]
    fn translate_logical(&mut self, expr: &IrExpr) -> (r: Result<usize, JitError>)
        requires
            *expr matches IrExpr::Binary { op, .. } && (op == BinaryOp::And || op == BinaryOp::Or || op
                == BinaryOp::NullCoalesce),
        ensures
            translated(r, final(self)@, translate_logical(*expr, old(self)@)),
            r is Ok ==> grows(old(self)@, final(self)@),
            r matches Ok(value) ==> (old(self)@.ready() && checked(*expr) ==> final(self)@.ready() && final(self)@.has_kind(
                value,
                ValueType::Number,
            )),
        decreases expr, 0nat,
    {
        match expr {
            IrExpr::Binary { op, left, right } => {
                let left_value = self.translate(&**left)?;
                let condition = self.truth_of(left_value);
                let at = self.open_branch(condition);
                match op {
                    BinaryOp::And => {
                        let right_value = self.translate(&**right)?;
                        let truth = self.truth_of(right_value);
                        let widened = self.emit(Op::BoolToFloat { value: truth });
                        self.next_arm(at, widened);
                        let zero = self.number(ZERO);
                        Ok(self.close_branch(at, zero))
                    },
                    BinaryOp::Or => {
                        let one = self.number(ONE);
                        self.next_arm(at, one);
                        let right_value = self.translate(&**right)?;
                        Ok(self.close_branch(at, right_value))
                    },
                    _ => {
                        self.next_arm(at, left_value);
                        let right_value = self.translate(&**right)?;
                        Ok(self.close_branch(at, right_value))
                    },
                }
            },
            _ => Ok(0),
        }
    }

    #[verifier::rlimit(50)]
    fn translate_equality(&mut self, expr: &IrExpr) -> (r: Result<usize, JitError>)
        requires
            *expr matches IrExpr::Binary { op, .. } && (op == BinaryOp::Equal || op == BinaryOp::NotEqual),
        ensures
            translated(r, final(self)@, translate_equality(*expr, old(self)@)),
            r is Ok ==> grows(old(self)@, final(self)@),
            r matches Ok(value) ==> (old(self)@.ready() && checked(*expr) ==> final(self)@.ready() && final(self)@.has_kind(
                value,
                ValueType::Number,
            )),
        decreases expr, 1nat,
    {
        proof {
            self.bounded();
        }
        match expr {
            IrExpr::Binary { op, left, right } => {
                let is_equal = *op == BinaryOp::Equal;
                match (&**left, &**right) {
                    (IrExpr::Path(l), IrExpr::Path(r)) => Ok(
                        self.paths_equality(l.as_slice(), r.as_slice(), is_equal),
                    ),
                    (IrExpr::Path(path), IrExpr::String(text)) => Ok(
                        self.path_string_equality(path.as_slice(), text.as_str(), is_equal),
                    ),
                    (IrExpr::String(text), IrExpr::Path(path)) => Ok(
                        self.path_string_equality(path.as_slice(), text.as_str(), is_equal),
                    ),
                    (IrExpr::String(l), IrExpr::String(r)) => {
                        let same = same_text(l.as_str(), r.as_str());
                        let bits = if same == is_equal {
                            ONE
                        } else {
                            ZERO
                        };
                        Ok(self.number(bits))
                    },
                    _ => self.translate_pair(expr),
                }
            },
            _ => Ok(0),
        }
    }

    #[verifier::rlimit(50)]
    fn translate_conditional(&mut self, expr: &IrExpr) -> (r: Result<usize, JitError>)
        requires
            *expr is Conditional,
        ensures
            translated(r, final(self)@, translate_conditional(*expr, old(self)@)),
            r is Ok ==> grows(old(self)@, final(self)@),
            r matches Ok(value) ==> (old(self)@.ready() && checked(*expr) ==> final(self)@.ready() && final(self)@.has_kind(
                value,
                ValueType::Number,
            )),
        decreases expr, 0nat,
    {
        match expr {
            IrExpr::Conditional { condition, then_branch, else_branch } => {
                let condition_value = self.translate(&**condition)?;
                let truth = self.truth_of(condition_value);
                let at = self.open_branch(truth);
                let then_value = self.translate(&**then_branch)?;
                self.next_arm(at, then_value);
                let else_value = match else_branch {
                    Some(branch) => self.translate(&**branch)?,
                    None => self.number(ZERO),
                };
                Ok(self.close_branch(at, else_value))
            },
            _ => Ok(0),
        }
    }

    #[verifier::rlimit(50)]
    fn translate_call(&mut self, expr: &IrExpr) -> (r: Result<usize, JitError>)
        requires
            *expr is Call,
        ensures
            translated(r, final(self)@, translate_call(*expr, old(self)@)),
            r is Ok ==> grows(old(self)@, final(self)@),
            r matches Ok(value) ==> (old(self)@.ready() && checked(*expr) ==> final(self)@.ready() && final(self)@.has_kind(
                value,
                ValueType::Number,
            )),
        decreases expr, 0nat,
    {
        match expr {
            IrExpr::Call { function, args } => {
                let values = self.translate_list(args)?;
                let ghost listed = self@;
                self.args(&values);
                match function {
                    FunctionRef::Builtin(builtin) => {
                        proof {
                            if old(self)@.ready() && checked(*expr) {
                                let callee = Callee::Builtin(*builtin);
                                assert(listed.ready());
                                assert(state_of(self@.ops).pending =~= values@);
                                assert(callee_arguments(callee).len() == values@.len());
                                assert forall|j: int| 0 <= j < values@.len() implies self@.has_kind(
                                    #[trigger] state_of(self@.ops).pending[j],
                                    callee_arguments(callee)[j],
                                ) by {
                                    assert(listed.has_kind(values@[j], ValueType::Number));
                                }
                                assert(self@.arguments_fit(callee));
                            }
                        }
                        Ok(self.emit(Op::Call { callee: Callee::Builtin(*builtin) }))
                    },
                }
            },
            _ => Ok(0),
        }
    }

    #[verifier::rlimit(50)]
    fn translate_pair(&mut self, expr: &IrExpr) -> (r: Result<usize, JitError>)
        requires
            *expr is Binary,
        ensures
            translated(r, final(self)@, translate_pair(*expr, old(self)@)),
            r is Ok ==> grows(old(self)@, final(self)@),
            r matches Ok(value) ==> (old(self)@.ready() && checked(*expr) ==> final(self)@.ready() && final(self)@.has_kind(
                value,
                ValueType::Number,
            )),
        decreases expr, 0nat,
    {
        match expr {
            IrExpr::Binary { op, left, right } => {
                let left_value = self.translate(&**left)?;
                let right_value = self.translate(&**right)?;
                Ok(self.binary(*op, left_value, right_value))
            },
            _ => Ok(0),
        }
    }

    #[verifier::rlimit(50)]
    #[verifier::loop_isolation(false)]
    fn translate_list(&mut self, items: &Vec<IrExpr>) -> (r: Result<Vec<usize>, JitError>)
        ensures
            translated_list(r, final(self)@, translate_list(*items, items.len() as nat, old(self)@)),
            r is Ok ==> grows(old(self)@, final(self)@),
            r matches Ok(values) ==> (old(self)@.ready() && (forall|i: int| 0 <= i < items.len() ==> checked(#[trigger] items[i]))
                ==> final(self)@.ready() && forall|j: int|
                0 <= j < values@.len() ==> final(self)@.has_kind(#[trigger] values@[j], ValueType::Number)),
            r matches Ok(values) ==> values@.len() == items.len(),
        decreases items, 0nat,
    {
        proof {
            self.bounded();
        }
        let mut values: Vec<usize> = Vec::new();
        let mut i: usize = 0;
        while i < items.len()
            invariant
                i <= items.len(),
                values@.len() == i,
                grows(old(self)@, self@),
                translate_list(*items, i as nat, old(self)@) == Ok::<(Code, Seq<usize>), Seq<char>>(
                    (self@, values@),
                ),
                old(self)@.ready() && (forall|k: int| 0 <= k < items.len() ==> checked(#[trigger] items[k]))
                    ==> self@.ready() && forall|j: int|
                    0 <= j < values@.len() ==> self@.has_kind(#[trigger] values@[j], ValueType::Number),
            decreases items.len() - i,
        {
            match self.translate(&items[i]) {
                Ok(value) => {
                    values.push(value);
                },
                Err(error) => {
                    proof {
                        lemma_list_refused(*items, i as nat, items.len() as nat, old(self)@);
                    }
                    return Err(error);
                },
            }
            i += 1;
        }
        Ok(values)
    }
}

impl Translator {
    #[verifier::rlimit(50)]
    fn assign_expression(&mut self, target: &Vec<String>, expr: &IrExpr) -> (r: Result<(), JitError>)
        ensures
            assigned(r, final(self)@, assign(texts(target@), *expr, old(self)@)),
            r is Ok ==> grows(old(self)@, final(self)@),
            r is Ok && old(self)@.ready() && checked(*expr) ==> final(self)@.ready(),
        decreases expr, 2nat,
    {
        match expr {
            IrExpr::String(text) => {
                self.set_string(target.as_slice(), text.as_str());
                Ok(())
            },
            IrExpr::Array(elements) => {
                let slot = self.ensure_slot_from_parts(target.as_slice());
                self.clear_slot(slot);
                self.assign_elements(slot, elements)
            },
            IrExpr::Struct(fields) => {
                let slot = self.ensure_slot_from_parts(target.as_slice());
                self.clear_slot(slot);
                self.assign_fields(target, fields)
            },
            IrExpr::Index { .. } => refuse("index as assignment source"),
            IrExpr::Flow(_) => refuse("control flow expression as assignment source"),
            _ => {
                let value = self.translate(expr)?;
                self.store_number(target.as_slice(), value);
                Ok(())
            },
        }
    }

    #[verifier::rlimit(50)]
    #[verifier::loop_isolation(false)]
    fn assign_elements(&mut self, slot: usize, elements: &Vec<IrExpr>) -> (r: Result<(), JitError>)
        ensures
            assigned(
                r,
                final(self)@,
                assign_elements(slot, *elements, elements.len() as nat, old(self)@),
            ),
            r is Ok ==> grows(old(self)@, final(self)@),
            r is Ok && old(self)@.ready() && slot < old(self)@.slots.len() && (forall|i: int|
                0 <= i < elements.len() ==> checked(#[trigger] elements[i])) ==> final(self)@.ready(),
        decreases elements, 0nat,
    {
        proof {
            self.bounded();
        }
        let mut i: usize = 0;
        while i < elements.len()
            invariant
                i <= elements.len(),
                grows(old(self)@, self@),
                assign_elements(slot, *elements, i as nat, old(self)@) == Ok::<Code, Seq<char>>(self@),
                old(self)@.ready() && slot < old(self)@.slots.len() && (forall|k: int|
                    0 <= k < elements.len() ==> checked(#[trigger] elements[k])) ==> self@.ready(),
            decreases elements.len() - i,
        {
            let element = &elements[i];
            let step = match element {
                IrExpr::String(text) => {
                    self.push_string(slot, text.as_str());
                    Ok(())
                },
                IrExpr::Array(_) | IrExpr::Struct(_) | IrExpr::Index { .. } | IrExpr::Flow(_) => {
                    let temp = temp_parts("__temp_array_elem_", self.slots.len());
                    self.assign_expression(&temp, element)
                },
                _ => match self.translate(element) {
                    Ok(value) => {
                        self.push_number(slot, value);
                        Ok(())
                    },
                    Err(error) => Err(error),
                },
            };
            if let Err(error) = step {
                proof {
                    lemma_elements_refused(slot, *elements, i as nat, elements.len() as nat, old(self)@);
                }
                return Err(error);
            }
            i += 1;
        }
        Ok(())
    }

    #[verifier::rlimit(50)]
    #[verifier::loop_isolation(false)]
    fn assign_fields(&mut self, target: &Vec<String>, fields: &Vec<IrField>) -> (r: Result<(), JitError>)
        ensures
            assigned(
                r,
                final(self)@,
                assign_fields(texts(target@), *fields, fields.len() as nat, old(self)@),
            ),
            r is Ok ==> grows(old(self)@, final(self)@),
            r is Ok && old(self)@.ready() && (forall|i: int|
                0 <= i < fields.len() ==> checked((#[trigger] fields[i]).value)) ==> final(self)@.ready(),
        decreases fields, 0nat,
    {
        proof {
            self.bounded();
        }
        let mut i: usize = 0;
        while i < fields.len()
            invariant
                i <= fields.len(),
                grows(old(self)@, self@),
                assign_fields(texts(target@), *fields, i as nat, old(self)@) == Ok::<Code, Seq<char>>(
                    self@,
                ),
                old(self)@.ready() && (forall|k: int|
                    0 <= k < fields.len() ==> checked((#[trigger] fields[k]).value)) ==> self@.ready(),
            decreases fields.len() - i,
        {
            let mut field_path = copy_texts(target);
            let ghost before = field_path@;
            field_path.push(fields[i].name.clone());
            assert(texts(field_path@) =~= texts(before).push(fields[i as int].name@));
            if let Err(error) = self.assign_expression(&field_path, &fields[i].value) {
                proof {
                    lemma_fields_refused(texts(target@), *fields, i as nat, fields.len() as nat, old(self)@);
                }
                return Err(error);
            }
            i += 1;
        }
        Ok(())
    }

    #[verifier::rlimit(50)]
    fn translate_statement(&mut self, statement: &IrStatement) -> (r: Result<(), JitError>)
        ensures
            assigned(r, final(self)@, translate_statement(*statement, old(self)@)),
            r is Ok ==> grows(old(self)@, final(self)@),
            r is Ok && old(self)@.ready() && checked_statement(*statement) ==> final(self)@.ready(),
        decreases statement, 1nat,
    {
        proof {
            self.bounded();
        }
        match statement {
            IrStatement::Assign { target, value } => {
                match value {
                    IrExpr::Path(source) => {
                        self.copy_assignment(target.as_slice(), source.as_slice());
                        Ok(())
                    },
                    _ => self.assign_expression(target, value),
                }
            },
            IrStatement::Expr(expr) => {
                self.translate(expr)?;
                Ok(())
            },
            IrStatement::Block(statements) => self.translate_statements(statements),
            IrStatement::Return(expr) => {
                let value = match expr {
                    Some(expr) => self.translate(expr)?,
                    None => self.number(ZERO),
                };
                self.return_value(value);
                Ok(())
            },
            IrStatement::Loop { .. } => self.translate_loop(statement),
            IrStatement::ForEach { .. } => self.translate_for_each(statement),
        }
    }

    #[verifier::rlimit(50)]
    fn translate_loop(&mut self, statement: &IrStatement) -> (r: Result<(), JitError>)
        requires
            *statement is Loop,
        ensures
            assigned(r, final(self)@, translate_loop(*statement, old(self)@)),
            r is Ok ==> grows(old(self)@, final(self)@),
            r is Ok && old(self)@.ready() && checked_statement(*statement) ==> final(self)@.ready(),
        decreases statement, 0nat,
    {
        match statement {
            IrStatement::Loop { count, body } => {
                let count_value = self.translate(count)?;
                let limit = self.number(LOOP_LIMIT);
                let bound = self.emit(Op::Binary { op: FloatOp::Min, left: count_value, right: limit });
                let at = self.open_loop(bound);
                self.enter_loop(at);
                let ghost entered = self@.loops;
                self.translate_statement(&**body)?;
                self.close_loop(at);
                assert(self@.loops =~= old(self)@.loops) by {
                    assert(entered.drop_last() =~= old(self)@.loops);
                }
                Ok(())
            },
            _ => {
                proof {
                    self.bounded();
                }
                Ok(())
            },
        }
    }

    #[verifier::rlimit(80)]
    fn translate_for_each(&mut self, statement: &IrStatement) -> (r: Result<(), JitError>)
        requires
            *statement is ForEach,
        ensures
            assigned(r, final(self)@, translate_for_each(*statement, old(self)@)),
            r is Ok ==> grows(old(self)@, final(self)@),
            r is Ok && old(self)@.ready() && checked_statement(*statement) ==> final(self)@.ready(),
        decreases statement, 0nat,
    {
        match statement {
            IrStatement::ForEach { variable, collection, body } => {
                let collection_parts = match collection {
                    IrExpr::Path(parts) => copy_texts(parts),
                    _ => {
                        let temp = temp_parts("__temp_collection_", self.slots.len());
                        self.assign_expression(&temp, collection)?;
                        temp
                    },
                };
                let length = self.load_array_length(collection_parts.as_slice());
                let at = self.open_loop(length);
                self.bind_element(at, collection_parts.as_slice(), variable.as_slice());
                self.enter_loop(at);
                let ghost entered = self@.loops;
                self.translate_statement(&**body)?;
                self.close_loop(at);
                assert(self@.loops =~= old(self)@.loops) by {
                    assert(entered.drop_last() =~= old(self)@.loops);
                }
                Ok(())
            },
            _ => {
                proof {
                    self.bounded();
                }
                Ok(())
            },
        }
    }

    #[verifier::rlimit(50)]
    #[verifier::loop_isolation(false)]
    fn translate_statements(&mut self, list: &Vec<IrStatement>) -> (r: Result<(), JitError>)
        ensures
            assigned(r, final(self)@, translate_statements(*list, list.len() as nat, old(self)@)),
            r is Ok ==> grows(old(self)@, final(self)@),
            r is Ok && old(self)@.ready() && (forall|i: int|
                0 <= i < list.len() ==> checked_statement(#[trigger] list[i])) ==> final(self)@.ready(),
        decreases list, 0nat,
    {
        proof {
            self.bounded();
        }
        let mut i: usize = 0;
        while i < list.len()
            invariant
                i <= list.len(),
                grows(old(self)@, self@),
                translate_statements(*list, i as nat, old(self)@) == Ok::<Code, Seq<char>>(self@),
                old(self)@.ready() && (forall|k: int|
                    0 <= k < list.len() ==> checked_statement(#[trigger] list[k])) ==> self@.ready(),
            decreases list.len() - i,
        {
            if let Err(error) = self.translate_statement(&list[i]) {
                proof {
                    lemma_statements_refused(*list, i as nat, list.len() as nat, old(self)@);
                }
                return Err(error);
            }
            i += 1;
        }
        Ok(())
    }
}

/// What a compilation hands out: the builder operations of one function,
/// and the tables that they refer to.
pub struct Artifact {
    /// The builder operations, in order.
    pub ops: Seq<Op>,
    /// The slot table: canonical paths, in the order of their first use.
    pub slots: Seq<Seq<char>>,
    /// The decimal literals.
    pub literals: Seq<Seq<char>>,
    /// The read-only data objects.
    pub data: Seq<Seq<char>>,
}

/// The artifact of a finished code.
pub open spec fn artifact_of(code: Code) -> Artifact {
    Artifact {
        ops: code.ops,
        slots: code.slots.map_values(|name: StoreKey| canonical_text(name)),
        literals: code.literals,
        data: code.data,
    }
}

/// A compiled function: its builder operations, the canonical paths of its
/// slots, its decimal literals and its read-only data.
#[derive(Debug)]
pub struct CompiledExpression {
    ops: Vec<Op>,
    slots: Vec<String>,
    literals: Vec<String>,
    data: Vec<String>,
}

impl View for CompiledExpression {
    type V = Artifact;

    closed spec fn view(&self) -> Artifact {
        Artifact {
            ops: self.ops@,
            slots: texts(self.slots@),
            literals: texts(self.literals@),
            data: texts(self.data@),
        }
    }
}

impl Clone for CompiledExpression {
    fn clone(&self) -> (r: Self)
        ensures
            r@ == self@,
    {
        let ops = self.ops.clone();
        assert(ops@ =~= self.ops@);
        CompiledExpression {
            ops,
            slots: copy_texts(&self.slots),
            literals: copy_texts(&self.literals),
            data: copy_texts(&self.data),
        }
    }
}

impl CompiledExpression {
    /// The builder operations, in order.
    pub fn ops(&self) -> (r: &Vec<Op>)
        ensures
            r@ == self@.ops,
    {
        &self.ops
    }

    /// The slot table: the canonical path of each slot.
    pub fn slots(&self) -> (r: &Vec<String>)
        ensures
            texts(r@) == self@.slots,
    {
        &self.slots
    }

    /// The decimal literals that `Op::Literal` refers to.
    pub fn literals(&self) -> (r: &Vec<String>)
        ensures
            texts(r@) == self@.literals,
    {
        &self.literals
    }

    /// The texts of the data objects that `Op::DataAddress` and
    /// `Op::DataSize` refer to.
    pub fn data(&self) -> (r: &Vec<String>)
        ensures
            texts(r@) == self@.data,
    {
        &self.data
    }
}

impl Translator {
    fn finish(self) -> (r: CompiledExpression)
        ensures
            r@ == artifact_of(self@),
    {
        let mut slots: Vec<String> = Vec::new();
        let mut i: usize = 0;
        while i < self.slots.len()
            invariant
                i <= self.slots.len(),
                slots.len() == i,
                forall|k: int| 0 <= k < i ==> (#[trigger] slots@[k])@ == canonical_text(self.slots@[k]@),
            decreases self.slots.len() - i,
        {
            slots.push(self.slots[i].canonical());
            i += 1;
        }
        assert(texts(slots@) =~= artifact_of(self@).slots);
        CompiledExpression { ops: self.ops, slots, literals: self.literals, data: self.data }
    }
}

/// Whether an artifact is the artifact of a whole, well-formed function:
/// a builder can take its operations one after the other, and every block
/// that is switched to has its end.
pub open spec fn well_built(artifact: Artifact) -> bool {
    exists|code: Code| #[trigger] artifact_of(code) == artifact && code.complete()
}

/// The code that every function starts with can go on with anything.
proof fn lemma_initial_code()
    ensures
        initial_code().ready(),
{
    let code = initial_code();
    reveal_with_fuel(state_of, 6);
    assert forall|i: int| 0 <= i < code.ops.len() implies (#[trigger] code.upto(i)).takes(code.ops[i]) by {
        if i == 0 {
            assert(code.upto(0).ops =~= Seq::<Op>::empty());
        } else if i == 1 {
            assert(code.upto(1).ops =~= seq![Op::Entry]);
        } else if i == 2 {
            assert(code.upto(2).ops =~= seq![Op::Entry, Op::CreateBlock]);
        } else if i == 3 {
            assert(code.upto(3).ops =~= seq![Op::Entry, Op::CreateBlock, Op::DeclareVar]);
        } else {
            assert(code.upto(4).ops =~= seq![
                Op::Entry,
                Op::CreateBlock,
                Op::DeclareVar,
                Op::Number { bits: ZERO },
            ]);
        }
    }
}

/// Whether a compilation gave what `expected` names: the artifact of the
/// same code, or a refusal for the same feature.
pub open spec fn compiled(result: Result<CompiledExpression, JitError>, expected: Result<Code, Seq<char>>) -> bool {
    match expected {
        Ok(code) => result matches Ok(artifact) && artifact@ == artifact_of(code),
        Err(feature) => result matches Err(error) && refuses(error, feature),
    }
}

/// Compiles a pure expression to a function that returns its value.
pub fn compile_expression(expr: &IrExpr) -> (r: Result<CompiledExpression, JitError>)
    ensures
        compiled(r, expression_code(*expr)),
        r matches Ok(artifact) ==> (checked(*expr) ==> well_built(artifact@)),
{
    let mut translator = Translator::new();
    proof {
        lemma_initial_code();
    }
    let value = translator.translate(expr)?;
    translator.emit(Op::Return { value });
    let ghost code = translator@;
    let artifact = translator.finish();
    assert(checked(*expr) ==> code.complete() && artifact_of(code) == artifact@);
    Ok(artifact)
}

/// Compiles a program to a function that returns what the program returns.
pub fn compile_program(program: &IrProgram) -> (r: Result<CompiledExpression, JitError>)
    ensures
        compiled(r, program_code(*program)),
        r matches Ok(artifact) ==> (checked_program(*program) ==> well_built(artifact@)),
{
    let mut translator = Translator::new();
    proof {
        lemma_initial_code();
    }
    translator.translate_statements(&program.statements)?;
    translator.finish_program();
    let ghost code = translator@;
    let artifact = translator.finish();
    assert(checked_program(*program) ==> code.complete() && artifact_of(code) == artifact@);
    Ok(artifact)
}

/// The external symbol of a bridge function.
pub open spec fn helper_symbol(helper: RuntimeHelper) -> Seq<char> {
    match helper {
        RuntimeHelper::GetNumber => "molang_rt_get_number"@,
        RuntimeHelper::SetNumber => "molang_rt_set_number"@,
        RuntimeHelper::ClearValue => "molang_rt_clear_value"@,
        RuntimeHelper::CopyValue => "molang_rt_copy_value"@,
        RuntimeHelper::ArrayPushNumber => "molang_rt_array_push_number"@,
        RuntimeHelper::ArrayPushString => "molang_rt_array_push_string"@,
        RuntimeHelper::ArrayGetNumber => "molang_rt_array_get_number"@,
        RuntimeHelper::ArrayLength => "molang_rt_array_length"@,
        RuntimeHelper::ArrayCopyElement => "molang_rt_array_copy_element"@,
        RuntimeHelper::SetString => "molang_rt_set_string"@,
        RuntimeHelper::EqualPaths => "molang_rt_equal_paths"@,
        RuntimeHelper::NotEqualPaths => "molang_rt_not_equal_paths"@,
        RuntimeHelper::EqualPathString => "molang_rt_equal_path_string"@,
        RuntimeHelper::NotEqualPathString => "molang_rt_not_equal_path_string"@,
    }
}

/// The types of the arguments that compiled code passes to a bridge
/// function behind the context pointer: a pointer and a length for each
/// path or text, a number or an integer for each value.
pub open spec fn helper_arguments(helper: RuntimeHelper) -> Seq<ValueType> {
    match helper {
        RuntimeHelper::GetNumber | RuntimeHelper::ClearValue | RuntimeHelper::ArrayLength => seq![
            ValueType::Pointer,
            ValueType::Pointer,
        ],
        RuntimeHelper::SetNumber | RuntimeHelper::ArrayPushNumber | RuntimeHelper::ArrayGetNumber => seq![
            ValueType::Pointer,
            ValueType::Pointer,
            ValueType::Number,
        ],
        RuntimeHelper::ArrayCopyElement => seq![
            ValueType::Pointer,
            ValueType::Pointer,
            ValueType::Integer,
            ValueType::Pointer,
            ValueType::Pointer,
        ],
        _ => seq![ValueType::Pointer, ValueType::Pointer, ValueType::Pointer, ValueType::Pointer],
    }
}

/// The type of what a bridge function returns, if it returns anything.
pub open spec fn helper_result(helper: RuntimeHelper) -> Option<ValueType> {
    match helper {
        RuntimeHelper::GetNumber
        | RuntimeHelper::ArrayGetNumber
        | RuntimeHelper::EqualPaths
        | RuntimeHelper::NotEqualPaths
        | RuntimeHelper::EqualPathString
        | RuntimeHelper::NotEqualPathString => Some(ValueType::Number),
        RuntimeHelper::ArrayLength => Some(ValueType::Integer),
        _ => None,
    }
}

/// What a call of a bridge function gives back.
#[derive(Debug, Clone, Copy, PartialEq, Eq, Structural)]
pub enum BridgeValue {
    Nothing,
    Number(u64),
    Count(i64),
}

/// 1.0 for a truth that holds, 0.0 for one that does not.
pub open spec fn truth_number(truth: bool) -> u64 {
    if truth {
        ONE
    } else {
        ZERO
    }
}

/// What a bridge function does to the store, given the paths or texts
/// `first` and `second`, the number `number` and the integer `index`; a
/// function takes of these what its signature names, in this order.
pub open spec fn helper_effect(
    helper: RuntimeHelper,
    store: StoreModel,
    first: Seq<char>,
    second: Seq<char>,
    number: u64,
    index: i64,
) -> StoreModel {
    match helper {
        RuntimeHelper::SetNumber => canonical_set(store, first, ValueModel::Number(number)),
        RuntimeHelper::ClearValue => canonical_clear(store, first),
        RuntimeHelper::CopyValue => canonical_copy(store, first, second),
        RuntimeHelper::ArrayPushNumber => canonical_push(store, first, ValueModel::Number(number)),
        RuntimeHelper::ArrayPushString => canonical_push(store, first, ValueModel::Text(second)),
        RuntimeHelper::ArrayCopyElement => canonical_copy_element(store, first, index as int, second),
        RuntimeHelper::SetString => canonical_set(store, first, ValueModel::Text(second)),
        _ => store,
    }
}

/// What a bridge function returns.
pub open spec fn helper_value(
    helper: RuntimeHelper,
    store: StoreModel,
    first: Seq<char>,
    second: Seq<char>,
    number: u64,
) -> BridgeValue {
    match helper {
        RuntimeHelper::GetNumber => BridgeValue::Number(number_or_zero(canonical_get(store, first))),
        RuntimeHelper::ArrayGetNumber => BridgeValue::Number(
            number_or_zero(array_element(canonical_get(store, first), index_of_number(number) as int)),
        ),
        RuntimeHelper::ArrayLength => BridgeValue::Count(
            length_count(array_items(canonical_get(store, first)).len()),
        ),
        RuntimeHelper::EqualPaths => BridgeValue::Number(
            truth_number(values_equal(canonical_get(store, first), canonical_get(store, second))),
        ),
        RuntimeHelper::NotEqualPaths => BridgeValue::Number(
            truth_number(!values_equal(canonical_get(store, first), canonical_get(store, second))),
        ),
        RuntimeHelper::EqualPathString => BridgeValue::Number(
            truth_number(canonical_get(store, first) == Some(ValueModel::Text(second))),
        ),
        RuntimeHelper::NotEqualPathString => BridgeValue::Number(
            truth_number(canonical_get(store, first) != Some(ValueModel::Text(second))),
        ),
        _ => BridgeValue::Nothing,
    }
}

fn truth(value: bool) -> (r: u64)
    ensures
        r == truth_number(value),
{
    if value {
        ONE
    } else {
        ZERO
    }
}

impl RuntimeHelper {
    /// Every bridge function.
    pub fn all() -> (r: Vec<RuntimeHelper>)
        ensures
            r@.len() == 14,
            forall|helper: RuntimeHelper| r@.contains(helper),
    {
        let r = vec![
            RuntimeHelper::GetNumber,
            RuntimeHelper::SetNumber,
            RuntimeHelper::ClearValue,
            RuntimeHelper::CopyValue,
            RuntimeHelper::ArrayPushNumber,
            RuntimeHelper::ArrayPushString,
            RuntimeHelper::ArrayGetNumber,
            RuntimeHelper::ArrayLength,
            RuntimeHelper::ArrayCopyElement,
            RuntimeHelper::SetString,
            RuntimeHelper::EqualPaths,
            RuntimeHelper::NotEqualPaths,
            RuntimeHelper::EqualPathString,
            RuntimeHelper::NotEqualPathString,
        ];
        assert forall|helper: RuntimeHelper| r@.contains(helper) by {
            match helper {
                RuntimeHelper::GetNumber => assert(r@[0] == helper),
                RuntimeHelper::SetNumber => assert(r@[1] == helper),
                RuntimeHelper::ClearValue => assert(r@[2] == helper),
                RuntimeHelper::CopyValue => assert(r@[3] == helper),
                RuntimeHelper::ArrayPushNumber => assert(r@[4] == helper),
                RuntimeHelper::ArrayPushString => assert(r@[5] == helper),
                RuntimeHelper::ArrayGetNumber => assert(r@[6] == helper),
                RuntimeHelper::ArrayLength => assert(r@[7] == helper),
                RuntimeHelper::ArrayCopyElement => assert(r@[8] == helper),
                RuntimeHelper::SetString => assert(r@[9] == helper),
                RuntimeHelper::EqualPaths => assert(r@[10] == helper),
                RuntimeHelper::NotEqualPaths => assert(r@[11] == helper),
                RuntimeHelper::EqualPathString => assert(r@[12] == helper),
                RuntimeHelper::NotEqualPathString => assert(r@[13] == helper),
            }
        }
        r
    }

    /// The external symbol that compiled code imports the function under.
    pub fn symbol_name(self) -> (r: &'static str)
        ensures
            r@ == helper_symbol(self),
    {
        match self {
            RuntimeHelper::GetNumber => "molang_rt_get_number",
            RuntimeHelper::SetNumber => "molang_rt_set_number",
            RuntimeHelper::ClearValue => "molang_rt_clear_value",
            RuntimeHelper::CopyValue => "molang_rt_copy_value",
            RuntimeHelper::ArrayPushNumber => "molang_rt_array_push_number",
            RuntimeHelper::ArrayPushString => "molang_rt_array_push_string",
            RuntimeHelper::ArrayGetNumber => "molang_rt_array_get_number",
            RuntimeHelper::ArrayLength => "molang_rt_array_length",
            RuntimeHelper::ArrayCopyElement => "molang_rt_array_copy_element",
            RuntimeHelper::SetString => "molang_rt_set_string",
            RuntimeHelper::EqualPaths => "molang_rt_equal_paths",
            RuntimeHelper::NotEqualPaths => "molang_rt_not_equal_paths",
            RuntimeHelper::EqualPathString => "molang_rt_equal_path_string",
            RuntimeHelper::NotEqualPathString => "molang_rt_not_equal_path_string",
        }
    }

    /// The types of the arguments behind the context pointer.
    pub fn arguments(self) -> (r: Vec<ValueType>)
        ensures
            r@ == helper_arguments(self),
    {
        match self {
            RuntimeHelper::GetNumber | RuntimeHelper::ClearValue | RuntimeHelper::ArrayLength => {
                let r = vec![ValueType::Pointer, ValueType::Pointer];
                assert(r@ =~= helper_arguments(self));
                r
            },
            RuntimeHelper::SetNumber | RuntimeHelper::ArrayPushNumber | RuntimeHelper::ArrayGetNumber => {
                let r = vec![ValueType::Pointer, ValueType::Pointer, ValueType::Number];
                assert(r@ =~= helper_arguments(self));
                r
            },
            RuntimeHelper::ArrayCopyElement => {
                let r = vec![
                    ValueType::Pointer,
                    ValueType::Pointer,
                    ValueType::Integer,
                    ValueType::Pointer,
                    ValueType::Pointer,
                ];
                assert(r@ =~= helper_arguments(self));
                r
            },
            _ => {
                let r = vec![ValueType::Pointer, ValueType::Pointer, ValueType::Pointer, ValueType::Pointer];
                assert(r@ =~= helper_arguments(self));
                r
            },
        }
    }

    /// The type of the result, if the function has one.
    pub fn result(self) -> (r: Option<ValueType>)
        ensures
            r == helper_result(self),
    {
        match self {
            RuntimeHelper::GetNumber
            | RuntimeHelper::ArrayGetNumber
            | RuntimeHelper::EqualPaths
            | RuntimeHelper::NotEqualPaths
            | RuntimeHelper::EqualPathString
            | RuntimeHelper::NotEqualPathString => Some(ValueType::Number),
            RuntimeHelper::ArrayLength => Some(ValueType::Integer),
            _ => None,
        }
    }

    /// Runs the bridge function on a context. `first` and `second` are the
    /// paths or texts, `number` the number and `index` the integer that
    /// the function takes, as far as its signature names them.
    pub fn invoke(
        self,
        ctx: &mut RuntimeContext,
        first: &str,
        second: &str,
        number: u64,
        index: i64,
    ) -> (r: BridgeValue)
        ensures
            final(ctx)@ == helper_effect(self, old(ctx)@, first@, second@, number, index),
            r == helper_value(self, old(ctx)@, first@, second@, number),
    {
        match self {
            RuntimeHelper::GetNumber => {
                match ctx.get_number_canonical(first) {
                    Some(value) => BridgeValue::Number(value),
                    None => BridgeValue::Number(0),
                }
            },
            RuntimeHelper::SetNumber => {
                ctx.set_number_canonical(first, number);
                BridgeValue::Nothing
            },
            RuntimeHelper::ClearValue => {
                ctx.clear_value_canonical(first);
                BridgeValue::Nothing
            },
            RuntimeHelper::CopyValue => {
                ctx.copy_value_canonical(first, second);
                BridgeValue::Nothing
            },
            RuntimeHelper::ArrayPushNumber => {
                ctx.array_push_number_canonical(first, number);
                BridgeValue::Nothing
            },
            RuntimeHelper::ArrayPushString => {
                ctx.array_push_string_canonical(first, second);
                BridgeValue::Nothing
            },
            RuntimeHelper::ArrayGetNumber => BridgeValue::Number(ctx.array_get_number_canonical(first, number)),
            RuntimeHelper::ArrayLength => BridgeValue::Count(ctx.array_length_canonical(first)),
            RuntimeHelper::ArrayCopyElement => {
                ctx.array_copy_element_canonical(first, index, second);
                BridgeValue::Nothing
            },
            RuntimeHelper::SetString => {
                ctx.set_value_canonical(first, crate::eval::Value::string(second));
                BridgeValue::Nothing
            },
            RuntimeHelper::EqualPaths => BridgeValue::Number(truth(ctx.paths_equal(first, second))),
            RuntimeHelper::NotEqualPaths => BridgeValue::Number(truth(!ctx.paths_equal(first, second))),
            RuntimeHelper::EqualPathString => BridgeValue::Number(
                truth(ctx.path_equals_string(first, second)),
            ),
            RuntimeHelper::NotEqualPathString => BridgeValue::Number(
                truth(!ctx.path_equals_string(first, second)),
            ),
        }
    }
}

/// Whether the later code starts with the operations of the earlier.
pub open spec fn extends(before: Code, after: Code) -> bool {
    before.ops.len() <= after.ops.len() && after.ops.take(before.ops.len() as int) == before.ops
}

/// The code of an expression goes on from the code before it: what was
/// there stays.
pub proof fn lemma_translate_extends(e: IrExpr, code: Code)
    ensures
        translate(e, code) matches Ok((out, _)) ==> extends(code, out),
    decreases e, 2nat,
{
    match e {
        IrExpr::Constant(text) => {
            assert(code.literal(text@).ops.take(code.ops.len() as int) =~= code.ops);
        },
        IrExpr::Path(parts) => {
            let out = code.load_variable(name_of(texts(parts@)));
            assert(out.ops.take(code.ops.len() as int) =~= code.ops);
        },
        IrExpr::Array(elements) => {
            let out = code.number(number_of_nat(elements.len() as nat) as u64);
            assert(out.ops.take(code.ops.len() as int) =~= code.ops);
        },
        IrExpr::Flow(flow) => {
            if code.loops.len() > 0 {
                assert(code.flow(flow).ops.take(code.ops.len() as int) =~= code.ops);
            }
        },
        IrExpr::Unary { op, expr } => {
            lemma_translate_extends(*expr, code);
            if let Ok((inner, value)) = translate(*expr, code) {
                assert(inner.unary(op, value).ops.take(inner.ops.len() as int) =~= inner.ops);
                lemma_extends_chain(code, inner, inner.unary(op, value));
            }
        },
        IrExpr::Index { .. } => lemma_index_extends(e, code),
        IrExpr::Binary { op, .. } => match op {
            BinaryOp::And | BinaryOp::Or | BinaryOp::NullCoalesce => lemma_logical_extends(e, code),
            BinaryOp::Equal | BinaryOp::NotEqual => lemma_equality_extends(e, code),
            _ => lemma_pair_extends(e, code),
        },
        IrExpr::Conditional { .. } => lemma_conditional_extends(e, code),
        IrExpr::Call { .. } => lemma_call_extends(e, code),
        _ => {},
    }
}

/// What was there is found at its place in the later code.
pub proof fn lemma_extends_keeps(before: Code, after: Code, i: int)
    requires
        extends(before, after),
        0 <= i < before.ops.len(),
    ensures
        after.ops[i] == before.ops[i],
{
    assert(after.ops.take(before.ops.len() as int)[i] == after.ops[i]);
}

proof fn lemma_extends_chain(a: Code, b: Code, c: Code)
    requires
        extends(a, b),
        extends(b, c),
    ensures
        extends(a, c),
{
    assert(c.ops.take(a.ops.len() as int) =~= b.ops.take(a.ops.len() as int));
}

proof fn lemma_index_extends(e: IrExpr, code: Code)
    requires
        e is Index,
    ensures
        translate_index(e, code) matches Ok((out, _)) ==> extends(code, out),
    decreases e, 0nat,
{
    if let IrExpr::Index { target, index } = e {
        if let IrExpr::Path(base) = *target {
            if is_length(*index) {
                let out = code.load_array_length(name_of(texts(base@)));
                assert(out.ops.take(code.ops.len() as int) =~= code.ops);
            } else {
                lemma_translate_extends(*index, code);
                if let Ok((indexed, i)) = translate(*index, code) {
                    let out = indexed.array_get(name_of(texts(base@)), i);
                    assert(out.ops.take(indexed.ops.len() as int) =~= indexed.ops);
                    lemma_extends_chain(code, indexed, out);
                }
            }
        }
    }
}

proof fn lemma_logical_extends(e: IrExpr, code: Code)
    requires
        e matches IrExpr::Binary { op, .. } && (op == BinaryOp::And || op == BinaryOp::Or || op
            == BinaryOp::NullCoalesce),
    ensures
        translate_logical(e, code) matches Ok((out, _)) ==> extends(code, out),
    decreases e, 0nat,
{
    if let IrExpr::Binary { op, left, right } = e {
        lemma_translate_extends(*left, code);
        if let Ok((first, l)) = translate(*left, code) {
            let tested = first.truth_of(l);
            let at = tested.next();
            let opened = tested.open_branch(tested.last());
            assert(opened.ops.take(first.ops.len() as int) =~= first.ops);
            lemma_extends_chain(code, first, opened);
            match op {
                BinaryOp::And => {
                    lemma_translate_extends(*right, opened);
                    if let Ok((second, r)) = translate(*right, opened) {
                        let truth = second.truth_of(r);
                        let widened = truth.emit(Op::BoolToFloat { value: truth.last() });
                        let other = widened.next_arm(at, widened.last()).number(ZERO);
                        let out = other.close_branch(at, other.last());
                        assert(out.ops.take(second.ops.len() as int) =~= second.ops);
                        lemma_extends_chain(code, opened, second);
                        lemma_extends_chain(code, second, out);
                    }
                },
                BinaryOp::Or => {
                    let one = opened.number(ONE);
                    let arm = one.next_arm(at, one.last());
                    assert(arm.ops.take(opened.ops.len() as int) =~= opened.ops);
                    lemma_extends_chain(code, opened, arm);
                    lemma_translate_extends(*right, arm);
                    if let Ok((second, r)) = translate(*right, arm) {
                        let out = second.close_branch(at, r);
                        assert(out.ops.take(second.ops.len() as int) =~= second.ops);
                        lemma_extends_chain(code, arm, second);
                        lemma_extends_chain(code, second, out);
                    }
                },
                _ => {
                    let arm = opened.next_arm(at, l);
                    assert(arm.ops.take(opened.ops.len() as int) =~= opened.ops);
                    lemma_extends_chain(code, opened, arm);
                    lemma_translate_extends(*right, arm);
                    if let Ok((second, r)) = translate(*right, arm) {
                        let out = second.close_branch(at, r);
                        assert(out.ops.take(second.ops.len() as int) =~= second.ops);
                        lemma_extends_chain(code, arm, second);
                        lemma_extends_chain(code, second, out);
                    }
                },
            }
        }
    }
}

proof fn lemma_equality_extends(e: IrExpr, code: Code)
    requires
        e matches IrExpr::Binary { op, .. } && (op == BinaryOp::Equal || op == BinaryOp::NotEqual),
    ensures
        translate_equality(e, code) matches Ok((out, _)) ==> extends(code, out),
    decreases e, 1nat,
{
    if let IrExpr::Binary { op, left, right } = e {
        let is_equal = op == BinaryOp::Equal;
        match (*left, *right) {
            (IrExpr::Path(l), IrExpr::Path(r)) => {
                let out = code.paths_equality(name_of(texts(l@)), name_of(texts(r@)), is_equal);
                assert(out.ops.take(code.ops.len() as int) =~= code.ops);
            },
            (IrExpr::Path(path), IrExpr::String(text)) => {
                let out = code.path_string_equality(name_of(texts(path@)), text@, is_equal);
                assert(out.ops.take(code.ops.len() as int) =~= code.ops);
            },
            (IrExpr::String(text), IrExpr::Path(path)) => {
                let out = code.path_string_equality(name_of(texts(path@)), text@, is_equal);
                assert(out.ops.take(code.ops.len() as int) =~= code.ops);
            },
            (IrExpr::String(l), IrExpr::String(r)) => {
                let out = code.number(
                    if (l@ == r@) == is_equal {
                        ONE
                    } else {
                        ZERO
                    },
                );
                assert(out.ops.take(code.ops.len() as int) =~= code.ops);
            },
            _ => lemma_pair_extends(e, code),
        }
    }
}

proof fn lemma_pair_extends(e: IrExpr, code: Code)
    requires
        e is Binary,
    ensures
        translate_pair(e, code) matches Ok((out, _)) ==> extends(code, out),
    decreases e, 0nat,
{
    if let IrExpr::Binary { op, left, right } = e {
        lemma_translate_extends(*left, code);
        if let Ok((first, l)) = translate(*left, code) {
            lemma_translate_extends(*right, first);
            if let Ok((second, r)) = translate(*right, first) {
                let out = second.binary(op, l, r);
                assert(out.ops.take(second.ops.len() as int) =~= second.ops);
                lemma_extends_chain(code, first, second);
                lemma_extends_chain(code, second, out);
            }
        }
    }
}

proof fn lemma_conditional_extends(e: IrExpr, code: Code)
    requires
        e is Conditional,
    ensures
        translate_conditional(e, code) matches Ok((out, _)) ==> extends(code, out),
    decreases e, 0nat,
{
    if let IrExpr::Conditional { condition, then_branch, else_branch } = e {
        lemma_translate_extends(*condition, code);
        if let Ok((first, c)) = translate(*condition, code) {
            let tested = first.truth_of(c);
            let at = tested.next();
            let opened = tested.open_branch(tested.last());
            assert(opened.ops.take(first.ops.len() as int) =~= first.ops);
            lemma_extends_chain(code, first, opened);
            lemma_translate_extends(*then_branch, opened);
            if let Ok((second, t)) = translate(*then_branch, opened) {
                let other = second.next_arm(at, t);
                assert(other.ops.take(second.ops.len() as int) =~= second.ops);
                lemma_extends_chain(code, opened, second);
                lemma_extends_chain(code, second, other);
                match else_branch {
                    Some(branch) => {
                        lemma_translate_extends(*branch, other);
                        if let Ok((third, v)) = translate(*branch, other) {
                            let out = third.close_branch(at, v);
                            assert(out.ops.take(third.ops.len() as int) =~= third.ops);
                            lemma_extends_chain(code, other, third);
                            lemma_extends_chain(code, third, out);
                        }
                    },
                    None => {
                        let out = other.number(ZERO).close_branch(at, other.next());
                        assert(out.ops.take(other.ops.len() as int) =~= other.ops);
                        lemma_extends_chain(code, other, out);
                    },
                }
            }
        }
    }
}

proof fn lemma_args_extends(code: Code, values: Seq<usize>)
    ensures
        extends(code, code.args(values)),
    decreases values.len(),
{
    if values.len() > 0 {
        lemma_args_extends(code, values.drop_last());
        let before = code.args(values.drop_last());
        assert(before.arg(values.last()).ops.take(before.ops.len() as int) =~= before.ops);
        lemma_extends_chain(code, before, code.args(values));
    } else {
        assert(code.ops.take(code.ops.len() as int) =~= code.ops);
    }
}

proof fn lemma_call_extends(e: IrExpr, code: Code)
    requires
        e is Call,
    ensures
        translate_call(e, code) matches Ok((out, _)) ==> extends(code, out),
    decreases e, 0nat,
{
    if let IrExpr::Call { function, args } = e {
        lemma_list_extends(args, args.len() as nat, code);
        if let Ok((evaluated, values)) = translate_list(args, args.len() as nat, code) {
            lemma_args_extends(evaluated, values);
            let given = evaluated.args(values);
            let out = given.emit(Op::Call { callee: Callee::Builtin(function->Builtin_0) });
            assert(out.ops.take(given.ops.len() as int) =~= given.ops);
            lemma_extends_chain(code, evaluated, given);
            lemma_extends_chain(code, given, out);
        }
    }
}

proof fn lemma_list_extends(items: Vec<IrExpr>, n: nat, code: Code)
    ensures
        translate_list(items, n, code) matches Ok((out, _)) ==> extends(code, out),
    decreases items, n,
{
    if n == 0 || n > items.len() {
        assert(code.ops.take(code.ops.len() as int) =~= code.ops);
    } else {
        lemma_list_extends(items, (n - 1) as nat, code);
        if let Ok((first, values)) = translate_list(items, (n - 1) as nat, code) {
            lemma_translate_extends(items[n - 1], first);
            if let Ok((second, value)) = translate(items[n - 1], first) {
                lemma_extends_chain(code, first, second);
            }
        }
    }
}

/// A step that appends operations of its own goes on from the code before.
proof fn lemma_extends_tail(before: Code, after: Code)
    requires
        before.ops.len() <= after.ops.len(),
        after.ops.take(before.ops.len() as int) =~= before.ops,
    ensures
        extends(before, after),
{
}

/// The code of an assignment goes on from the code before it.
pub proof fn lemma_assign_extends(target: Seq<Seq<char>>, e: IrExpr, code: Code)
    ensures
        assign(target, e, code) matches Ok(out) ==> extends(code, out),
    decreases e, 2nat,
{
    match e {
        IrExpr::String(text) => {
            lemma_extends_tail(code, code.set_string(name_of(target), text@));
        },
        IrExpr::Array(elements) => {
            let (first, slot) = code.slot(name_of(target));
            let cleared = first.clear_slot(slot);
            lemma_extends_tail(code, cleared);
            lemma_elements_extend(slot, elements, elements.len() as nat, cleared);
            if let Ok(out) = assign_elements(slot, elements, elements.len() as nat, cleared) {
                lemma_extends_chain(code, cleared, out);
            }
        },
        IrExpr::Struct(fields) => {
            let (first, slot) = code.slot(name_of(target));
            let cleared = first.clear_slot(slot);
            lemma_extends_tail(code, cleared);
            lemma_fields_extend(target, fields, fields.len() as nat, cleared);
            if let Ok(out) = assign_fields(target, fields, fields.len() as nat, cleared) {
                lemma_extends_chain(code, cleared, out);
            }
        },
        IrExpr::Index { .. } | IrExpr::Flow(_) => {},
        _ => {
            lemma_translate_extends(e, code);
            if let Ok((computed, value)) = translate(e, code) {
                let out = computed.store_number(name_of(target), value);
                lemma_extends_tail(computed, out);
                lemma_extends_chain(code, computed, out);
            }
        },
    }
}

proof fn lemma_elements_extend(slot: usize, elements: Vec<IrExpr>, n: nat, code: Code)
    ensures
        assign_elements(slot, elements, n, code) matches Ok(out) ==> extends(code, out),
    decreases elements, n,
{
    if n == 0 || n > elements.len() {
        lemma_extends_tail(code, code);
    } else {
        lemma_elements_extend(slot, elements, (n - 1) as nat, code);
        if let Ok(first) = assign_elements(slot, elements, (n - 1) as nat, code) {
            let element = elements[n - 1];
            match element {
                IrExpr::String(text) => {
                    lemma_extends_tail(first, first.push_string(slot, text@));
                    lemma_extends_chain(code, first, first.push_string(slot, text@));
                },
                IrExpr::Array(_) | IrExpr::Struct(_) | IrExpr::Index { .. } | IrExpr::Flow(_) => {
                    let temp = temp_path("__temp_array_elem_"@, first.slots.len());
                    lemma_assign_extends(temp, element, first);
                    if let Ok(out) = assign(temp, element, first) {
                        lemma_extends_chain(code, first, out);
                    }
                },
                _ => {
                    lemma_translate_extends(element, first);
                    if let Ok((computed, value)) = translate(element, first) {
                        let out = computed.push_number(slot, value);
                        lemma_extends_tail(computed, out);
                        lemma_extends_chain(first, computed, out);
                        lemma_extends_chain(code, first, out);
                    }
                },
            }
        }
    }
}

proof fn lemma_fields_extend(target: Seq<Seq<char>>, fields: Vec<IrField>, n: nat, code: Code)
    ensures
        assign_fields(target, fields, n, code) matches Ok(out) ==> extends(code, out),
    decreases fields, n,
{
    if n == 0 || n > fields.len() {
        lemma_extends_tail(code, code);
    } else {
        lemma_fields_extend(target, fields, (n - 1) as nat, code);
        if let Ok(first) = assign_fields(target, fields, (n - 1) as nat, code) {
            lemma_assign_extends(target.push(fields[n - 1].name@), fields[n - 1].value, first);
            if let Ok(out) = assign(target.push(fields[n - 1].name@), fields[n - 1].value, first) {
                lemma_extends_chain(code, first, out);
            }
        }
    }
}

/// The code of a statement goes on from the code before it.
pub proof fn lemma_statement_extends(s: IrStatement, code: Code)
    ensures
        translate_statement(s, code) matches Ok(out) ==> extends(code, out),
    decreases s, 1nat,
{
    match s {
        IrStatement::Assign { target, value } => match value {
            IrExpr::Path(source) => {
                lemma_extends_tail(
                    code,
                    code.copy_assignment(name_of(texts(target@)), name_of(texts(source@))),
                );
            },
            _ => lemma_assign_extends(texts(target@), value, code),
        },
        IrStatement::Expr(e) => lemma_translate_extends(e, code),
        IrStatement::Block(list) => lemma_statements_extend(list, list.len() as nat, code),
        IrStatement::Return(value) => match value {
            Some(e) => {
                lemma_translate_extends(e, code);
                if let Ok((computed, v)) = translate(e, code) {
                    lemma_extends_tail(computed, computed.return_value(v));
                    lemma_extends_chain(code, computed, computed.return_value(v));
                }
            },
            None => {
                lemma_extends_tail(code, code.number(ZERO).return_value(code.next()));
            },
        },
        IrStatement::Loop { .. } => lemma_loop_extends(s, code),
        IrStatement::ForEach { .. } => lemma_for_each_extends(s, code),
    }
}

proof fn lemma_loop_extends(s: IrStatement, code: Code)
    requires
        s is Loop,
    ensures
        translate_loop(s, code) matches Ok(out) ==> extends(code, out),
    decreases s, 0nat,
{
    if let IrStatement::Loop { count, body } = s {
        lemma_translate_extends(count, code);
        if let Ok((counted, c)) = translate(count, code) {
            let limited = counted.number(LOOP_LIMIT).emit(
                Op::Binary { op: FloatOp::Min, left: c, right: counted.next() },
            );
            let at = limited.next();
            let entered = limited.open_loop(limited.last()).enter_loop(at);
            lemma_extends_tail(counted, entered);
            lemma_extends_chain(code, counted, entered);
            lemma_statement_extends(*body, entered);
            if let Ok(done) = translate_statement(*body, entered) {
                lemma_extends_tail(done, done.close_loop(at));
                lemma_extends_chain(code, entered, done);
                lemma_extends_chain(code, done, done.close_loop(at));
            }
        }
    }
}

#[verifier::rlimit(50)]
proof fn lemma_for_each_extends(s: IrStatement, code: Code)
    requires
        s is ForEach,
    ensures
        translate_for_each(s, code) matches Ok(out) ==> extends(code, out),
    decreases s, 0nat,
{
    if let IrStatement::ForEach { variable, collection, body } = s {
        match collection {
            IrExpr::Path(parts) => {
                lemma_extends_tail(code, code);
            },
            _ => {
                lemma_assign_extends(temp_path("__temp_collection_"@, code.slots.len()), collection, code);
            },
        }
        if let Ok((first, parts)) = collection_path(collection, code) {
            let measured = first.load_array_length(name_of(parts));
            let at = measured.next();
            let opened = measured.open_loop(measured.last());
            let element = opened.bind_element(at, name_of(parts), name_of(texts(variable@)));
            let bound = element.enter_loop(at);
            lemma_extends_tail(first, measured);
            lemma_extends_tail(measured, opened);
            lemma_extends_tail(opened, element);
            lemma_extends_tail(element, bound);
            lemma_extends_chain(first, measured, opened);
            lemma_extends_chain(first, opened, element);
            lemma_extends_chain(first, element, bound);
            lemma_extends_chain(code, first, bound);
            lemma_statement_extends(*body, bound);
            if let Ok(done) = translate_statement(*body, bound) {
                lemma_extends_tail(done, done.close_loop(at));
                lemma_extends_chain(code, bound, done);
                lemma_extends_chain(code, done, done.close_loop(at));
            }
        }
    }
}

proof fn lemma_statements_extend(list: Vec<IrStatement>, n: nat, code: Code)
    ensures
        translate_statements(list, n, code) matches Ok(out) ==> extends(code, out),
    decreases list, n,
{
    if n == 0 || n > list.len() {
        lemma_extends_tail(code, code);
    } else {
        lemma_statements_extend(list, (n - 1) as nat, code);
        if let Ok(first) = translate_statements(list, (n - 1) as nat, code) {
            lemma_statement_extends(list[n - 1], first);
            if let Ok(out) = translate_statement(list[n - 1], first) {
                lemma_extends_chain(code, first, out);
            }
        }
    }
}

} // verus!

//! Laws of the generated code, stated over the functions that the
//! contracts of the code generator use.
use crate::ast::BinaryOp;
use crate::ir::{IrExpr, IrStatement};
use crate::jit::{
    extends, lemma_extends_keeps, lemma_statement_extends, lemma_translate_extends, translate, translate_call,
    translate_conditional, translate_equality, translate_list, translate_logical, translate_loop,
    translate_pair, translate_statement, Callee, Code, FloatCond, FloatOp, Op,
};
use crate::number::{LOOP_LIMIT, ONE, ZERO};
use vstd::prelude::*;

verus! {

/// A short-circuit expression.
pub open spec fn logical(op: BinaryOp, left: IrExpr, right: IrExpr) -> IrExpr {
    IrExpr::Binary { op, left: Box::new(left), right: Box::new(right) }
}

/// Whether the code branches at `at + 4` on the truth of the value `left`,
/// to the block at `at` where it is true and to the block behind it where
/// it is not.
pub open spec fn branches_on(code: Code, at: usize, left: usize) -> bool {
    &&& 2 <= at
    &&& at + 5 < code.ops.len()
    &&& code.ops[at - 2] == Op::Number { bits: ZERO }
    &&& code.ops[at - 1] == Op::Compare { cond: FloatCond::NotEqual, left, right: (at - 2) as usize }
    &&& code.ops[at + 4] == Op::Branch {
        condition: (at - 1) as usize,
        then_block: at,
        else_block: (at + 1) as usize,
    }
    &&& code.ops[at + 5] == Op::SwitchTo { block: at }
}

/// The branch that a short-circuit expression opens stays where it is
/// while the code goes on.
proof fn lemma_branch_stays(first: Code, l: usize, later: Code)
    requires
        extends(first.truth_of(l).open_branch(first.truth_of(l).last()), later),
        later.ops.len() <= usize::MAX,
    ensures
        branches_on(later, (first.ops.len() + 2) as usize, l),
{
    let tested = first.truth_of(l);
    let opened = tested.open_branch(tested.last());
    let at: int = first.ops.len() as int + 2;
    assert(opened.ops.len() == first.ops.len() + 8);
    lemma_extends_keeps(opened, later, at - 2);
    lemma_extends_keeps(opened, later, at - 1);
    lemma_extends_keeps(opened, later, at + 4);
    lemma_extends_keeps(opened, later, at + 5);
}

/// Short circuit of `&&`. The code of `left && right` computes `left`,
/// branches on its truth, and computes `right` behind the switch to the arm
/// for a true `left`. The arm for a false `left` is the end of the code: it
/// holds the constant 0.0 and the jump that passes it on, and no operation
/// of `right`.
pub proof fn law_and_short_circuit(left: IrExpr, right: IrExpr, code: Code)
    requires
        translate(logical(BinaryOp::And, left, right), code) matches Ok((out, _)) && out.ops.len()
            <= usize::MAX,
    ensures
        translate(left, code) matches Ok((first, l)) && translate(logical(BinaryOp::And, left, right), code)
            matches Ok((out, value)) && ({
            let at = (first.ops.len() + 2) as usize;
            let end = out.ops.len();
            &&& branches_on(out, at, l)
            &&& value == at + 3
            &&& translate(right, first.truth_of(l).open_branch((at - 1) as usize)) is Ok
            &&& out.ops.subrange(end - 6, end as int) == seq![
                Op::SwitchTo { block: (at + 1) as usize },
                Op::Number { bits: ZERO },
                Op::JumpWith { target: (at + 2) as usize, argument: (end - 5) as usize },
                Op::Seal { block: (at + 1) as usize },
                Op::SwitchTo { block: (at + 2) as usize },
                Op::Seal { block: (at + 2) as usize },
            ]
        }),
{
    let e = logical(BinaryOp::And, left, right);
    assert(translate(e, code) == translate_logical(e, code));
    let (first, l) = translate(left, code)->Ok_0;
    let tested = first.truth_of(l);
    let at = tested.next();
    let opened = tested.open_branch(tested.last());
    let (second, r) = translate(right, opened)->Ok_0;
    lemma_translate_extends(right, opened);
    let truth = second.truth_of(r);
    let widened = truth.emit(Op::BoolToFloat { value: truth.last() });
    let other = widened.next_arm(at, widened.last()).number(ZERO);
    let out = other.close_branch(at, other.last());
    let end = out.ops.len();
    assert(opened.ops.len() == first.ops.len() + 8);
    assert(end == second.ops.len() + 11);
    assert(out.ops.take(opened.ops.len() as int) =~= second.ops.take(opened.ops.len() as int));
    lemma_branch_stays(first, l, out);
    assert(out.ops.subrange(end - 6, end as int) =~= seq![
        Op::SwitchTo { block: (at + 1) as usize },
        Op::Number { bits: ZERO },
        Op::JumpWith { target: (at + 2) as usize, argument: (end - 5) as usize },
        Op::Seal { block: (at + 1) as usize },
        Op::SwitchTo { block: (at + 2) as usize },
        Op::Seal { block: (at + 2) as usize },
    ]);
}

/// Short circuit of `||`. The code of `left || right` computes `left` and
/// branches on its truth. The arm for a true `left` holds the constant 1.0
/// and the jump that passes it on, and no operation of `right`, which is
/// computed behind the switch to the other arm.
pub proof fn law_or_short_circuit(left: IrExpr, right: IrExpr, code: Code)
    requires
        translate(logical(BinaryOp::Or, left, right), code) matches Ok((out, _)) && out.ops.len()
            <= usize::MAX,
    ensures
        translate(left, code) matches Ok((first, l)) && translate(logical(BinaryOp::Or, left, right), code)
            matches Ok((out, value)) && ({
            let at = (first.ops.len() + 2) as usize;
            &&& branches_on(out, at, l)
            &&& value == at + 3
            &&& at + 9 < out.ops.len()
            &&& out.ops.subrange(at + 5, at + 10) == seq![
                Op::SwitchTo { block: at },
                Op::Number { bits: ONE },
                Op::JumpWith { target: (at + 2) as usize, argument: (at + 6) as usize },
                Op::Seal { block: at },
                Op::SwitchTo { block: (at + 1) as usize },
            ]
            &&& translate(
                right,
                first.truth_of(l).open_branch((at - 1) as usize).number(ONE).next_arm(at, (at + 6) as usize),
            ) is Ok
        }),
{
    let e = logical(BinaryOp::Or, left, right);
    assert(translate(e, code) == translate_logical(e, code));
    let (first, l) = translate(left, code)->Ok_0;
    let tested = first.truth_of(l);
    let at = tested.next();
    let one = tested.open_branch(tested.last()).number(ONE);
    let arm = one.next_arm(at, one.last());
    let (second, r) = translate(right, arm)->Ok_0;
    lemma_translate_extends(right, arm);
    let out = second.close_branch(at, r);
    let opened = tested.open_branch(tested.last());
    assert(opened.ops.len() == first.ops.len() + 8);
    assert(arm.ops.len() == first.ops.len() + 12);
    assert(out.ops.len() == second.ops.len() + 4);
    assert(out.ops.take(arm.ops.len() as int) =~= arm.ops) by {
        assert(out.ops.take(arm.ops.len() as int) =~= second.ops.take(arm.ops.len() as int));
    }
    assert(out.ops.take(opened.ops.len() as int) =~= opened.ops) by {
        assert(arm.ops.take(opened.ops.len() as int) =~= opened.ops);
        assert(out.ops.take(opened.ops.len() as int) =~= out.ops.take(arm.ops.len() as int).take(
            opened.ops.len() as int,
        ));
    }
    lemma_branch_stays(first, l, out);
    assert forall|k: int| at + 5 <= k < at + 10 implies out.ops[k] == arm.ops[k] by {
        assert(out.ops.take(arm.ops.len() as int)[k] == out.ops[k]);
    }
    assert(out.ops.subrange(at + 5, at + 10) =~= seq![
        Op::SwitchTo { block: at },
        Op::Number { bits: ONE },
        Op::JumpWith { target: (at + 2) as usize, argument: (at + 6) as usize },
        Op::Seal { block: at },
        Op::SwitchTo { block: (at + 1) as usize },
    ]);
}

/// Short circuit of `??`. The code of `left ?? right` computes `left` and
/// branches on its truth. The arm for a true `left` holds the jump that
/// passes `left` on, and no operation of `right`, which is computed behind
/// the switch to the other arm.
pub proof fn law_coalesce_short_circuit(left: IrExpr, right: IrExpr, code: Code)
    requires
        translate(logical(BinaryOp::NullCoalesce, left, right), code) matches Ok((out, _)) && out.ops.len()
            <= usize::MAX,
    ensures
        translate(left, code) matches Ok((first, l)) && translate(
            logical(BinaryOp::NullCoalesce, left, right),
            code,
        ) matches Ok((out, value)) && ({
            let at = (first.ops.len() + 2) as usize;
            &&& branches_on(out, at, l)
            &&& value == at + 3
            &&& at + 8 < out.ops.len()
            &&& out.ops.subrange(at + 5, at + 9) == seq![
                Op::SwitchTo { block: at },
                Op::JumpWith { target: (at + 2) as usize, argument: l },
                Op::Seal { block: at },
                Op::SwitchTo { block: (at + 1) as usize },
            ]
            &&& translate(right, first.truth_of(l).open_branch((at - 1) as usize).next_arm(at, l)) is Ok
        }),
{
    let e = logical(BinaryOp::NullCoalesce, left, right);
    assert(translate(e, code) == translate_logical(e, code));
    let (first, l) = translate(left, code)->Ok_0;
    let tested = first.truth_of(l);
    let at = tested.next();
    let arm = tested.open_branch(tested.last()).next_arm(at, l);
    let (second, r) = translate(right, arm)->Ok_0;
    lemma_translate_extends(right, arm);
    let out = second.close_branch(at, r);
    let opened = tested.open_branch(tested.last());
    assert(opened.ops.len() == first.ops.len() + 8);
    assert(arm.ops.len() == first.ops.len() + 11);
    assert(out.ops.len() == second.ops.len() + 4);
    assert(out.ops.take(arm.ops.len() as int) =~= arm.ops) by {
        assert(out.ops.take(arm.ops.len() as int) =~= second.ops.take(arm.ops.len() as int));
    }
    assert(out.ops.take(opened.ops.len() as int) =~= opened.ops) by {
        assert(arm.ops.take(opened.ops.len() as int) =~= opened.ops);
        assert(out.ops.take(opened.ops.len() as int) =~= out.ops.take(arm.ops.len() as int).take(
            opened.ops.len() as int,
        ));
    }
    lemma_branch_stays(first, l, out);
    assert forall|k: int| at + 5 <= k < at + 9 implies out.ops[k] == arm.ops[k] by {
        assert(out.ops.take(arm.ops.len() as int)[k] == out.ops[k]);
    }
    assert(out.ops.subrange(at + 5, at + 9) =~= seq![
        Op::SwitchTo { block: at },
        Op::JumpWith { target: (at + 2) as usize, argument: l },
        Op::Seal { block: at },
        Op::SwitchTo { block: (at + 1) as usize },
    ]);
}

/// Whether an expression is made of numbers, operators, conditionals and
/// calls of math functions alone.
pub open spec fn numeric(e: IrExpr) -> bool
    decreases e,
{
    match e {
        IrExpr::Constant(_) => true,
        IrExpr::Unary { expr, .. } => numeric(*expr),
        IrExpr::Binary { left, right, .. } => numeric(*left) && numeric(*right),
        IrExpr::Conditional { condition, then_branch, else_branch } => numeric(*condition) && numeric(
            *then_branch,
        ) && match else_branch {
            Some(branch) => numeric(*branch),
            None => true,
        },
        IrExpr::Call { args, .. } => forall|i: int| 0 <= i < args.len() ==> numeric(#[trigger] args[i]),
        _ => false,
    }
}

/// Whether an operation reads the slot table or a data object, or calls
/// the runtime bridge.
pub open spec fn touches_context(op: Op) -> bool {
    match op {
        Op::SlotPointer { .. } | Op::SlotLength { .. } | Op::DataAddress { .. } | Op::DataSize { .. } => true,
        Op::Call { callee } => callee is Runtime,
        _ => false,
    }
}

/// Whether the later code goes on from the earlier with the same slots and
/// data, by operations that leave the context alone.
pub open spec fn pure_step(before: Code, after: Code) -> bool {
    &&& extends(before, after)
    &&& after.slots == before.slots
    &&& after.data == before.data
    &&& after.loops == before.loops
    &&& forall|i: int| before.ops.len() <= i < after.ops.len() ==> !touches_context(#[trigger] after.ops[i])
}

proof fn lemma_pure_chain(a: Code, b: Code, c: Code)
    requires
        pure_step(a, b),
        pure_step(b, c),
    ensures
        pure_step(a, c),
{
    assert(c.ops.take(a.ops.len() as int) =~= b.ops.take(a.ops.len() as int));
    assert forall|i: int| a.ops.len() <= i < c.ops.len() implies !touches_context(#[trigger] c.ops[i]) by {
        if i < b.ops.len() {
            lemma_extends_keeps(b, c, i);
        }
    }
}

/// A step that appends operations of its own is pure where none of them
/// touches the context.
proof fn lemma_pure_tail(before: Code, after: Code)
    requires
        before.ops.len() <= after.ops.len(),
        after.ops.take(before.ops.len() as int) =~= before.ops,
        after.slots == before.slots,
        after.data == before.data,
        after.loops == before.loops,
        forall|i: int| before.ops.len() <= i < after.ops.len() ==> !touches_context(#[trigger] after.ops[i]),
    ensures
        pure_step(before, after),
{
}

/// Numeric purity. An expression made of numbers, operators, conditionals
/// and calls of math functions alone always compiles, and its code leaves
/// the context alone: it names no slot and no data object and calls no
/// function of the runtime bridge.
pub proof fn law_numeric_code_is_pure(e: IrExpr, code: Code)
    requires
        numeric(e),
    ensures
        translate(e, code) matches Ok((out, _)) && pure_step(code, out),
    decreases e, 2nat,
{
    match e {
        IrExpr::Constant(text) => {
            lemma_pure_tail(code, code.literal(text@));
        },
        IrExpr::Unary { op, expr } => {
            law_numeric_code_is_pure(*expr, code);
            let (inner, value) = translate(*expr, code)->Ok_0;
            lemma_pure_tail(inner, inner.unary(op, value));
            lemma_pure_chain(code, inner, inner.unary(op, value));
        },
        IrExpr::Binary { op, .. } => match op {
            BinaryOp::And | BinaryOp::Or | BinaryOp::NullCoalesce => lemma_logical_pure(e, code),
            BinaryOp::Equal | BinaryOp::NotEqual => {
                if let IrExpr::Binary { left, right, .. } = e {
                    assert(numeric(*left) && numeric(*right));
                    assert(!(*left is Path) && !(*left is String));
                }
                assert(translate_equality(e, code) == translate_pair(e, code));
                lemma_pair_pure(e, code);
            },
            _ => lemma_pair_pure(e, code),
        },
        IrExpr::Conditional { .. } => lemma_conditional_pure(e, code),
        IrExpr::Call { .. } => lemma_call_pure(e, code),
        _ => {},
    }
}

proof fn lemma_pair_pure(e: IrExpr, code: Code)
    requires
        e is Binary,
        numeric(e),
    ensures
        translate_pair(e, code) matches Ok((out, _)) && pure_step(code, out),
    decreases e, 0nat,
{
    if let IrExpr::Binary { op, left, right } = e {
        law_numeric_code_is_pure(*left, code);
        let (first, l) = translate(*left, code)->Ok_0;
        law_numeric_code_is_pure(*right, first);
        let (second, r) = translate(*right, first)->Ok_0;
        lemma_pure_tail(second, second.binary(op, l, r));
        lemma_pure_chain(code, first, second);
        lemma_pure_chain(code, second, second.binary(op, l, r));
    }
}

proof fn lemma_logical_pure(e: IrExpr, code: Code)
    requires
        e matches IrExpr::Binary { op, .. } && (op == BinaryOp::And || op == BinaryOp::Or || op
            == BinaryOp::NullCoalesce),
        numeric(e),
    ensures
        translate_logical(e, code) matches Ok((out, _)) && pure_step(code, out),
    decreases e, 0nat,
{
    if let IrExpr::Binary { op, left, right } = e {
        law_numeric_code_is_pure(*left, code);
        let (first, l) = translate(*left, code)->Ok_0;
        let tested = first.truth_of(l);
        let at = tested.next();
        let opened = tested.open_branch(tested.last());
        lemma_pure_tail(first, opened);
        lemma_pure_chain(code, first, opened);
        match op {
            BinaryOp::And => {
                law_numeric_code_is_pure(*right, opened);
                let (second, r) = translate(*right, opened)->Ok_0;
                let truth = second.truth_of(r);
                let widened = truth.emit(Op::BoolToFloat { value: truth.last() });
                let other = widened.next_arm(at, widened.last()).number(ZERO);
                let out = other.close_branch(at, other.last());
                lemma_pure_tail(second, out);
                lemma_pure_chain(code, opened, second);
                lemma_pure_chain(code, second, out);
            },
            BinaryOp::Or => {
                let one = opened.number(ONE);
                let arm = one.next_arm(at, one.last());
                lemma_pure_tail(opened, arm);
                lemma_pure_chain(code, opened, arm);
                law_numeric_code_is_pure(*right, arm);
                let (second, r) = translate(*right, arm)->Ok_0;
                let out = second.close_branch(at, r);
                lemma_pure_tail(second, out);
                lemma_pure_chain(code, arm, second);
                lemma_pure_chain(code, second, out);
            },
            _ => {
                let arm = opened.next_arm(at, l);
                lemma_pure_tail(opened, arm);
                lemma_pure_chain(code, opened, arm);
                law_numeric_code_is_pure(*right, arm);
                let (second, r) = translate(*right, arm)->Ok_0;
                let out = second.close_branch(at, r);
                lemma_pure_tail(second, out);
                lemma_pure_chain(code, arm, second);
                lemma_pure_chain(code, second, out);
            },
        }
    }
}

proof fn lemma_conditional_pure(e: IrExpr, code: Code)
    requires
        e is Conditional,
        numeric(e),
    ensures
        translate_conditional(e, code) matches Ok((out, _)) && pure_step(code, out),
    decreases e, 0nat,
{
    if let IrExpr::Conditional { condition, then_branch, else_branch } = e {
        law_numeric_code_is_pure(*condition, code);
        let (first, c) = translate(*condition, code)->Ok_0;
        let tested = first.truth_of(c);
        let at = tested.next();
        let opened = tested.open_branch(tested.last());
        lemma_pure_tail(first, opened);
        lemma_pure_chain(code, first, opened);
        law_numeric_code_is_pure(*then_branch, opened);
        let (second, t) = translate(*then_branch, opened)->Ok_0;
        let other = second.next_arm(at, t);
        lemma_pure_tail(second, other);
        lemma_pure_chain(code, opened, second);
        lemma_pure_chain(code, second, other);
        match else_branch {
            Some(branch) => {
                law_numeric_code_is_pure(*branch, other);
                let (third, v) = translate(*branch, other)->Ok_0;
                let out = third.close_branch(at, v);
                lemma_pure_tail(third, out);
                lemma_pure_chain(code, other, third);
                lemma_pure_chain(code, third, out);
            },
            None => {
                let out = other.number(ZERO).close_branch(at, other.next());
                lemma_pure_tail(other, out);
                lemma_pure_chain(code, other, out);
            },
        }
    }
}

proof fn lemma_args_pure(code: Code, values: Seq<usize>)
    ensures
        pure_step(code, code.args(values)),
    decreases values.len(),
{
    if values.len() > 0 {
        lemma_args_pure(code, values.drop_last());
        let before = code.args(values.drop_last());
        lemma_pure_tail(before, before.arg(values.last()));
        lemma_pure_chain(code, before, code.args(values));
    } else {
        lemma_pure_tail(code, code);
    }
}

proof fn lemma_call_pure(e: IrExpr, code: Code)
    requires
        e is Call,
        numeric(e),
    ensures
        translate_call(e, code) matches Ok((out, _)) && pure_step(code, out),
    decreases e, 0nat,
{
    if let IrExpr::Call { function, args } = e {
        lemma_list_pure(args, args.len() as nat, code);
        let (evaluated, values) = translate_list(args, args.len() as nat, code)->Ok_0;
        lemma_args_pure(evaluated, values);
        let given = evaluated.args(values);
        let out = given.emit(Op::Call { callee: Callee::Builtin(function->Builtin_0) });
        lemma_pure_tail(given, out);
        lemma_pure_chain(code, evaluated, given);
        lemma_pure_chain(code, given, out);
    }
}

proof fn lemma_list_pure(items: Vec<IrExpr>, n: nat, code: Code)
    requires
        n <= items.len(),
        forall|i: int| 0 <= i < items.len() ==> numeric(#[trigger] items[i]),
    ensures
        translate_list(items, n, code) matches Ok((out, _)) && pure_step(code, out),
    decreases items, n,
{
    if n == 0 {
        lemma_pure_tail(code, code);
    } else {
        lemma_list_pure(items, (n - 1) as nat, code);
        let (first, values) = translate_list(items, (n - 1) as nat, code)->Ok_0;
        law_numeric_code_is_pure(items[n - 1], first);
        let (second, value) = translate(items[n - 1], first)->Ok_0;
        lemma_pure_chain(code, first, second);
    }
}

/// The loop cap. The code of `loop(count, body)` computes the count once,
/// takes the smaller of the count and 1024 as the bound, sets a counter of
/// its own to 0.0, and enters the body only from the header block, where
/// the counter is below the bound; the last block of the loop adds 1.0 to
/// the counter and goes back to the header.
pub proof fn law_loop_is_capped(count: IrExpr, body: IrStatement, code: Code)
    requires
        translate_loop(IrStatement::Loop { count, body: Box::new(body) }, code) matches Ok(out)
            && out.ops.len() <= usize::MAX,
    ensures
        translate(count, code) matches Ok((counted, c)) && translate_loop(
            IrStatement::Loop { count, body: Box::new(body) },
            code,
        ) matches Ok(out) && ({
            let k = counted.ops.len() as int;
            let end = out.ops.len() as int;
            &&& k + 15 <= end - 12
            &&& out.ops.subrange(k, k + 5) == seq![
                Op::Number { bits: LOOP_LIMIT },
                Op::Binary { op: FloatOp::Min, left: c, right: k as usize },
                Op::DeclareVar,
                Op::Number { bits: ZERO },
                Op::DefVar { var: (k + 2) as usize, value: (k + 3) as usize },
            ]
            &&& out.ops.subrange(k + 9, k + 15) == seq![
                Op::Jump { target: (k + 5) as usize },
                Op::SwitchTo { block: (k + 5) as usize },
                Op::UseVar { var: (k + 2) as usize },
                Op::Compare { cond: FloatCond::LessThan, left: (k + 11) as usize, right: (k + 1) as usize },
                Op::Branch {
                    condition: (k + 12) as usize,
                    then_block: (k + 6) as usize,
                    else_block: (k + 7) as usize,
                },
                Op::SwitchTo { block: (k + 6) as usize },
            ]
            &&& out.ops.subrange(end - 10, end - 4) == seq![
                Op::SwitchTo { block: (k + 8) as usize },
                Op::UseVar { var: (k + 2) as usize },
                Op::Number { bits: ONE },
                Op::Binary { op: FloatOp::Add, left: (end - 9) as usize, right: (end - 8) as usize },
                Op::DefVar { var: (k + 2) as usize, value: (end - 7) as usize },
                Op::Jump { target: (k + 5) as usize },
            ]
        }),
{
    let (counted, c) = translate(count, code)->Ok_0;
    let limited = counted.number(LOOP_LIMIT).emit(
        Op::Binary { op: FloatOp::Min, left: c, right: counted.next() },
    );
    let at = limited.next();
    let entered = limited.open_loop(limited.last()).enter_loop(at);
    let done = translate_statement(body, entered)->Ok_0;
    let out = done.close_loop(at);
    let k = counted.ops.len() as int;
    let end = out.ops.len() as int;
    lemma_statement_extends(body, entered);
    assert(entered.ops.len() == k + 15);
    assert(end == done.ops.len() + 12);
    assert forall|i: int| 0 <= i < k + 15 implies out.ops[i] == entered.ops[i] by {
        lemma_extends_keeps(entered, done, i);
    }
    assert(out.ops.subrange(k, k + 5) =~= seq![
        Op::Number { bits: LOOP_LIMIT },
        Op::Binary { op: FloatOp::Min, left: c, right: k as usize },
        Op::DeclareVar,
        Op::Number { bits: ZERO },
        Op::DefVar { var: (k + 2) as usize, value: (k + 3) as usize },
    ]);
    assert(out.ops.subrange(k + 9, k + 15) =~= seq![
        Op::Jump { target: (k + 5) as usize },
        Op::SwitchTo { block: (k + 5) as usize },
        Op::UseVar { var: (k + 2) as usize },
        Op::Compare { cond: FloatCond::LessThan, left: (k + 11) as usize, right: (k + 1) as usize },
        Op::Branch { condition: (k + 12) as usize, then_block: (k + 6) as usize, else_block: (k + 7) as usize },
        Op::SwitchTo { block: (k + 6) as usize },
    ]);
    assert(out.ops.subrange(end - 10, end - 4) =~= seq![
        Op::SwitchTo { block: (k + 8) as usize },
        Op::UseVar { var: (k + 2) as usize },
        Op::Number { bits: ONE },
        Op::Binary { op: FloatOp::Add, left: (end - 9) as usize, right: (end - 8) as usize },
        Op::DefVar { var: (k + 2) as usize, value: (end - 7) as usize },
        Op::Jump { target: (k + 5) as usize },
    ]);
}

} // verus!

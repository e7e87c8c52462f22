//! The intermediate representation: the syntax tree with every call
//! resolved to a builtin function and its argument count checked.
use crate::ast::{BinaryOp, ControlFlowExpr, Expr, ExprField, Program, Statement, UnaryOp};
use crate::text::{join_dots, join_texts, same_text, texts};
use vstd::prelude::*;

verus! {

/// One named field of a struct literal.
#[derive(Debug)]
pub struct IrField {
    pub name: String,
    pub value: IrExpr,
}

/// Expression IR that the code generator takes.
#[derive(Debug)]
#[allow(inconsistent_fields)]
pub enum IrExpr {
    Constant(String),
    Path(Vec<String>),
    String(String),
    Array(Vec<IrExpr>),
    Struct(Vec<IrField>),
    Unary { op: UnaryOp, expr: Box<IrExpr> },
    Binary { op: BinaryOp, left: Box<IrExpr>, right: Box<IrExpr> },
    Conditional { condition: Box<IrExpr>, then_branch: Box<IrExpr>, else_branch: Option<Box<IrExpr>> },
    Call { function: FunctionRef, args: Vec<IrExpr> },
    Index { target: Box<IrExpr>, index: Box<IrExpr> },
    Flow(ControlFlowExpr),
}

/// Statement-level IR.
#[derive(Debug)]
pub enum IrStatement {
    Assign { target: Vec<String>, value: IrExpr },
    Block(Vec<IrStatement>),
    Loop { count: IrExpr, body: Box<IrStatement> },
    ForEach { variable: Vec<String>, collection: IrExpr, body: Box<IrStatement> },
    Return(Option<IrExpr>),
    Expr(IrExpr),
}

#[derive(Debug)]
pub struct IrProgram {
    pub statements: Vec<IrStatement>,
}

#[derive(Debug, Clone, Copy, PartialEq, Eq, Structural)]
pub enum FunctionRef {
    Builtin(BuiltinFunction),
}

/// The math functions that a program can call.
#[derive(Debug, Clone, Copy, PartialEq, Eq, Hash, Structural)]
pub enum BuiltinFunction {
    MathCos,
    MathSin,
    MathAbs,
    MathRandom,
    MathRandomInteger,
    MathClamp,
    MathSqrt,
    MathFloor,
    MathCeil,
    MathRound,
    MathTrunc,
    MathAcos,
    MathAsin,
    MathAtan,
    MathAtan2,
    MathExp,
    MathLn,
    MathPow,
    MathMax,
    MathMin,
    MathMod,
    MathSign,
    MathCopySign,
    MathPi,
    MathMinAngle,
    MathLerp,
    MathInverseLerp,
    MathLerpRotate,
    MathHermiteBlend,
    MathDieRoll,
    MathDieRollInteger,
    MathEaseInQuad,
    MathEaseOutQuad,
    MathEaseInOutQuad,
    MathEaseInCubic,
    MathEaseOutCubic,
    MathEaseInOutCubic,
    MathEaseInQuart,
    MathEaseOutQuart,
    MathEaseInOutQuart,
    MathEaseInQuint,
    MathEaseOutQuint,
    MathEaseInOutQuint,
    MathEaseInSine,
    MathEaseOutSine,
    MathEaseInOutSine,
    MathEaseInExpo,
    MathEaseOutExpo,
    MathEaseInOutExpo,
    MathEaseInCirc,
    MathEaseOutCirc,
    MathEaseInOutCirc,
    MathEaseInBack,
    MathEaseOutBack,
    MathEaseInOutBack,
    MathEaseInElastic,
    MathEaseOutElastic,
    MathEaseInOutElastic,
    MathEaseInBounce,
    MathEaseOutBounce,
    MathEaseInOutBounce,
}

/// The name under which a program calls the function, behind `math.`.
pub open spec fn builtin_name(function: BuiltinFunction) -> Seq<char> {
    match function {
        BuiltinFunction::MathCos => "cos"@,
        BuiltinFunction::MathSin => "sin"@,
        BuiltinFunction::MathAbs => "abs"@,
        BuiltinFunction::MathRandom => "random"@,
        BuiltinFunction::MathRandomInteger => "random_integer"@,
        BuiltinFunction::MathClamp => "clamp"@,
        BuiltinFunction::MathSqrt => "sqrt"@,
        BuiltinFunction::MathFloor => "floor"@,
        BuiltinFunction::MathCeil => "ceil"@,
        BuiltinFunction::MathRound => "round"@,
        BuiltinFunction::MathTrunc => "trunc"@,
        BuiltinFunction::MathAcos => "acos"@,
        BuiltinFunction::MathAsin => "asin"@,
        BuiltinFunction::MathAtan => "atan"@,
        BuiltinFunction::MathAtan2 => "atan2"@,
        BuiltinFunction::MathExp => "exp"@,
        BuiltinFunction::MathLn => "ln"@,
        BuiltinFunction::MathPow => "pow"@,
        BuiltinFunction::MathMax => "max"@,
        BuiltinFunction::MathMin => "min"@,
        BuiltinFunction::MathMod => "mod"@,
        BuiltinFunction::MathSign => "sign"@,
        BuiltinFunction::MathCopySign => "copy_sign"@,
        BuiltinFunction::MathPi => "pi"@,
        BuiltinFunction::MathMinAngle => "min_angle"@,
        BuiltinFunction::MathLerp => "lerp"@,
        BuiltinFunction::MathInverseLerp => "inverse_lerp"@,
        BuiltinFunction::MathLerpRotate => "lerprotate"@,
        BuiltinFunction::MathHermiteBlend => "hermite_blend"@,
        BuiltinFunction::MathDieRoll => "die_roll"@,
        BuiltinFunction::MathDieRollInteger => "die_roll_integer"@,
        BuiltinFunction::MathEaseInQuad => "ease_in_quad"@,
        BuiltinFunction::MathEaseOutQuad => "ease_out_quad"@,
        BuiltinFunction::MathEaseInOutQuad => "ease_in_out_quad"@,
        BuiltinFunction::MathEaseInCubic => "ease_in_cubic"@,
        BuiltinFunction::MathEaseOutCubic => "ease_out_cubic"@,
        BuiltinFunction::MathEaseInOutCubic => "ease_in_out_cubic"@,
        BuiltinFunction::MathEaseInQuart => "ease_in_quart"@,
        BuiltinFunction::MathEaseOutQuart => "ease_out_quart"@,
        BuiltinFunction::MathEaseInOutQuart => "ease_in_out_quart"@,
        BuiltinFunction::MathEaseInQuint => "ease_in_quint"@,
        BuiltinFunction::MathEaseOutQuint => "ease_out_quint"@,
        BuiltinFunction::MathEaseInOutQuint => "ease_in_out_quint"@,
        BuiltinFunction::MathEaseInSine => "ease_in_sine"@,
        BuiltinFunction::MathEaseOutSine => "ease_out_sine"@,
        BuiltinFunction::MathEaseInOutSine => "ease_in_out_sine"@,
        BuiltinFunction::MathEaseInExpo => "ease_in_expo"@,
        BuiltinFunction::MathEaseOutExpo => "ease_out_expo"@,
        BuiltinFunction::MathEaseInOutExpo => "ease_in_out_expo"@,
        BuiltinFunction::MathEaseInCirc => "ease_in_circ"@,
        BuiltinFunction::MathEaseOutCirc => "ease_out_circ"@,
        BuiltinFunction::MathEaseInOutCirc => "ease_in_out_circ"@,
        BuiltinFunction::MathEaseInBack => "ease_in_back"@,
        BuiltinFunction::MathEaseOutBack => "ease_out_back"@,
        BuiltinFunction::MathEaseInOutBack => "ease_in_out_back"@,
        BuiltinFunction::MathEaseInElastic => "ease_in_elastic"@,
        BuiltinFunction::MathEaseOutElastic => "ease_out_elastic"@,
        BuiltinFunction::MathEaseInOutElastic => "ease_in_out_elastic"@,
        BuiltinFunction::MathEaseInBounce => "ease_in_bounce"@,
        BuiltinFunction::MathEaseOutBounce => "ease_out_bounce"@,
        BuiltinFunction::MathEaseInOutBounce => "ease_in_out_bounce"@,
    }
}

/// The external symbol that compiled code calls for the function.
pub open spec fn builtin_symbol(function: BuiltinFunction) -> Seq<char> {
    match function {
        BuiltinFunction::MathCos => "builtin_math_cos"@,
        BuiltinFunction::MathSin => "builtin_math_sin"@,
        BuiltinFunction::MathAbs => "builtin_math_abs"@,
        BuiltinFunction::MathRandom => "builtin_math_random"@,
        BuiltinFunction::MathRandomInteger => "builtin_math_random_integer"@,
        BuiltinFunction::MathClamp => "builtin_math_clamp"@,
        BuiltinFunction::MathSqrt => "builtin_math_sqrt"@,
        BuiltinFunction::MathFloor => "builtin_math_floor"@,
        BuiltinFunction::MathCeil => "builtin_math_ceil"@,
        BuiltinFunction::MathRound => "builtin_math_round"@,
        BuiltinFunction::MathTrunc => "builtin_math_trunc"@,
        BuiltinFunction::MathAcos => "builtin_math_acos"@,
        BuiltinFunction::MathAsin => "builtin_math_asin"@,
        BuiltinFunction::MathAtan => "builtin_math_atan"@,
        BuiltinFunction::MathAtan2 => "builtin_math_atan2"@,
        BuiltinFunction::MathExp => "builtin_math_exp"@,
        BuiltinFunction::MathLn => "builtin_math_ln"@,
        BuiltinFunction::MathPow => "builtin_math_pow"@,
        BuiltinFunction::MathMax => "builtin_math_max"@,
        BuiltinFunction::MathMin => "builtin_math_min"@,
        BuiltinFunction::MathMod => "builtin_math_mod"@,
        BuiltinFunction::MathSign => "builtin_math_sign"@,
        BuiltinFunction::MathCopySign => "builtin_math_copy_sign"@,
        BuiltinFunction::MathPi => "builtin_math_pi"@,
        BuiltinFunction::MathMinAngle => "builtin_math_min_angle"@,
        BuiltinFunction::MathLerp => "builtin_math_lerp"@,
        BuiltinFunction::MathInverseLerp => "builtin_math_inverse_lerp"@,
        BuiltinFunction::MathLerpRotate => "builtin_math_lerprotate"@,
        BuiltinFunction::MathHermiteBlend => "builtin_math_hermite_blend"@,
        BuiltinFunction::MathDieRoll => "builtin_math_die_roll"@,
        BuiltinFunction::MathDieRollInteger => "builtin_math_die_roll_integer"@,
        BuiltinFunction::MathEaseInQuad => "builtin_math_ease_in_quad"@,
        BuiltinFunction::MathEaseOutQuad => "builtin_math_ease_out_quad"@,
        BuiltinFunction::MathEaseInOutQuad => "builtin_math_ease_in_out_quad"@,
        BuiltinFunction::MathEaseInCubic => "builtin_math_ease_in_cubic"@,
        BuiltinFunction::MathEaseOutCubic => "builtin_math_ease_out_cubic"@,
        BuiltinFunction::MathEaseInOutCubic => "builtin_math_ease_in_out_cubic"@,
        BuiltinFunction::MathEaseInQuart => "builtin_math_ease_in_quart"@,
        BuiltinFunction::MathEaseOutQuart => "builtin_math_ease_out_quart"@,
        BuiltinFunction::MathEaseInOutQuart => "builtin_math_ease_in_out_quart"@,
        BuiltinFunction::MathEaseInQuint => "builtin_math_ease_in_quint"@,
        BuiltinFunction::MathEaseOutQuint => "builtin_math_ease_out_quint"@,
        BuiltinFunction::MathEaseInOutQuint => "builtin_math_ease_in_out_quint"@,
        BuiltinFunction::MathEaseInSine => "builtin_math_ease_in_sine"@,
        BuiltinFunction::MathEaseOutSine => "builtin_math_ease_out_sine"@,
        BuiltinFunction::MathEaseInOutSine => "builtin_math_ease_in_out_sine"@,
        BuiltinFunction::MathEaseInExpo => "builtin_math_ease_in_expo"@,
        BuiltinFunction::MathEaseOutExpo => "builtin_math_ease_out_expo"@,
        BuiltinFunction::MathEaseInOutExpo => "builtin_math_ease_in_out_expo"@,
        BuiltinFunction::MathEaseInCirc => "builtin_math_ease_in_circ"@,
        BuiltinFunction::MathEaseOutCirc => "builtin_math_ease_out_circ"@,
        BuiltinFunction::MathEaseInOutCirc => "builtin_math_ease_in_out_circ"@,
        BuiltinFunction::MathEaseInBack => "builtin_math_ease_in_back"@,
        BuiltinFunction::MathEaseOutBack => "builtin_math_ease_out_back"@,
        BuiltinFunction::MathEaseInOutBack => "builtin_math_ease_in_out_back"@,
        BuiltinFunction::MathEaseInElastic => "builtin_math_ease_in_elastic"@,
        BuiltinFunction::MathEaseOutElastic => "builtin_math_ease_out_elastic"@,
        BuiltinFunction::MathEaseInOutElastic => "builtin_math_ease_in_out_elastic"@,
        BuiltinFunction::MathEaseInBounce => "builtin_math_ease_in_bounce"@,
        BuiltinFunction::MathEaseOutBounce => "builtin_math_ease_out_bounce"@,
        BuiltinFunction::MathEaseInOutBounce => "builtin_math_ease_in_out_bounce"@,
    }
}

/// The number of arguments that the function takes.
pub open spec fn builtin_arity(function: BuiltinFunction) -> nat {
    match function {
        BuiltinFunction::MathPi => 0,
        BuiltinFunction::MathCos
        | BuiltinFunction::MathSin
        | BuiltinFunction::MathAbs
        | BuiltinFunction::MathSqrt
        | BuiltinFunction::MathFloor
        | BuiltinFunction::MathCeil
        | BuiltinFunction::MathRound
        | BuiltinFunction::MathTrunc
        | BuiltinFunction::MathAcos
        | BuiltinFunction::MathAsin
        | BuiltinFunction::MathAtan
        | BuiltinFunction::MathExp
        | BuiltinFunction::MathLn
        | BuiltinFunction::MathSign
        | BuiltinFunction::MathMinAngle
        | BuiltinFunction::MathHermiteBlend => 1,
        BuiltinFunction::MathRandom
        | BuiltinFunction::MathRandomInteger
        | BuiltinFunction::MathAtan2
        | BuiltinFunction::MathPow
        | BuiltinFunction::MathMax
        | BuiltinFunction::MathMin
        | BuiltinFunction::MathMod
        | BuiltinFunction::MathCopySign => 2,
        BuiltinFunction::MathClamp
        | BuiltinFunction::MathLerp
        | BuiltinFunction::MathInverseLerp
        | BuiltinFunction::MathLerpRotate
        | BuiltinFunction::MathDieRoll
        | BuiltinFunction::MathDieRollInteger
        | BuiltinFunction::MathEaseInQuad
        | BuiltinFunction::MathEaseOutQuad
        | BuiltinFunction::MathEaseInOutQuad
        | BuiltinFunction::MathEaseInCubic
        | BuiltinFunction::MathEaseOutCubic
        | BuiltinFunction::MathEaseInOutCubic
        | BuiltinFunction::MathEaseInQuart
        | BuiltinFunction::MathEaseOutQuart
        | BuiltinFunction::MathEaseInOutQuart
        | BuiltinFunction::MathEaseInQuint
        | BuiltinFunction::MathEaseOutQuint
        | BuiltinFunction::MathEaseInOutQuint
        | BuiltinFunction::MathEaseInSine
        | BuiltinFunction::MathEaseOutSine
        | BuiltinFunction::MathEaseInOutSine
        | BuiltinFunction::MathEaseInExpo
        | BuiltinFunction::MathEaseOutExpo
        | BuiltinFunction::MathEaseInOutExpo
        | BuiltinFunction::MathEaseInCirc
        | BuiltinFunction::MathEaseOutCirc
        | BuiltinFunction::MathEaseInOutCirc
        | BuiltinFunction::MathEaseInBack
        | BuiltinFunction::MathEaseOutBack
        | BuiltinFunction::MathEaseInOutBack
        | BuiltinFunction::MathEaseInElastic
        | BuiltinFunction::MathEaseOutElastic
        | BuiltinFunction::MathEaseInOutElastic
        | BuiltinFunction::MathEaseInBounce
        | BuiltinFunction::MathEaseOutBounce
        | BuiltinFunction::MathEaseInOutBounce => 3,
    }
}

/// Every function, in the order in which a name is looked up.
pub open spec fn builtin_table() -> Seq<BuiltinFunction> {
    seq![
        BuiltinFunction::MathCos,
        BuiltinFunction::MathSin,
        BuiltinFunction::MathAbs,
        BuiltinFunction::MathRandom,
        BuiltinFunction::MathRandomInteger,
        BuiltinFunction::MathClamp,
        BuiltinFunction::MathSqrt,
        BuiltinFunction::MathFloor,
        BuiltinFunction::MathCeil,
        BuiltinFunction::MathRound,
        BuiltinFunction::MathTrunc,
        BuiltinFunction::MathAcos,
        BuiltinFunction::MathAsin,
        BuiltinFunction::MathAtan,
        BuiltinFunction::MathAtan2,
        BuiltinFunction::MathExp,
        BuiltinFunction::MathLn,
        BuiltinFunction::MathPow,
        BuiltinFunction::MathMax,
        BuiltinFunction::MathMin,
        BuiltinFunction::MathMod,
        BuiltinFunction::MathSign,
        BuiltinFunction::MathCopySign,
        BuiltinFunction::MathPi,
        BuiltinFunction::MathMinAngle,
        BuiltinFunction::MathLerp,
        BuiltinFunction::MathInverseLerp,
        BuiltinFunction::MathLerpRotate,
        BuiltinFunction::MathHermiteBlend,
        BuiltinFunction::MathDieRoll,
        BuiltinFunction::MathDieRollInteger,
        BuiltinFunction::MathEaseInQuad,
        BuiltinFunction::MathEaseOutQuad,
        BuiltinFunction::MathEaseInOutQuad,
        BuiltinFunction::MathEaseInCubic,
        BuiltinFunction::MathEaseOutCubic,
        BuiltinFunction::MathEaseInOutCubic,
        BuiltinFunction::MathEaseInQuart,
        BuiltinFunction::MathEaseOutQuart,
        BuiltinFunction::MathEaseInOutQuart,
        BuiltinFunction::MathEaseInQuint,
        BuiltinFunction::MathEaseOutQuint,
        BuiltinFunction::MathEaseInOutQuint,
        BuiltinFunction::MathEaseInSine,
        BuiltinFunction::MathEaseOutSine,
        BuiltinFunction::MathEaseInOutSine,
        BuiltinFunction::MathEaseInExpo,
        BuiltinFunction::MathEaseOutExpo,
        BuiltinFunction::MathEaseInOutExpo,
        BuiltinFunction::MathEaseInCirc,
        BuiltinFunction::MathEaseOutCirc,
        BuiltinFunction::MathEaseInOutCirc,
        BuiltinFunction::MathEaseInBack,
        BuiltinFunction::MathEaseOutBack,
        BuiltinFunction::MathEaseInOutBack,
        BuiltinFunction::MathEaseInElastic,
        BuiltinFunction::MathEaseOutElastic,
        BuiltinFunction::MathEaseInOutElastic,
        BuiltinFunction::MathEaseInBounce,
        BuiltinFunction::MathEaseOutBounce,
        BuiltinFunction::MathEaseInOutBounce,
    ]
}

/// The first function of the table that has the name.
pub open spec fn builtin_named_in(table: Seq<BuiltinFunction>, name: Seq<char>) -> Option<BuiltinFunction>
    decreases table.len(),
{
    if table.len() == 0 {
        None
    } else if builtin_name(table[0]) == name {
        Some(table[0])
    } else {
        builtin_named_in(table.skip(1), name)
    }
}

/// The function that a call path names: `math`, then the function's name.
pub open spec fn builtin_from_path(path: Seq<Seq<char>>) -> Option<BuiltinFunction> {
    if path.len() == 2 && path[0] == "math"@ {
        builtin_named_in(builtin_table(), path[1])
    } else {
        None
    }
}

/// Why lowering fails.
pub enum LowerFailure {
    UnknownFunction { name: Seq<char> },
    UnsupportedCallTarget,
    InvalidArgumentCount { name: Seq<char>, expected: usize, actual: usize },
}

#[derive(Debug)]
pub enum LowerError {
    /// The call path names no builtin; `name` is the path joined by dots.
    UnknownFunction { name: String },
    /// The call target is no path; `description` renders the target.
    UnsupportedCallTarget { description: String },
    /// The builtin with the symbol `name` takes `expected` arguments.
    InvalidArgumentCount { name: String, expected: usize, actual: usize },
}

impl View for LowerError {
    type V = LowerFailure;

    open spec fn view(&self) -> LowerFailure {
        match self {
            LowerError::UnknownFunction { name } => LowerFailure::UnknownFunction { name: name@ },
            LowerError::UnsupportedCallTarget { .. } => LowerFailure::UnsupportedCallTarget,
            LowerError::InvalidArgumentCount { name, expected, actual } => LowerFailure::InvalidArgumentCount {
                name: name@,
                expected: *expected,
                actual: *actual,
            },
        }
    }
}

impl BuiltinFunction {
    #[verifier::loop_isolation(false)]
    pub fn from_path(path: &[String]) -> (r: Option<Self>)
        ensures
            r == builtin_from_path(texts(path@)),
    {
        if path.len() != 2 || !same_text(path[0].as_str(), "math") {
            return None;
        }
        let name = path[1].as_str();
        let table = BuiltinFunction::all();
        let mut i: usize = 0;
        assert(table@.skip(0) =~= table@);
        while i < table.len()
            invariant
                i <= table.len(),
                table@ == builtin_table(),
                builtin_named_in(builtin_table(), name@) == builtin_named_in(table@.skip(i as int), name@),
            decreases table.len() - i,
        {
            assert(table@.skip(i as int).skip(1) =~= table@.skip(i + 1));
            assert(table@.skip(i as int)[0] == table@[i as int]);
            if same_text(table[i].name(), name) {
                return Some(table[i]);
            }
            i += 1;
        }
        None
    }

    /// Every function, in the order in which a name is looked up.
    pub fn all() -> (r: Vec<BuiltinFunction>)
        ensures
            r@ == builtin_table(),
    {
        let r = vec![
            BuiltinFunction::MathCos,
            BuiltinFunction::MathSin,
            BuiltinFunction::MathAbs,
            BuiltinFunction::MathRandom,
            BuiltinFunction::MathRandomInteger,
            BuiltinFunction::MathClamp,
            BuiltinFunction::MathSqrt,
            BuiltinFunction::MathFloor,
            BuiltinFunction::MathCeil,
            BuiltinFunction::MathRound,
            BuiltinFunction::MathTrunc,
            BuiltinFunction::MathAcos,
            BuiltinFunction::MathAsin,
            BuiltinFunction::MathAtan,
            BuiltinFunction::MathAtan2,
            BuiltinFunction::MathExp,
            BuiltinFunction::MathLn,
            BuiltinFunction::MathPow,
            BuiltinFunction::MathMax,
            BuiltinFunction::MathMin,
            BuiltinFunction::MathMod,
            BuiltinFunction::MathSign,
            BuiltinFunction::MathCopySign,
            BuiltinFunction::MathPi,
            BuiltinFunction::MathMinAngle,
            BuiltinFunction::MathLerp,
            BuiltinFunction::MathInverseLerp,
            BuiltinFunction::MathLerpRotate,
            BuiltinFunction::MathHermiteBlend,
            BuiltinFunction::MathDieRoll,
            BuiltinFunction::MathDieRollInteger,
            BuiltinFunction::MathEaseInQuad,
            BuiltinFunction::MathEaseOutQuad,
            BuiltinFunction::MathEaseInOutQuad,
            BuiltinFunction::MathEaseInCubic,
            BuiltinFunction::MathEaseOutCubic,
            BuiltinFunction::MathEaseInOutCubic,
            BuiltinFunction::MathEaseInQuart,
            BuiltinFunction::MathEaseOutQuart,
            BuiltinFunction::MathEaseInOutQuart,
            BuiltinFunction::MathEaseInQuint,
            BuiltinFunction::MathEaseOutQuint,
            BuiltinFunction::MathEaseInOutQuint,
            BuiltinFunction::MathEaseInSine,
            BuiltinFunction::MathEaseOutSine,
            BuiltinFunction::MathEaseInOutSine,
            BuiltinFunction::MathEaseInExpo,
            BuiltinFunction::MathEaseOutExpo,
            BuiltinFunction::MathEaseInOutExpo,
            BuiltinFunction::MathEaseInCirc,
            BuiltinFunction::MathEaseOutCirc,
            BuiltinFunction::MathEaseInOutCirc,
            BuiltinFunction::MathEaseInBack,
            BuiltinFunction::MathEaseOutBack,
            BuiltinFunction::MathEaseInOutBack,
            BuiltinFunction::MathEaseInElastic,
            BuiltinFunction::MathEaseOutElastic,
            BuiltinFunction::MathEaseInOutElastic,
            BuiltinFunction::MathEaseInBounce,
            BuiltinFunction::MathEaseOutBounce,
            BuiltinFunction::MathEaseInOutBounce,
        ];
        assert(r@ =~= builtin_table());
        r
    }

    /// The name under which a program calls the function, behind `math.`.
    pub fn name(self) -> (r: &'static str)
        ensures
            r@ == builtin_name(self),
    {
        match self {
            BuiltinFunction::MathCos => "cos",
            BuiltinFunction::MathSin => "sin",
            BuiltinFunction::MathAbs => "abs",
            BuiltinFunction::MathRandom => "random",
            BuiltinFunction::MathRandomInteger => "random_integer",
            BuiltinFunction::MathClamp => "clamp",
            BuiltinFunction::MathSqrt => "sqrt",
            BuiltinFunction::MathFloor => "floor",
            BuiltinFunction::MathCeil => "ceil",
            BuiltinFunction::MathRound => "round",
            BuiltinFunction::MathTrunc => "trunc",
            BuiltinFunction::MathAcos => "acos",
            BuiltinFunction::MathAsin => "asin",
            BuiltinFunction::MathAtan => "atan",
            BuiltinFunction::MathAtan2 => "atan2",
            BuiltinFunction::MathExp => "exp",
            BuiltinFunction::MathLn => "ln",
            BuiltinFunction::MathPow => "pow",
            BuiltinFunction::MathMax => "max",
            BuiltinFunction::MathMin => "min",
            BuiltinFunction::MathMod => "mod",
            BuiltinFunction::MathSign => "sign",
            BuiltinFunction::MathCopySign => "copy_sign",
            BuiltinFunction::MathPi => "pi",
            BuiltinFunction::MathMinAngle => "min_angle",
            BuiltinFunction::MathLerp => "lerp",
            BuiltinFunction::MathInverseLerp => "inverse_lerp",
            BuiltinFunction::MathLerpRotate => "lerprotate",
            BuiltinFunction::MathHermiteBlend => "hermite_blend",
            BuiltinFunction::MathDieRoll => "die_roll",
            BuiltinFunction::MathDieRollInteger => "die_roll_integer",
            BuiltinFunction::MathEaseInQuad => "ease_in_quad",
            BuiltinFunction::MathEaseOutQuad => "ease_out_quad",
            BuiltinFunction::MathEaseInOutQuad => "ease_in_out_quad",
            BuiltinFunction::MathEaseInCubic => "ease_in_cubic",
            BuiltinFunction::MathEaseOutCubic => "ease_out_cubic",
            BuiltinFunction::MathEaseInOutCubic => "ease_in_out_cubic",
            BuiltinFunction::MathEaseInQuart => "ease_in_quart",
            BuiltinFunction::MathEaseOutQuart => "ease_out_quart",
            BuiltinFunction::MathEaseInOutQuart => "ease_in_out_quart",
            BuiltinFunction::MathEaseInQuint => "ease_in_quint",
            BuiltinFunction::MathEaseOutQuint => "ease_out_quint",
            BuiltinFunction::MathEaseInOutQuint => "ease_in_out_quint",
            BuiltinFunction::MathEaseInSine => "ease_in_sine",
            BuiltinFunction::MathEaseOutSine => "ease_out_sine",
            BuiltinFunction::MathEaseInOutSine => "ease_in_out_sine",
            BuiltinFunction::MathEaseInExpo => "ease_in_expo",
            BuiltinFunction::MathEaseOutExpo => "ease_out_expo",
            BuiltinFunction::MathEaseInOutExpo => "ease_in_out_expo",
            BuiltinFunction::MathEaseInCirc => "ease_in_circ",
            BuiltinFunction::MathEaseOutCirc => "ease_out_circ",
            BuiltinFunction::MathEaseInOutCirc => "ease_in_out_circ",
            BuiltinFunction::MathEaseInBack => "ease_in_back",
            BuiltinFunction::MathEaseOutBack => "ease_out_back",
            BuiltinFunction::MathEaseInOutBack => "ease_in_out_back",
            BuiltinFunction::MathEaseInElastic => "ease_in_elastic",
            BuiltinFunction::MathEaseOutElastic => "ease_out_elastic",
            BuiltinFunction::MathEaseInOutElastic => "ease_in_out_elastic",
            BuiltinFunction::MathEaseInBounce => "ease_in_bounce",
            BuiltinFunction::MathEaseOutBounce => "ease_out_bounce",
            BuiltinFunction::MathEaseInOutBounce => "ease_in_out_bounce",
        }
    }

    pub fn arity(self) -> (r: usize)
        ensures
            r == builtin_arity(self),
    {
        match self {
            BuiltinFunction::MathPi => 0,
            BuiltinFunction::MathCos
            | BuiltinFunction::MathSin
            | BuiltinFunction::MathAbs
            | BuiltinFunction::MathSqrt
            | BuiltinFunction::MathFloor
            | BuiltinFunction::MathCeil
            | BuiltinFunction::MathRound
            | BuiltinFunction::MathTrunc
            | BuiltinFunction::MathAcos
            | BuiltinFunction::MathAsin
            | BuiltinFunction::MathAtan
            | BuiltinFunction::MathExp
            | BuiltinFunction::MathLn
            | BuiltinFunction::MathSign
            | BuiltinFunction::MathMinAngle
            | BuiltinFunction::MathHermiteBlend => 1,
            BuiltinFunction::MathRandom
            | BuiltinFunction::MathRandomInteger
            | BuiltinFunction::MathAtan2
            | BuiltinFunction::MathPow
            | BuiltinFunction::MathMax
            | BuiltinFunction::MathMin
            | BuiltinFunction::MathMod
            | BuiltinFunction::MathCopySign => 2,
            BuiltinFunction::MathClamp
            | BuiltinFunction::MathLerp
            | BuiltinFunction::MathInverseLerp
            | BuiltinFunction::MathLerpRotate
            | BuiltinFunction::MathDieRoll
            | BuiltinFunction::MathDieRollInteger
            | BuiltinFunction::MathEaseInQuad
            | BuiltinFunction::MathEaseOutQuad
            | BuiltinFunction::MathEaseInOutQuad
            | BuiltinFunction::MathEaseInCubic
            | BuiltinFunction::MathEaseOutCubic
            | BuiltinFunction::MathEaseInOutCubic
            | BuiltinFunction::MathEaseInQuart
            | BuiltinFunction::MathEaseOutQuart
            | BuiltinFunction::MathEaseInOutQuart
            | BuiltinFunction::MathEaseInQuint
            | BuiltinFunction::MathEaseOutQuint
            | BuiltinFunction::MathEaseInOutQuint
            | BuiltinFunction::MathEaseInSine
            | BuiltinFunction::MathEaseOutSine
            | BuiltinFunction::MathEaseInOutSine
            | BuiltinFunction::MathEaseInExpo
            | BuiltinFunction::MathEaseOutExpo
            | BuiltinFunction::MathEaseInOutExpo
            | BuiltinFunction::MathEaseInCirc
            | BuiltinFunction::MathEaseOutCirc
            | BuiltinFunction::MathEaseInOutCirc
            | BuiltinFunction::MathEaseInBack
            | BuiltinFunction::MathEaseOutBack
            | BuiltinFunction::MathEaseInOutBack
            | BuiltinFunction::MathEaseInElastic
            | BuiltinFunction::MathEaseOutElastic
            | BuiltinFunction::MathEaseInOutElastic
            | BuiltinFunction::MathEaseInBounce
            | BuiltinFunction::MathEaseOutBounce
            | BuiltinFunction::MathEaseInOutBounce => 3,
        }
    }

    pub fn symbol_name(self) -> (r: &'static str)
        ensures
            r@ == builtin_symbol(self),
    {
        match self {
            BuiltinFunction::MathCos => "builtin_math_cos",
            BuiltinFunction::MathSin => "builtin_math_sin",
            BuiltinFunction::MathAbs => "builtin_math_abs",
            BuiltinFunction::MathRandom => "builtin_math_random",
            BuiltinFunction::MathRandomInteger => "builtin_math_random_integer",
            BuiltinFunction::MathClamp => "builtin_math_clamp",
            BuiltinFunction::MathSqrt => "builtin_math_sqrt",
            BuiltinFunction::MathFloor => "builtin_math_floor",
            BuiltinFunction::MathCeil => "builtin_math_ceil",
            BuiltinFunction::MathRound => "builtin_math_round",
            BuiltinFunction::MathTrunc => "builtin_math_trunc",
            BuiltinFunction::MathAcos => "builtin_math_acos",
            BuiltinFunction::MathAsin => "builtin_math_asin",
            BuiltinFunction::MathAtan => "builtin_math_atan",
            BuiltinFunction::MathAtan2 => "builtin_math_atan2",
            BuiltinFunction::MathExp => "builtin_math_exp",
            BuiltinFunction::MathLn => "builtin_math_ln",
            BuiltinFunction::MathPow => "builtin_math_pow",
            BuiltinFunction::MathMax => "builtin_math_max",
            BuiltinFunction::MathMin => "builtin_math_min",
            BuiltinFunction::MathMod => "builtin_math_mod",
            BuiltinFunction::MathSign => "builtin_math_sign",
            BuiltinFunction::MathCopySign => "builtin_math_copy_sign",
            BuiltinFunction::MathPi => "builtin_math_pi",
            BuiltinFunction::MathMinAngle => "builtin_math_min_angle",
            BuiltinFunction::MathLerp => "builtin_math_lerp",
            BuiltinFunction::MathInverseLerp => "builtin_math_inverse_lerp",
            BuiltinFunction::MathLerpRotate => "builtin_math_lerprotate",
            BuiltinFunction::MathHermiteBlend => "builtin_math_hermite_blend",
            BuiltinFunction::MathDieRoll => "builtin_math_die_roll",
            BuiltinFunction::MathDieRollInteger => "builtin_math_die_roll_integer",
            BuiltinFunction::MathEaseInQuad => "builtin_math_ease_in_quad",
            BuiltinFunction::MathEaseOutQuad => "builtin_math_ease_out_quad",
            BuiltinFunction::MathEaseInOutQuad => "builtin_math_ease_in_out_quad",
            BuiltinFunction::MathEaseInCubic => "builtin_math_ease_in_cubic",
            BuiltinFunction::MathEaseOutCubic => "builtin_math_ease_out_cubic",
            BuiltinFunction::MathEaseInOutCubic => "builtin_math_ease_in_out_cubic",
            BuiltinFunction::MathEaseInQuart => "builtin_math_ease_in_quart",
            BuiltinFunction::MathEaseOutQuart => "builtin_math_ease_out_quart",
            BuiltinFunction::MathEaseInOutQuart => "builtin_math_ease_in_out_quart",
            BuiltinFunction::MathEaseInQuint => "builtin_math_ease_in_quint",
            BuiltinFunction::MathEaseOutQuint => "builtin_math_ease_out_quint",
            BuiltinFunction::MathEaseInOutQuint => "builtin_math_ease_in_out_quint",
            BuiltinFunction::MathEaseInSine => "builtin_math_ease_in_sine",
            BuiltinFunction::MathEaseOutSine => "builtin_math_ease_out_sine",
            BuiltinFunction::MathEaseInOutSine => "builtin_math_ease_in_out_sine",
            BuiltinFunction::MathEaseInExpo => "builtin_math_ease_in_expo",
            BuiltinFunction::MathEaseOutExpo => "builtin_math_ease_out_expo",
            BuiltinFunction::MathEaseInOutExpo => "builtin_math_ease_in_out_expo",
            BuiltinFunction::MathEaseInCirc => "builtin_math_ease_in_circ",
            BuiltinFunction::MathEaseOutCirc => "builtin_math_ease_out_circ",
            BuiltinFunction::MathEaseInOutCirc => "builtin_math_ease_in_out_circ",
            BuiltinFunction::MathEaseInBack => "builtin_math_ease_in_back",
            BuiltinFunction::MathEaseOutBack => "builtin_math_ease_out_back",
            BuiltinFunction::MathEaseInOutBack => "builtin_math_ease_in_out_back",
            BuiltinFunction::MathEaseInElastic => "builtin_math_ease_in_elastic",
            BuiltinFunction::MathEaseOutElastic => "builtin_math_ease_out_elastic",
            BuiltinFunction::MathEaseInOutElastic => "builtin_math_ease_in_out_elastic",
            BuiltinFunction::MathEaseInBounce => "builtin_math_ease_in_bounce",
            BuiltinFunction::MathEaseOutBounce => "builtin_math_ease_out_bounce",
            BuiltinFunction::MathEaseInOutBounce => "builtin_math_ease_in_out_bounce",
        }
    }
}

/// The first of two failures.
pub open spec fn first_of(a: Option<LowerFailure>, b: Option<LowerFailure>) -> Option<LowerFailure> {
    if a is Some {
        a
    } else {
        b
    }
}

/// Why a call of `target` with `count` arguments is refused, if it is.
pub open spec fn call_failure(target: Expr, count: usize) -> Option<LowerFailure> {
    match target {
        Expr::Path(parts) => match builtin_from_path(texts(parts@)) {
            Some(builtin) => if builtin_arity(builtin) != count {
                Some(
                    LowerFailure::InvalidArgumentCount {
                        name: builtin_symbol(builtin),
                        expected: builtin_arity(builtin) as usize,
                        actual: count,
                    },
                )
            } else {
                None
            },
            None => Some(LowerFailure::UnknownFunction { name: join_dots(texts(parts@)) }),
        },
        _ => Some(LowerFailure::UnsupportedCallTarget),
    }
}

/// The failure that lowering an expression meets first, going through the
/// tree left to right, the arguments of a call before its target.
pub open spec fn lower_failure(e: Expr) -> Option<LowerFailure>
    decreases e, 0nat,
{
    match e {
        Expr::Number(_) | Expr::Path(_) | Expr::String(_) | Expr::Flow(_) => None,
        Expr::Array(items) => list_failure(items, items.len() as nat),
        Expr::Struct(fields) => fields_failure(fields, fields.len() as nat),
        Expr::Unary { expr, .. } => lower_failure(*expr),
        Expr::Binary { left, right, .. } => first_of(lower_failure(*left), lower_failure(*right)),
        Expr::Conditional { condition, then_branch, else_branch } => first_of(
            lower_failure(*condition),
            first_of(
                lower_failure(*then_branch),
                match else_branch {
                    Some(branch) => lower_failure(*branch),
                    None => None,
                },
            ),
        ),
        Expr::Call { target, args } => first_of(
            list_failure(args, args.len() as nat),
            call_failure(*target, args.len()),
        ),
        Expr::Index { target, index } => first_of(lower_failure(*target), lower_failure(*index)),
    }
}

/// The first failure among the first `n` expressions.
pub open spec fn list_failure(items: Vec<Expr>, n: nat) -> Option<LowerFailure>
    decreases items, n,
{
    if n == 0 || n > items.len() {
        None
    } else {
        first_of(list_failure(items, (n - 1) as nat), lower_failure(items[n - 1]))
    }
}

/// The first failure among the first `n` fields.
pub open spec fn fields_failure(fields: Vec<ExprField>, n: nat) -> Option<LowerFailure>
    decreases fields, n,
{
    if n == 0 || n > fields.len() {
        None
    } else {
        first_of(fields_failure(fields, (n - 1) as nat), lower_failure(fields[n - 1].value))
    }
}

/// Whether `ir` is the lowering of `e`: the same tree, every call target
/// replaced by the builtin that its path names.
pub open spec fn lowers_to(e: Expr, ir: IrExpr) -> bool
    decreases e,
{
    match e {
        Expr::Number(text) => ir matches IrExpr::Constant(out) && out@ == text@,
        Expr::Path(parts) => ir matches IrExpr::Path(out) && texts(out@) == texts(parts@),
        Expr::String(text) => ir matches IrExpr::String(out) && out@ == text@,
        Expr::Array(items) => ir matches IrExpr::Array(out) && out.len() == items.len() && forall|i: int|
            0 <= i < items.len() ==> lowers_to(#[trigger] items[i], out[i]),
        Expr::Struct(fields) => ir matches IrExpr::Struct(out) && out.len() == fields.len() && forall|i: int|
            0 <= i < fields.len() ==> out[i].name@ == (#[trigger] fields[i]).name@ && lowers_to(
                fields[i].value,
                out[i].value,
            ),
        Expr::Unary { op, expr } => ir matches IrExpr::Unary { op: out_op, expr: out } && out_op == op
            && lowers_to(*expr, *out),
        Expr::Binary { op, left, right } => ir matches IrExpr::Binary {
            op: out_op,
            left: out_left,
            right: out_right,
        } && out_op == op && lowers_to(*left, *out_left) && lowers_to(*right, *out_right),
        Expr::Conditional { condition, then_branch, else_branch } => ir matches IrExpr::Conditional {
            condition: out_condition,
            then_branch: out_then,
            else_branch: out_else,
        } && lowers_to(*condition, *out_condition) && lowers_to(*then_branch, *out_then) && match else_branch {
            Some(branch) => out_else matches Some(out) && lowers_to(*branch, *out),
            None => out_else is None,
        },
        Expr::Call { target, args } => ir matches IrExpr::Call { function, args: out } && (
        *target matches Expr::Path(parts) && builtin_from_path(texts(parts@)) == Some(function->Builtin_0))
            && out.len() == args.len() && forall|i: int|
            0 <= i < args.len() ==> lowers_to(#[trigger] args[i], out[i]),
        Expr::Index { target, index } => ir matches IrExpr::Index { target: out_target, index: out_index }
            && lowers_to(*target, *out_target) && lowers_to(*index, *out_index),
        Expr::Flow(flow) => ir matches IrExpr::Flow(out) && out == flow,
    }
}

/// Whether every call in the expression passes as many arguments as its
/// function takes.
pub open spec fn checked(e: IrExpr) -> bool
    decreases e,
{
    match e {
        IrExpr::Constant(_) | IrExpr::Path(_) | IrExpr::String(_) | IrExpr::Flow(_) => true,
        IrExpr::Array(items) => forall|i: int| 0 <= i < items.len() ==> checked(#[trigger] items[i]),
        IrExpr::Struct(fields) => forall|i: int|
            0 <= i < fields.len() ==> checked((#[trigger] fields[i]).value),
        IrExpr::Unary { expr, .. } => checked(*expr),
        IrExpr::Binary { left, right, .. } => checked(*left) && checked(*right),
        IrExpr::Conditional { condition, then_branch, else_branch } => checked(*condition) && checked(
            *then_branch,
        ) && match else_branch {
            Some(branch) => checked(*branch),
            None => true,
        },
        IrExpr::Call { function, args } => builtin_arity(function->Builtin_0) == args.len() && forall|i: int|
            0 <= i < args.len() ==> checked(#[trigger] args[i]),
        IrExpr::Index { target, index } => checked(*target) && checked(*index),
    }
}

/// The same for every expression of a statement.
pub open spec fn checked_statement(s: IrStatement) -> bool
    decreases s,
{
    match s {
        IrStatement::Assign { value, .. } => checked(value),
        IrStatement::Block(list) => forall|i: int|
            0 <= i < list.len() ==> checked_statement(#[trigger] list[i]),
        IrStatement::Loop { count, body } => checked(count) && checked_statement(*body),
        IrStatement::ForEach { collection, body, .. } => checked(collection) && checked_statement(*body),
        IrStatement::Return(value) => match value {
            Some(e) => checked(e),
            None => true,
        },
        IrStatement::Expr(e) => checked(e),
    }
}

/// The same for every statement of a program.
pub open spec fn checked_program(program: IrProgram) -> bool {
    forall|i: int| 0 <= i < program.statements.len() ==> checked_statement(#[trigger] program.statements[i])
}

/// The failure that lowering a statement meets first.
pub open spec fn statement_failure(s: Statement) -> Option<LowerFailure>
    decreases s, 0nat,
{
    match s {
        Statement::Expr(e) => lower_failure(e),
        Statement::Assignment { value, .. } => lower_failure(value),
        Statement::Block(list) => statements_failure(list, list.len() as nat),
        Statement::Loop { count, body } => first_of(lower_failure(count), statement_failure(*body)),
        Statement::ForEach { collection, body, .. } => first_of(
            lower_failure(collection),
            statement_failure(*body),
        ),
        Statement::Return(value) => match value {
            Some(e) => lower_failure(e),
            None => None,
        },
    }
}

/// The first failure among the first `n` statements.
pub open spec fn statements_failure(list: Vec<Statement>, n: nat) -> Option<LowerFailure>
    decreases list, n,
{
    if n == 0 || n > list.len() {
        None
    } else {
        first_of(statements_failure(list, (n - 1) as nat), statement_failure(list[n - 1]))
    }
}

/// Whether `ir` is the lowering of the statement `s`, one for one.
pub open spec fn statement_lowers_to(s: Statement, ir: IrStatement) -> bool
    decreases s,
{
    match s {
        Statement::Expr(e) => ir matches IrStatement::Expr(out) && lowers_to(e, out),
        Statement::Assignment { target, value } => ir matches IrStatement::Assign {
            target: out_target,
            value: out,
        } && texts(out_target@) == texts(target@) && lowers_to(value, out),
        Statement::Block(list) => ir matches IrStatement::Block(out) && out.len() == list.len()
            && forall|i: int| 0 <= i < list.len() ==> statement_lowers_to(#[trigger] list[i], out[i]),
        Statement::Loop { count, body } => ir matches IrStatement::Loop { count: out_count, body: out_body }
            && lowers_to(count, out_count) && statement_lowers_to(*body, *out_body),
        Statement::ForEach { variable, collection, body } => ir matches IrStatement::ForEach {
            variable: out_variable,
            collection: out_collection,
            body: out_body,
        } && texts(out_variable@) == texts(variable@) && lowers_to(collection, out_collection)
            && statement_lowers_to(*body, *out_body),
        Statement::Return(value) => ir matches IrStatement::Return(out) && match value {
            Some(e) => out matches Some(lowered) && lowers_to(e, lowered),
            None => out is None,
        },
    }
}

/// Whether `ir` is the lowering of the whole program.
pub open spec fn program_lowers_to(program: Program, ir: IrProgram) -> bool {
    ir.statements.len() == program.statements.len() && forall|i: int|
        0 <= i < program.statements.len() ==> statement_lowers_to(
            #[trigger] program.statements[i],
            ir.statements[i],
        )
}

pub proof fn lemma_list_failure_stops(items: Vec<Expr>, i: nat, n: nat)
    requires
        i < n <= items.len(),
        list_failure(items, i) is None,
        lower_failure(items[i as int]) is Some,
    ensures
        list_failure(items, n) == lower_failure(items[i as int]),
    decreases n,
{
    if n > i + 1 {
        lemma_list_failure_stops(items, i, (n - 1) as nat);
    }
}

pub proof fn lemma_fields_failure_stops(fields: Vec<ExprField>, i: nat, n: nat)
    requires
        i < n <= fields.len(),
        fields_failure(fields, i) is None,
        lower_failure(fields[i as int].value) is Some,
    ensures
        fields_failure(fields, n) == lower_failure(fields[i as int].value),
    decreases n,
{
    if n > i + 1 {
        lemma_fields_failure_stops(fields, i, (n - 1) as nat);
    }
}

pub proof fn lemma_statements_failure_stops(list: Vec<Statement>, i: nat, n: nat)
    requires
        i < n <= list.len(),
        statements_failure(list, i) is None,
        statement_failure(list[i as int]) is Some,
    ensures
        statements_failure(list, n) == statement_failure(list[i as int]),
    decreases n,
{
    if n > i + 1 {
        lemma_statements_failure_stops(list, i, (n - 1) as nat);
    }
}

/// `Debug` formatting of an expression, for the description of an error.
#[verifier::external_body]
fn describe(target: &Expr) -> String {
    format!("{target:?}")
}

/// A copy of a list of path segments.
pub fn copy_texts(parts: &Vec<String>) -> (r: Vec<String>)
    ensures
        texts(r@) == texts(parts@),
{
    let mut out: Vec<String> = Vec::new();
    let mut i: usize = 0;
    while i < parts.len()
        invariant
            i <= parts.len(),
            out.len() == i,
            forall|k: int| 0 <= k < i ==> (#[trigger] out@[k])@ == parts@[k]@,
        decreases parts.len() - i,
    {
        out.push(parts[i].clone());
        i += 1;
    }
    assert(texts(out@) =~= texts(parts@));
    out
}

#[derive(Default)]
pub struct IrBuilder;

impl IrBuilder {
    /// Lowers a full program into statement-level IR.
    pub fn lower_program(&self, program: &Program) -> (r: Result<IrProgram, LowerError>)
        ensures
            match r {
                Ok(ir) => statements_failure(program.statements, program.statements.len() as nat) is None
                    && program_lowers_to(*program, ir),
                Err(e) => statements_failure(program.statements, program.statements.len() as nat) == Some(
                    e@,
                ),
            },
            r matches Ok(ir) ==> checked_program(ir),
    {
        let mut statements: Vec<IrStatement> = Vec::new();
        let mut i: usize = 0;
        while i < program.statements.len()
            invariant
                i <= program.statements.len(),
                statements.len() == i,
                forall|k: int| 0 <= k < i ==> checked_statement(#[trigger] statements[k]),
                statements_failure(program.statements, i as nat) is None,
                forall|k: int|
                    0 <= k < i ==> statement_lowers_to(#[trigger] program.statements[k], statements[k]),
            decreases program.statements.len() - i,
        {
            match self.lower_statement(&program.statements[i]) {
                Ok(lowered) => statements.push(lowered),
                Err(e) => {
                    proof {
                        lemma_statements_failure_stops(
                            program.statements,
                            i as nat,
                            program.statements.len() as nat,
                        );
                    }
                    return Err(e);
                },
            }
            i += 1;
        }
        Ok(IrProgram { statements })
    }

    #[verifier::loop_isolation(false)]
    fn lower_statement(&self, statement: &Statement) -> (r: Result<IrStatement, LowerError>)
        ensures
            match r {
                Ok(ir) => statement_failure(*statement) is None && statement_lowers_to(*statement, ir),
                Err(e) => statement_failure(*statement) == Some(e@),
            },
            r matches Ok(ir) ==> checked_statement(ir),
        decreases statement,
    {
        match statement {
            Statement::Expr(expr) => {
                let lowered = self.lower_expr(expr)?;
                Ok(IrStatement::Expr(lowered))
            },
            Statement::Assignment { target, value } => {
                let lowered = self.lower_expr(value)?;
                Ok(IrStatement::Assign { target: copy_texts(target), value: lowered })
            },
            Statement::Block(list) => {
                let mut out: Vec<IrStatement> = Vec::new();
                let mut i: usize = 0;
                while i < list.len()
                    invariant
                        i <= list.len(),
                        out.len() == i,
                        forall|k: int| 0 <= k < i ==> checked_statement(#[trigger] out[k]),
                        statements_failure(*list, i as nat) is None,
                        forall|k: int| 0 <= k < i ==> statement_lowers_to(#[trigger] list[k], out[k]),
                    decreases list.len() - i,
                {
                    match self.lower_statement(&list[i]) {
                        Ok(lowered) => out.push(lowered),
                        Err(e) => {
                            proof {
                                lemma_statements_failure_stops(*list, i as nat, list.len() as nat);
                            }
                            return Err(e);
                        },
                    }
                    i += 1;
                }
                Ok(IrStatement::Block(out))
            },
            Statement::Loop { count, body } => {
                let lowered_count = self.lower_expr(count)?;
                let lowered_body = self.lower_statement(body)?;
                Ok(IrStatement::Loop { count: lowered_count, body: Box::new(lowered_body) })
            },
            Statement::ForEach { variable, collection, body } => {
                let lowered_collection = self.lower_expr(collection)?;
                let lowered_body = self.lower_statement(body)?;
                Ok(
                    IrStatement::ForEach {
                        variable: copy_texts(variable),
                        collection: lowered_collection,
                        body: Box::new(lowered_body),
                    },
                )
            },
            Statement::Return(expr) => match expr {
                Some(expr) => {
                    let lowered = self.lower_expr(expr)?;
                    Ok(IrStatement::Return(Some(lowered)))
                },
                None => Ok(IrStatement::Return(None)),
            },
        }
    }

    /// Lowers one expression.
    pub fn lower(&self, expr: &Expr) -> (r: Result<IrExpr, LowerError>)
        ensures
            match r {
                Ok(ir) => lower_failure(*expr) is None && lowers_to(*expr, ir),
                Err(e) => lower_failure(*expr) == Some(e@),
            },
            r matches Ok(ir) ==> checked(ir),
    {
        self.lower_expr(expr)
    }

    #[verifier::loop_isolation(false)]
    fn lower_list(&self, items: &Vec<Expr>) -> (r: Result<Vec<IrExpr>, LowerError>)
        ensures
            match r {
                Ok(out) => list_failure(*items, items.len() as nat) is None && out.len() == items.len()
                    && forall|i: int| 0 <= i < items.len() ==> lowers_to(#[trigger] items[i], out[i]),
                Err(e) => list_failure(*items, items.len() as nat) == Some(e@),
            },
            r matches Ok(out) ==> forall|i: int| 0 <= i < out.len() ==> checked(#[trigger] out[i]),
        decreases items,
    {
        let mut out: Vec<IrExpr> = Vec::new();
        let mut i: usize = 0;
        while i < items.len()
            invariant
                i <= items.len(),
                out.len() == i,
                forall|k: int| 0 <= k < i ==> checked(#[trigger] out[k]),
                list_failure(*items, i as nat) is None,
                forall|k: int| 0 <= k < i ==> lowers_to(#[trigger] items[k], out[k]),
            decreases items.len() - i,
        {
            match self.lower_expr(&items[i]) {
                Ok(lowered) => out.push(lowered),
                Err(e) => {
                    proof {
                        lemma_list_failure_stops(*items, i as nat, items.len() as nat);
                    }
                    return Err(e);
                },
            }
            i += 1;
        }
        Ok(out)
    }

    #[verifier::loop_isolation(false)]
    fn lower_expr(&self, expr: &Expr) -> (r: Result<IrExpr, LowerError>)
        ensures
            match r {
                Ok(ir) => lower_failure(*expr) is None && lowers_to(*expr, ir),
                Err(e) => lower_failure(*expr) == Some(e@),
            },
            r matches Ok(ir) ==> checked(ir),
        decreases expr,
    {
        match expr {
            Expr::Number(value) => Ok(IrExpr::Constant(value.clone())),
            Expr::Path(parts) => Ok(IrExpr::Path(copy_texts(parts))),
            Expr::String(text) => Ok(IrExpr::String(text.clone())),
            Expr::Array(items) => {
                let lowered = self.lower_list(items)?;
                Ok(IrExpr::Array(lowered))
            },
            Expr::Struct(entries) => {
                let mut lowered: Vec<IrField> = Vec::new();
                let mut i: usize = 0;
                while i < entries.len()
                    invariant
                        i <= entries.len(),
                        lowered.len() == i,
                        forall|k: int| 0 <= k < i ==> checked((#[trigger] lowered[k]).value),
                        fields_failure(*entries, i as nat) is None,
                        forall|k: int|
                            0 <= k < i ==> lowered[k].name@ == (#[trigger] entries[k]).name@ && lowers_to(
                                entries[k].value,
                                lowered[k].value,
                            ),
                    decreases entries.len() - i,
                {
                    match self.lower_expr(&entries[i].value) {
                        Ok(value) => lowered.push(IrField { name: entries[i].name.clone(), value }),
                        Err(e) => {
                            proof {
                                lemma_fields_failure_stops(*entries, i as nat, entries.len() as nat);
                            }
                            return Err(e);
                        },
                    }
                    i += 1;
                }
                Ok(IrExpr::Struct(lowered))
            },
            Expr::Unary { op, expr } => {
                let inner = self.lower_expr(expr)?;
                Ok(IrExpr::Unary { op: *op, expr: Box::new(inner) })
            },
            Expr::Binary { op, left, right } => {
                let lowered_left = self.lower_expr(left)?;
                let lowered_right = self.lower_expr(right)?;
                Ok(IrExpr::Binary { op: *op, left: Box::new(lowered_left), right: Box::new(lowered_right) })
            },
            Expr::Conditional { condition, then_branch, else_branch } => {
                let lowered_condition = self.lower_expr(condition)?;
                let lowered_then = self.lower_expr(then_branch)?;
                let lowered_else = match else_branch {
                    Some(branch) => {
                        let lowered = self.lower_expr(branch)?;
                        Some(Box::new(lowered))
                    },
                    None => None,
                };
                Ok(
                    IrExpr::Conditional {
                        condition: Box::new(lowered_condition),
                        then_branch: Box::new(lowered_then),
                        else_branch: lowered_else,
                    },
                )
            },
            Expr::Call { target, args } => {
                let lowered_args = self.lower_list(args)?;
                let function = self.lower_call_target(target)?;
                self.validate_call(&function, lowered_args.len())?;
                Ok(IrExpr::Call { function, args: lowered_args })
            },
            Expr::Flow(flow) => Ok(IrExpr::Flow(*flow)),
            Expr::Index { target, index } => {
                let lowered_target = self.lower_expr(target)?;
                let lowered_index = self.lower_expr(index)?;
                Ok(IrExpr::Index { target: Box::new(lowered_target), index: Box::new(lowered_index) })
            },
        }
    }

    fn lower_call_target(&self, target: &Expr) -> (r: Result<FunctionRef, LowerError>)
        ensures
            match r {
                Ok(function) => *target matches Expr::Path(parts) && builtin_from_path(texts(parts@))
                    == Some(function->Builtin_0),
                Err(e) => match *target {
                    Expr::Path(parts) => builtin_from_path(texts(parts@)) is None && e@
                        == (LowerFailure::UnknownFunction { name: join_dots(texts(parts@)) }),
                    _ => e@ == LowerFailure::UnsupportedCallTarget,
                },
            },
    {
        match target {
            Expr::Path(parts) => {
                match BuiltinFunction::from_path(parts.as_slice()) {
                    Some(builtin) => Ok(FunctionRef::Builtin(builtin)),
                    None => Err(LowerError::UnknownFunction { name: join_texts(parts.as_slice()) }),
                }
            },
            other => Err(LowerError::UnsupportedCallTarget { description: describe(other) }),
        }
    }

    /// Checks the number of arguments against the arity of the function.
    pub fn validate_call(&self, function: &FunctionRef, arg_count: usize) -> (r: Result<(), LowerError>)
        ensures
            match r {
                Ok(_) => builtin_arity(function->Builtin_0) == arg_count,
                Err(e) => builtin_arity(function->Builtin_0) != arg_count && e@
                    == (LowerFailure::InvalidArgumentCount {
                    name: builtin_symbol(function->Builtin_0),
                    expected: builtin_arity(function->Builtin_0) as usize,
                    actual: arg_count,
                }),
            },
    {
        match function {
            FunctionRef::Builtin(builtin) => {
                let expected = builtin.arity();
                if expected != arg_count {
                    Err(
                        LowerError::InvalidArgumentCount {
                            name: builtin.symbol_name().to_owned(),
                            expected,
                            actual: arg_count,
                        },
                    )
                } else {
                    Ok(())
                }
            },
        }
    }
}

} // verus!

//! End-to-end evaluation: a source text is compiled by the library and the
//! compiled function is run here, operation by operation, on real floating
//! point numbers, with the library's runtime bridge behind every call.
use molang::eval::{RuntimeContext, StructFields, Value};
use molang::ir::BuiltinFunction;
use molang::jit::{BridgeValue, Callee, CompiledExpression, FloatCond, FloatOp, Op, RuntimeHelper};
use molang::jit_cache::{cache_size, clear_cache, CompileCache};
use molang::{compile, Compiled, MolangError};
use rand::Rng;
use std::collections::HashMap;

#[derive(Clone, Copy, Debug)]
enum Val {
    Float(f64),
    Int(i64),
    Truth(bool),
    Slot(usize),
    Data(usize),
    Length,
    Nothing,
}

fn float(v: Val) -> f64 {
    match v {
        Val::Float(x) => x,
        other => panic!("expected a number, found {:?}", other),
    }
}

fn call_runtime(helper: RuntimeHelper, args: &[Val], artifact: &CompiledExpression, ctx: &mut RuntimeContext) -> Val {
    let mut names: Vec<String> = Vec::new();
    let mut number = 0u64;
    let mut index = 0i64;
    for arg in args {
        match *arg {
            Val::Slot(slot) => names.push(artifact.slots()[slot].clone()),
            Val::Data(data) => names.push(artifact.data()[data].clone()),
            Val::Float(x) => number = x.to_bits(),
            Val::Int(i) => index = i,
            Val::Length => {}
            other => panic!("unexpected argument {:?}", other),
        }
    }
    assert_eq!(args.len(), helper.arguments().len());
    let first = names.first().cloned().unwrap_or_default();
    let second = names.get(1).cloned().unwrap_or_default();
    match helper.invoke(ctx, &first, &second, number, index) {
        BridgeValue::Nothing => Val::Nothing,
        BridgeValue::Number(bits) => Val::Float(f64::from_bits(bits)),
        BridgeValue::Count(count) => Val::Int(count),
    }
}

/// Runs a compiled function; also counts the calls of math functions.
fn run_counting(artifact: &CompiledExpression, ctx: &mut RuntimeContext) -> (f64, usize) {
    let ops = artifact.ops();
    let mut bodies: HashMap<usize, Vec<usize>> = HashMap::new();
    let mut params: HashMap<usize, usize> = HashMap::new();
    let mut current = 0usize;
    for (i, op) in ops.iter().enumerate() {
        match *op {
            Op::Entry | Op::CreateBlock => {
                bodies.insert(i, Vec::new());
                if matches!(*op, Op::Entry) {
                    current = i;
                }
            }
            Op::BlockParam { block } => {
                params.insert(block, i);
            }
            Op::SwitchTo { block } => current = block,
            Op::Seal { .. } | Op::DeclareVar => {}
            _ => bodies.get_mut(&current).expect("a current block").push(i),
        }
    }
    let mut values: HashMap<usize, Val> = HashMap::new();
    let mut vars: HashMap<usize, f64> = HashMap::new();
    let mut args: Vec<Val> = Vec::new();
    let mut math_calls = 0usize;
    let mut block = 0usize;
    let mut steps = 0usize;
    loop {
        let mut next: Option<usize> = None;
        for &i in &bodies[&block] {
            steps += 1;
            assert!(steps < 10_000_000, "the function does not end");
            let value = |id: usize| -> Val { *values.get(&id).expect("a defined value") };
            match ops[i] {
                Op::DefVar { var, value: v } => {
                    vars.insert(var, float(value(v)));
                }
                Op::UseVar { var } => {
                    values.insert(i, Val::Float(vars[&var]));
                }
                Op::Number { bits } => {
                    values.insert(i, Val::Float(f64::from_bits(bits)));
                }
                Op::Literal { literal } => {
                    let parsed: f64 = artifact.literals()[literal].parse().expect("a decimal literal");
                    values.insert(i, Val::Float(parsed));
                }
                Op::SlotPointer { slot } => {
                    values.insert(i, Val::Slot(slot));
                }
                Op::SlotLength { .. } | Op::DataSize { .. } => {
                    values.insert(i, Val::Length);
                }
                Op::DataAddress { data } => {
                    values.insert(i, Val::Data(data));
                }
                Op::Neg { value: v } => {
                    values.insert(i, Val::Float(-float(value(v))));
                }
                Op::Binary { op, left, right } => {
                    let (l, r) = (float(value(left)), float(value(right)));
                    let result = match op {
                        FloatOp::Add => l + r,
                        FloatOp::Sub => l - r,
                        FloatOp::Mul => l * r,
                        FloatOp::Div => l / r,
                        FloatOp::Min => {
                            if l.is_nan() || r.is_nan() {
                                f64::NAN
                            } else {
                                l.min(r)
                            }
                        }
                    };
                    values.insert(i, Val::Float(result));
                }
                Op::Compare { cond, left, right } => {
                    let (l, r) = (float(value(left)), float(value(right)));
                    let truth = match cond {
                        FloatCond::Equal => l == r,
                        FloatCond::NotEqual => l != r,
                        FloatCond::LessThan => l < r,
                        FloatCond::LessThanOrEqual => l <= r,
                        FloatCond::GreaterThan => l > r,
                        FloatCond::GreaterThanOrEqual => l >= r,
                    };
                    values.insert(i, Val::Truth(truth));
                }
                Op::BoolToFloat { value: v } => {
                    let truth = matches!(value(v), Val::Truth(true));
                    values.insert(i, Val::Float(if truth { 1.0 } else { 0.0 }));
                }
                Op::IntToFloat { value: v } => match value(v) {
                    Val::Int(n) => {
                        values.insert(i, Val::Float(n as f64));
                    }
                    other => panic!("expected an integer, found {:?}", other),
                },
                Op::FloatToInt { value: v } => {
                    values.insert(i, Val::Int(float(value(v)) as i64));
                }
                Op::Arg { value: v } => args.push(value(v)),
                Op::Call { callee } => {
                    let result = match callee {
                        Callee::Runtime(helper) => call_runtime(helper, &args, artifact, ctx),
                        Callee::Builtin(function) => {
                            math_calls += 1;
                            assert_eq!(args.len(), function.arity());
                            let numbers: Vec<f64> = args.iter().map(|v| float(*v)).collect();
                            Val::Float(call_builtin(function, &numbers))
                        }
                    };
                    args.clear();
                    values.insert(i, result);
                }
                Op::Jump { target } => {
                    next = Some(target);
                    break;
                }
                Op::JumpWith { target, argument } => {
                    let passed = value(argument);
                    values.insert(params[&target], passed);
                    next = Some(target);
                    break;
                }
                Op::Branch { condition, then_block, else_block } => {
                    next = Some(if matches!(value(condition), Val::Truth(true)) { then_block } else { else_block });
                    break;
                }
                Op::Return { value: v } => return (float(value(v)), math_calls),
                other => panic!("{:?} is no instruction", other),
            }
        }
        block = next.expect("a block ends with a jump or a return");
    }
}

fn run(artifact: &CompiledExpression, ctx: &mut RuntimeContext) -> f64 {
    run_counting(artifact, ctx).0
}

fn evaluate_with(input: &str, ctx: &mut RuntimeContext, cache: &mut CompileCache) -> Result<f64, MolangError> {
    match compile(input, cache)? {
        Compiled::Cached(handle) => {
            let artifact = cache.get(handle).expect("a cached artifact").clone();
            Ok(run(&artifact, ctx))
        }
        Compiled::Program(artifact) => Ok(run(&artifact, ctx)),
    }
}

fn evaluate_expression(input: &str, ctx: &mut RuntimeContext) -> Result<f64, MolangError> {
    let mut cache = CompileCache::new();
    evaluate_with(input, ctx, &mut cache)
}

fn eval(script: &str) -> f64 {
    let mut ctx = RuntimeContext::default();
    evaluate_expression(script, &mut ctx).expect("script evaluation to succeed")
}

fn call_builtin(function: BuiltinFunction, a: &[f64]) -> f64 {
    match function {
        BuiltinFunction::MathCos => builtin_math_cos(a[0]),
        BuiltinFunction::MathSin => builtin_math_sin(a[0]),
        BuiltinFunction::MathAbs => builtin_math_abs(a[0]),
        BuiltinFunction::MathRandom => math_random(a[0], a[1]),
        BuiltinFunction::MathRandomInteger => math_random_integer(a[0], a[1]),
        BuiltinFunction::MathClamp => math_clamp(a[0], a[1], a[2]),
        BuiltinFunction::MathSqrt => builtin_math_sqrt(a[0]),
        BuiltinFunction::MathFloor => builtin_math_floor(a[0]),
        BuiltinFunction::MathCeil => builtin_math_ceil(a[0]),
        BuiltinFunction::MathRound => builtin_math_round(a[0]),
        BuiltinFunction::MathTrunc => builtin_math_trunc(a[0]),
        BuiltinFunction::MathAcos => builtin_math_acos(a[0]),
        BuiltinFunction::MathAsin => builtin_math_asin(a[0]),
        BuiltinFunction::MathAtan => builtin_math_atan(a[0]),
        BuiltinFunction::MathAtan2 => builtin_math_atan2(a[0], a[1]),
        BuiltinFunction::MathExp => builtin_math_exp(a[0]),
        BuiltinFunction::MathLn => builtin_math_ln(a[0]),
        BuiltinFunction::MathPow => builtin_math_pow(a[0], a[1]),
        BuiltinFunction::MathMax => builtin_math_max(a[0], a[1]),
        BuiltinFunction::MathMin => builtin_math_min(a[0], a[1]),
        BuiltinFunction::MathMod => builtin_math_mod(a[0], a[1]),
        BuiltinFunction::MathSign => builtin_math_sign(a[0]),
        BuiltinFunction::MathCopySign => builtin_math_copy_sign(a[0], a[1]),
        BuiltinFunction::MathPi => builtin_math_pi(),
        BuiltinFunction::MathMinAngle => builtin_math_min_angle(a[0]),
        BuiltinFunction::MathLerp => builtin_math_lerp(a[0], a[1], a[2]),
        BuiltinFunction::MathInverseLerp => builtin_math_inverse_lerp(a[0], a[1], a[2]),
        BuiltinFunction::MathLerpRotate => builtin_math_lerprotate(a[0], a[1], a[2]),
        BuiltinFunction::MathHermiteBlend => builtin_math_hermite_blend(a[0]),
        BuiltinFunction::MathDieRoll => builtin_math_die_roll(a[0], a[1], a[2]),
        BuiltinFunction::MathDieRollInteger => builtin_math_die_roll_integer(a[0], a[1], a[2]),
        BuiltinFunction::MathEaseInQuad => builtin_math_ease_in_quad(a[0], a[1], a[2]),
        BuiltinFunction::MathEaseOutQuad => builtin_math_ease_out_quad(a[0], a[1], a[2]),
        BuiltinFunction::MathEaseInOutQuad => builtin_math_ease_in_out_quad(a[0], a[1], a[2]),
        BuiltinFunction::MathEaseInCubic => builtin_math_ease_in_cubic(a[0], a[1], a[2]),
        BuiltinFunction::MathEaseOutCubic => builtin_math_ease_out_cubic(a[0], a[1], a[2]),
        BuiltinFunction::MathEaseInOutCubic => builtin_math_ease_in_out_cubic(a[0], a[1], a[2]),
        BuiltinFunction::MathEaseInQuart => builtin_math_ease_in_quart(a[0], a[1], a[2]),
        BuiltinFunction::MathEaseOutQuart => builtin_math_ease_out_quart(a[0], a[1], a[2]),
        BuiltinFunction::MathEaseInOutQuart => builtin_math_ease_in_out_quart(a[0], a[1], a[2]),
        BuiltinFunction::MathEaseInQuint => builtin_math_ease_in_quint(a[0], a[1], a[2]),
        BuiltinFunction::MathEaseOutQuint => builtin_math_ease_out_quint(a[0], a[1], a[2]),
        BuiltinFunction::MathEaseInOutQuint => builtin_math_ease_in_out_quint(a[0], a[1], a[2]),
        BuiltinFunction::MathEaseInSine => builtin_math_ease_in_sine(a[0], a[1], a[2]),
        BuiltinFunction::MathEaseOutSine => builtin_math_ease_out_sine(a[0], a[1], a[2]),
        BuiltinFunction::MathEaseInOutSine => builtin_math_ease_in_out_sine(a[0], a[1], a[2]),
        BuiltinFunction::MathEaseInExpo => builtin_math_ease_in_expo(a[0], a[1], a[2]),
        BuiltinFunction::MathEaseOutExpo => builtin_math_ease_out_expo(a[0], a[1], a[2]),
        BuiltinFunction::MathEaseInOutExpo => builtin_math_ease_in_out_expo(a[0], a[1], a[2]),
        BuiltinFunction::MathEaseInCirc => builtin_math_ease_in_circ(a[0], a[1], a[2]),
        BuiltinFunction::MathEaseOutCirc => builtin_math_ease_out_circ(a[0], a[1], a[2]),
        BuiltinFunction::MathEaseInOutCirc => builtin_math_ease_in_out_circ(a[0], a[1], a[2]),
        BuiltinFunction::MathEaseInBack => builtin_math_ease_in_back(a[0], a[1], a[2]),
        BuiltinFunction::MathEaseOutBack => builtin_math_ease_out_back(a[0], a[1], a[2]),
        BuiltinFunction::MathEaseInOutBack => builtin_math_ease_in_out_back(a[0], a[1], a[2]),
        BuiltinFunction::MathEaseInElastic => builtin_math_ease_in_elastic(a[0], a[1], a[2]),
        BuiltinFunction::MathEaseOutElastic => builtin_math_ease_out_elastic(a[0], a[1], a[2]),
        BuiltinFunction::MathEaseInOutElastic => builtin_math_ease_in_out_elastic(a[0], a[1], a[2]),
        BuiltinFunction::MathEaseInBounce => builtin_math_ease_in_bounce(a[0], a[1], a[2]),
        BuiltinFunction::MathEaseOutBounce => builtin_math_ease_out_bounce(a[0], a[1], a[2]),
        BuiltinFunction::MathEaseInOutBounce => builtin_math_ease_in_out_bounce(a[0], a[1], a[2]),
    }
}

fn math_random(low: f64, high: f64) -> f64 {
    let (low, high) = normalize_low_high(low, high);
    rand::thread_rng().gen_range(low..=high)
}

fn math_random_integer(low: f64, high: f64) -> f64 {
    let (low, high) = normalize_low_high(low.floor(), high.floor());
    let low = low as i64;
    let high = high as i64;
    rand::thread_rng().gen_range(low..=high) as f64
}

fn math_clamp(value: f64, min: f64, max: f64) -> f64 {
    value.clamp(min, max)
}

fn normalize_low_high(mut low: f64, mut high: f64) -> (f64, f64) {
    if low > high {
        std::mem::swap(&mut low, &mut high);
    }
    (low, high)
}

fn builtin_math_cos(value: f64) -> f64 {
    value.cos()
}

fn builtin_math_sin(value: f64) -> f64 {
    value.sin()
}

fn builtin_math_abs(value: f64) -> f64 {
    value.abs()
}

fn builtin_math_random(low: f64, high: f64) -> f64 {
    math_random(low, high)
}

fn builtin_math_random_integer(low: f64, high: f64) -> f64 {
    math_random_integer(low, high)
}

fn builtin_math_clamp(value: f64, min: f64, max: f64) -> f64 {
    math_clamp(value, min, max)
}

fn builtin_math_sqrt(value: f64) -> f64 {
    value.sqrt()
}

fn builtin_math_floor(value: f64) -> f64 {
    value.floor()
}

fn builtin_math_ceil(value: f64) -> f64 {
    value.ceil()
}

fn builtin_math_round(value: f64) -> f64 {
    value.round()
}

fn builtin_math_trunc(value: f64) -> f64 {
    value.trunc()
}

// Trigonometric functions (all in degrees, Molang convention)
fn builtin_math_acos(value: f64) -> f64 {
    value.acos().to_degrees()
}

fn builtin_math_asin(value: f64) -> f64 {
    value.asin().to_degrees()
}

fn builtin_math_atan(value: f64) -> f64 {
    value.atan().to_degrees()
}

fn builtin_math_atan2(y: f64, x: f64) -> f64 {
    y.atan2(x).to_degrees()
}

// Exponential and logarithmic functions
fn builtin_math_exp(value: f64) -> f64 {
    value.exp()
}

fn builtin_math_ln(value: f64) -> f64 {
    value.ln()
}

fn builtin_math_pow(base: f64, exponent: f64) -> f64 {
    base.powf(exponent)
}

// Basic arithmetic functions
fn builtin_math_max(a: f64, b: f64) -> f64 {
    a.max(b)
}

fn builtin_math_min(a: f64, b: f64) -> f64 {
    a.min(b)
}

fn builtin_math_mod(value: f64, denominator: f64) -> f64 {
    value % denominator
}

fn builtin_math_sign(value: f64) -> f64 {
    if value > 0.0 {
        1.0
    } else {
        -1.0
    }
}

fn builtin_math_copy_sign(a: f64, b: f64) -> f64 {
    a.copysign(b)
}

fn builtin_math_pi() -> f64 {
    std::f64::consts::PI
}

// Angle functions
fn builtin_math_min_angle(value: f64) -> f64 {
    let mut angle = value % 360.0;
    if angle >= 180.0 {
        angle -= 360.0;
    } else if angle < -180.0 {
        angle += 360.0;
    }
    angle
}

// Interpolation functions
fn builtin_math_lerp(start: f64, end: f64, t: f64) -> f64 {
    start + (end - start) * t
}

fn builtin_math_inverse_lerp(start: f64, end: f64, value: f64) -> f64 {
    if (end - start).abs() < f64::EPSILON {
        0.0
    } else {
        (value - start) / (end - start)
    }
}

fn builtin_math_lerprotate(start: f64, end: f64, t: f64) -> f64 {
    let mut diff = (end - start) % 360.0;
    if diff > 180.0 {
        diff -= 360.0;
    } else if diff < -180.0 {
        diff += 360.0;
    }
    start + diff * t
}

fn builtin_math_hermite_blend(t: f64) -> f64 {
    3.0 * t * t - 2.0 * t * t * t
}

// Die roll functions
fn builtin_math_die_roll(num: f64, low: f64, high: f64) -> f64 {
    let count = num.max(0.0) as i32;
    let (low, high) = normalize_low_high(low, high);
    let mut sum = 0.0;
    for _ in 0..count {
        sum += math_random(low, high);
    }
    sum
}

fn builtin_math_die_roll_integer(num: f64, low: f64, high: f64) -> f64 {
    let count = num.max(0.0) as i32;
    let (low, high) = normalize_low_high(low.floor(), high.floor());
    let low = low as i64;
    let high = high as i64;
    let mut sum = 0.0;
    for _ in 0..count {
        sum += rand::thread_rng().gen_range(low..=high) as f64;
    }
    sum
}

// Easing functions - Quadratic
fn builtin_math_ease_in_quad(start: f64, end: f64, t: f64) -> f64 {
    start + (end - start) * t * t
}

fn builtin_math_ease_out_quad(start: f64, end: f64, t: f64) -> f64 {
    start + (end - start) * t * (2.0 - t)
}

fn builtin_math_ease_in_out_quad(start: f64, end: f64, t: f64) -> f64 {
    let factor = if t < 0.5 {
        2.0 * t * t
    } else {
        -1.0 + (4.0 - 2.0 * t) * t
    };
    start + (end - start) * factor
}

// Easing functions - Cubic
fn builtin_math_ease_in_cubic(start: f64, end: f64, t: f64) -> f64 {
    start + (end - start) * t * t * t
}

fn builtin_math_ease_out_cubic(start: f64, end: f64, t: f64) -> f64 {
    let t1 = t - 1.0;
    start + (end - start) * (t1 * t1 * t1 + 1.0)
}

fn builtin_math_ease_in_out_cubic(start: f64, end: f64, t: f64) -> f64 {
    let factor = if t < 0.5 {
        4.0 * t * t * t
    } else {
        let t1 = 2.0 * t - 2.0;
        1.0 + t1 * t1 * t1 / 2.0
    };
    start + (end - start) * factor
}

// Easing functions - Quartic
fn builtin_math_ease_in_quart(start: f64, end: f64, t: f64) -> f64 {
    start + (end - start) * t * t * t * t
}

fn builtin_math_ease_out_quart(start: f64, end: f64, t: f64) -> f64 {
    let t1 = t - 1.0;
    start + (end - start) * (1.0 - t1 * t1 * t1 * t1)
}

fn builtin_math_ease_in_out_quart(start: f64, end: f64, t: f64) -> f64 {
    let factor = if t < 0.5 {
        8.0 * t * t * t * t
    } else {
        let t1 = t - 1.0;
        1.0 - 8.0 * t1 * t1 * t1 * t1
    };
    start + (end - start) * factor
}

// Easing functions - Quintic
fn builtin_math_ease_in_quint(start: f64, end: f64, t: f64) -> f64 {
    start + (end - start) * t * t * t * t * t
}

fn builtin_math_ease_out_quint(start: f64, end: f64, t: f64) -> f64 {
    let t1 = t - 1.0;
    start + (end - start) * (1.0 + t1 * t1 * t1 * t1 * t1)
}

fn builtin_math_ease_in_out_quint(start: f64, end: f64, t: f64) -> f64 {
    let factor = if t < 0.5 {
        16.0 * t * t * t * t * t
    } else {
        let t1 = 2.0 * t - 2.0;
        1.0 + t1 * t1 * t1 * t1 * t1 / 2.0
    };
    start + (end - start) * factor
}

// Easing functions - Sine
fn builtin_math_ease_in_sine(start: f64, end: f64, t: f64) -> f64 {
    let pi = std::f64::consts::PI;
    start + (end - start) * (1.0 - (t * pi / 2.0).cos())
}

fn builtin_math_ease_out_sine(start: f64, end: f64, t: f64) -> f64 {
    let pi = std::f64::consts::PI;
    start + (end - start) * (t * pi / 2.0).sin()
}

fn builtin_math_ease_in_out_sine(start: f64, end: f64, t: f64) -> f64 {
    let pi = std::f64::consts::PI;
    start + (end - start) * (1.0 - (t * pi).cos()) / 2.0
}

// Easing functions - Exponential
fn builtin_math_ease_in_expo(start: f64, end: f64, t: f64) -> f64 {
    let factor = if t == 0.0 { 0.0 } else { (2.0_f64).powf(10.0 * t - 10.0) };
    start + (end - start) * factor
}

fn builtin_math_ease_out_expo(start: f64, end: f64, t: f64) -> f64 {
    let factor = if t == 1.0 { 1.0 } else { 1.0 - (2.0_f64).powf(-10.0 * t) };
    start + (end - start) * factor
}

fn builtin_math_ease_in_out_expo(start: f64, end: f64, t: f64) -> f64 {
    let factor = if t == 0.0 {
        0.0
    } else if t == 1.0 {
        1.0
    } else if t < 0.5 {
        (2.0_f64).powf(20.0 * t - 10.0) / 2.0
    } else {
        (2.0 - (2.0_f64).powf(-20.0 * t + 10.0)) / 2.0
    };
    start + (end - start) * factor
}

// Easing functions - Circular
fn builtin_math_ease_in_circ(start: f64, end: f64, t: f64) -> f64 {
    start + (end - start) * (1.0 - (1.0 - t * t).sqrt())
}

fn builtin_math_ease_out_circ(start: f64, end: f64, t: f64) -> f64 {
    start + (end - start) * ((1.0 - (t - 1.0) * (t - 1.0)).sqrt())
}

fn builtin_math_ease_in_out_circ(start: f64, end: f64, t: f64) -> f64 {
    let factor = if t < 0.5 {
        (1.0 - (1.0 - (2.0 * t) * (2.0 * t)).sqrt()) / 2.0
    } else {
        ((1.0 - (-2.0 * t + 2.0) * (-2.0 * t + 2.0)).sqrt() + 1.0) / 2.0
    };
    start + (end - start) * factor
}

// Easing functions - Back
fn builtin_math_ease_in_back(start: f64, end: f64, t: f64) -> f64 {
    const C1: f64 = 1.70158;
    const C3: f64 = C1 + 1.0;
    start + (end - start) * (C3 * t * t * t - C1 * t * t)
}

fn builtin_math_ease_out_back(start: f64, end: f64, t: f64) -> f64 {
    const C1: f64 = 1.70158;
    const C3: f64 = C1 + 1.0;
    let t1 = t - 1.0;
    start + (end - start) * (1.0 + C3 * t1 * t1 * t1 + C1 * t1 * t1)
}

fn builtin_math_ease_in_out_back(start: f64, end: f64, t: f64) -> f64 {
    const C1: f64 = 1.70158;
    const C2: f64 = C1 * 1.525;
    let factor = if t < 0.5 {
        ((2.0 * t) * (2.0 * t) * ((C2 + 1.0) * 2.0 * t - C2)) / 2.0
    } else {
        let t1 = 2.0 * t - 2.0;
        (t1 * t1 * ((C2 + 1.0) * t1 + C2) + 2.0) / 2.0
    };
    start + (end - start) * factor
}

// Easing functions - Elastic
fn builtin_math_ease_in_elastic(start: f64, end: f64, t: f64) -> f64 {
    const C4: f64 = (2.0 * std::f64::consts::PI) / 3.0;
    let factor = if t == 0.0 {
        0.0
    } else if t == 1.0 {
        1.0
    } else {
        -(2.0_f64).powf(10.0 * t - 10.0) * ((t * 10.0 - 10.75) * C4).sin()
    };
    start + (end - start) * factor
}

fn builtin_math_ease_out_elastic(start: f64, end: f64, t: f64) -> f64 {
    const C4: f64 = (2.0 * std::f64::consts::PI) / 3.0;
    let factor = if t == 0.0 {
        0.0
    } else if t == 1.0 {
        1.0
    } else {
        (2.0_f64).powf(-10.0 * t) * ((t * 10.0 - 0.75) * C4).sin() + 1.0
    };
    start + (end - start) * factor
}

fn builtin_math_ease_in_out_elastic(start: f64, end: f64, t: f64) -> f64 {
    const C5: f64 = (2.0 * std::f64::consts::PI) / 4.5;
    let factor = if t == 0.0 {
        0.0
    } else if t == 1.0 {
        1.0
    } else if t < 0.5 {
        -(2.0_f64).powf(20.0 * t - 10.0) * ((20.0 * t - 11.125) * C5).sin() / 2.0
    } else {
        (2.0_f64).powf(-20.0 * t + 10.0) * ((20.0 * t - 11.125) * C5).sin() / 2.0 + 1.0
    };
    start + (end - start) * factor
}

// Easing functions - Bounce
fn bounce_out(t: f64) -> f64 {
    const N1: f64 = 7.5625;
    const D1: f64 = 2.75;
    if t < 1.0 / D1 {
        N1 * t * t
    } else if t < 2.0 / D1 {
        let t1 = t - 1.5 / D1;
        N1 * t1 * t1 + 0.75
    } else if t < 2.5 / D1 {
        let t1 = t - 2.25 / D1;
        N1 * t1 * t1 + 0.9375
    } else {
        let t1 = t - 2.625 / D1;
        N1 * t1 * t1 + 0.984375
    }
}

fn builtin_math_ease_in_bounce(start: f64, end: f64, t: f64) -> f64 {
    start + (end - start) * (1.0 - bounce_out(1.0 - t))
}

fn builtin_math_ease_out_bounce(start: f64, end: f64, t: f64) -> f64 {
    start + (end - start) * bounce_out(t)
}

fn builtin_math_ease_in_out_bounce(start: f64, end: f64, t: f64) -> f64 {
    let factor = if t < 0.5 {
        (1.0 - bounce_out(1.0 - 2.0 * t)) / 2.0
    } else {
        (1.0 + bounce_out(2.0 * t - 1.0)) / 2.0
    };
    start + (end - start) * factor
}

#[test]
fn evaluates_simple_expression() {
    let mut ctx = RuntimeContext::default();
    let result =
        evaluate_expression("1 + math.cos(37)", &mut ctx).expect("evaluation should succeed");
    assert!((result - (1.0 + 37f64.cos())).abs() < 1e-9);
}

#[test]
fn evaluates_conditionals_and_logical_ops() {
    let mut ctx = RuntimeContext::default();
    let ternary =
        evaluate_expression("(1 < 2) ? 5.0 : 10.0", &mut ctx).expect("ternary should work");
    assert!((ternary - 5.0).abs() < 1e-9);

    let null_coalesce =
        evaluate_expression("0 ?? 3 + 2", &mut ctx).expect("null coalesce should work");
    assert!((null_coalesce - 5.0).abs() < 1e-9);

    let logical = evaluate_expression("!(1 - 1) || (2 > 1) && (3 == 3)", &mut ctx)
        .expect("logical operations should work");
    assert!((logical - 1.0).abs() < 1e-9);
}

#[test]
fn executes_loop_and_breaks() {
    let mut ctx = RuntimeContext::default();
    let script = "
        temp.counter = 0;
        loop(10, {
            temp.counter = temp.counter + 1;
            (temp.counter > 5) ? break;
        });
        return temp.counter;
    ";
    let value = evaluate_expression(script, &mut ctx).expect("loop should execute");
    assert!((value - 6.0).abs() < 1e-9);
}

#[test]
fn for_each_accumulates_values() {
    let mut ctx = RuntimeContext::default();
    let script = "
        temp.values = [1, 2, 3, 4];
        temp.total = 0;
        for_each(temp.item, temp.values, {
            temp.total = temp.total + temp.item;
        });
        return temp.total;
    ";
    let value = evaluate_expression(script, &mut ctx).expect("for_each should execute");
    assert!((value - 10.0).abs() < 1e-9);
}

#[test]
fn jit_compiled_expressions_are_cached() {
    let mut cache = CompileCache::new();
    clear_cache(&mut cache);
    let mut ctx = RuntimeContext::default();
    let expr = "1 + math.cos(0)";
    evaluate_with(expr, &mut ctx, &mut cache).expect("first evaluation");
    assert_eq!(cache_size(&cache), 1);
    evaluate_with(expr, &mut ctx, &mut cache).expect("second evaluation reuses cache");
    assert_eq!(cache_size(&cache), 1);
}

#[test]
fn string_and_array_literals() {
    let value = eval("return ['a', 'b', 'c'];");
    assert!((value - 3.0).abs() < 1e-9);

    let value = eval("return (temp.missing ?? 5);");
    assert!((value - 5.0).abs() < 1e-9);
}

#[test]
fn continue_skips_iteration() {
    let value = eval(
        "
        temp.sum = 0;
        loop(5, {
            temp.index = temp.index ?? 0;
            temp.index = temp.index + 1;
            (temp.index == 3) ? continue;
            temp.sum = temp.sum + temp.index;
        });
        return temp.sum;
        ",
    );
    assert!((value - 12.0).abs() < 1e-9); // skips adding 3
}

#[test]
fn for_each_breaks_early() {
    let value = eval(
        "
        temp.values = [2, 4, 6, 8];
        temp.total = 0;
        for_each(temp.item, temp.values, {
            temp.total = temp.total + temp.item;
            (temp.item >= 6) ? break;
        });
        return temp.total;
        ",
    );
    assert!((value - 12.0).abs() < 1e-9);
}

#[test]
fn math_helpers() {
    let clamp = eval("return math.clamp(-2, 0, 10);");
    assert!((clamp - 0.0).abs() < 1e-9);

    let sqrt = eval("return math.sqrt(9);");
    assert!((sqrt - 3.0).abs() < 1e-9);

    let round =
        eval("return math.round(2.4) + math.ceil(2.1) + math.floor(2.9) + math.trunc(-2.8);");
    assert!((round - 5.0).abs() < 1e-9);
}

#[test]
fn struct_literals_and_nested_assignment() {
    let value = eval(
        "
        temp.location = { x: 1, y: 2 };
        temp.location.z = 3;
        return temp.location.x + temp.location.y + temp.location.z;
        ",
    );
    assert!((value - 6.0).abs() < 1e-9);
}

#[test]
fn query_bindings_work() {
    let mut ctx = RuntimeContext::default()
        .with_query("speed", 2.5f64.to_bits())
        .with_query("height", (-1.5f64).to_bits());
    let jit_value =
        evaluate_expression("return query.speed + math.abs(query.height);", &mut ctx).unwrap();
    assert!((jit_value - 4.0).abs() < 1e-9);

    let mut ctx = RuntimeContext::default().with_query("offset", (-5.0f64).to_bits());
    let interp_value = evaluate_expression(
        "
        temp.base = 10;
        return temp.base + query.offset;
        ",
        &mut ctx,
    )
    .unwrap();
    assert!((interp_value - 5.0).abs() < 1e-9);
}

#[test]
fn query_strings_work() {
    let mut ctx = RuntimeContext::default()
        .with_query_string("name", "player")
        .with_query_string("message", "hello");
    let value = evaluate_expression(
        "
        temp.result = query.name;
        return 1.0;
        ",
        &mut ctx,
    )
    .unwrap();
    assert!((value - 1.0).abs() < 1e-9);

    // Verify string was stored
    let stored = ctx.get_value_canonical("query.name");
    assert!(matches!(stored, Some(Value::String(_))));
}

#[test]
fn query_arrays_work() {
    let array_value = Value::array(vec![
        Value::number(1.0f64.to_bits()),
        Value::number(2.0f64.to_bits()),
        Value::number(3.0f64.to_bits()),
    ]);
    let mut ctx = RuntimeContext::default().with_query_value("items", array_value);

    let value = evaluate_expression("return query.items.length;", &mut ctx).unwrap();
    assert!((value - 3.0).abs() < 1e-9);
}

#[test]
fn query_structs_work() {
    let mut map = StructFields::new();
    map.insert("x".to_string(), Value::number(10.0f64.to_bits()));
    map.insert("y".to_string(), Value::number(20.0f64.to_bits()));
    let struct_value = Value::Struct(map);

    let mut ctx = RuntimeContext::default().with_query_value("position", struct_value);
    let value = evaluate_expression(
        "
        temp.sum = query.position.x + query.position.y;
        return temp.sum;
        ",
        &mut ctx,
    )
    .unwrap();
    assert!((value - 30.0).abs() < 1e-9);
}

#[test]
fn query_mixed_types() {
    let mut ctx = RuntimeContext::default()
        .with_query("speed", 5.0f64.to_bits())
        .with_query_string("mode", "fast")
        .with_query_value(
            "data",
            Value::array(vec![Value::number(1.0f64.to_bits()), Value::number(2.0f64.to_bits())]),
        );

    let value = evaluate_expression(
        "
        temp.result = query.speed + query.data.length;
        return temp.result;
        ",
        &mut ctx,
    )
    .unwrap();
    assert!((value - 7.0).abs() < 1e-9);

    // Verify all types are accessible
    assert!(matches!(ctx.get_value_canonical("query.speed"), Some(Value::Number(_))));
    assert!(matches!(ctx.get_value_canonical("query.mode"), Some(Value::String(_))));
    assert!(matches!(ctx.get_value_canonical("query.data"), Some(Value::Array(_))));
}

#[test]
fn query_mutation_after_creation() {
    let mut ctx = RuntimeContext::default().with_query("value", 10.0f64.to_bits());

    // Initial value
    let result = evaluate_expression("return query.value;", &mut ctx).unwrap();
    assert!((result - 10.0).abs() < 1e-9);

    // Mutate after creation
    ctx.set_query_value("value", 20.0f64.to_bits());
    let result = evaluate_expression("return query.value;", &mut ctx).unwrap();
    assert!((result - 20.0).abs() < 1e-9);

    // Add new query values dynamically
    ctx.set_query_string("type", "dynamic");
    let stored = ctx.get_value_canonical("query.type");
    assert!(matches!(stored, Some(Value::String(_))));
}

#[test]
fn array_indexing_and_length() {
    let value = eval(
        "
        temp.values = [10, 20, 30];
        temp.index = 1;
        temp.sum = temp.values[temp.index] + temp.values[3] + temp.values.length;
        return temp.sum;
        ",
    );
    assert!((value - 33.0).abs() < 1e-9);
}

#[test]
fn trigonometric_functions() {
    // Test acos, asin, atan
    let acos_result = eval("return math.acos(0);");
    assert!((acos_result - 90.0).abs() < 1e-6);

    let asin_result = eval("return math.asin(1);");
    assert!((asin_result - 90.0).abs() < 1e-6);

    let atan_result = eval("return math.atan(1);");
    assert!((atan_result - 45.0).abs() < 1e-6);

    // Test atan2
    let atan2_result = eval("return math.atan2(1, 1);");
    assert!((atan2_result - 45.0).abs() < 1e-6);
}

#[test]
fn exponential_and_logarithmic_functions() {
    // Test exp
    let exp_result = eval("return math.exp(0);");
    assert!((exp_result - 1.0).abs() < 1e-9);

    // Test ln
    let ln_result = eval("return math.ln(2.718281828459045);");
    assert!((ln_result - 1.0).abs() < 1e-6);

    // Test pow
    let pow_result = eval("return math.pow(2, 3);");
    assert!((pow_result - 8.0).abs() < 1e-9);
}

#[test]
fn basic_arithmetic_functions() {
    // Test max and min
    let max_result = eval("return math.max(5, 10);");
    assert!((max_result - 10.0).abs() < 1e-9);

    let min_result = eval("return math.min(5, 10);");
    assert!((min_result - 5.0).abs() < 1e-9);

    // Test mod
    let mod_result = eval("return math.mod(10, 3);");
    assert!((mod_result - 1.0).abs() < 1e-9);

    // Test sign
    let sign_pos = eval("return math.sign(5);");
    assert!((sign_pos - 1.0).abs() < 1e-9);

    let sign_neg = eval("return math.sign(-5);");
    assert!((sign_neg - (-1.0)).abs() < 1e-9);

    // Test copy_sign
    let copy_sign_result = eval("return math.copy_sign(10, -1);");
    assert!((copy_sign_result - (-10.0)).abs() < 1e-9);

    // Test pi
    let pi_result = eval("return math.pi();");
    assert!((pi_result - std::f64::consts::PI).abs() < 1e-9);
}

#[test]
fn angle_functions() {
    // Test min_angle
    let angle1 = eval("return math.min_angle(190);");
    assert!((angle1 - (-170.0)).abs() < 1e-9);

    let angle2 = eval("return math.min_angle(-200);");
    assert!((angle2 - 160.0).abs() < 1e-9);

    let angle3 = eval("return math.min_angle(45);");
    assert!((angle3 - 45.0).abs() < 1e-9);
}

#[test]
fn interpolation_functions() {
    // Test lerp
    let lerp_result = eval("return math.lerp(0, 10, 0.5);");
    assert!((lerp_result - 5.0).abs() < 1e-9);

    // Test inverse_lerp
    let inverse_lerp_result = eval("return math.inverse_lerp(0, 10, 5);");
    assert!((inverse_lerp_result - 0.5).abs() < 1e-9);

    // Test lerprotate
    let lerprotate_result = eval("return math.lerprotate(10, 350, 0.5);");
    assert!((lerprotate_result - 0.0).abs() < 1e-6);

    // Test hermite_blend
    let hermite_result = eval("return math.hermite_blend(0.5);");
    assert!((hermite_result - 0.5).abs() < 1e-9);
}

#[test]
fn die_roll_functions() {
    // Test that die_roll returns a value in the expected range
    let die_roll_result = eval("return math.die_roll(3, 1, 6);");
    assert!(die_roll_result >= 3.0 && die_roll_result <= 18.0);

    // Test that die_roll_integer returns an integer value
    let die_roll_int_result = eval("return math.die_roll_integer(2, 1, 6);");
    assert!(die_roll_int_result >= 2.0 && die_roll_int_result <= 12.0);
    assert!((die_roll_int_result - die_roll_int_result.floor()).abs() < 1e-9);
}

#[test]
fn easing_functions_quad() {
    // Test quadratic easing
    let ease_in = eval("return math.ease_in_quad(0, 10, 0.5);");
    assert!((ease_in - 2.5).abs() < 1e-9);

    let ease_out = eval("return math.ease_out_quad(0, 10, 0.5);");
    assert!((ease_out - 7.5).abs() < 1e-9);

    let ease_in_out = eval("return math.ease_in_out_quad(0, 10, 0.5);");
    assert!((ease_in_out - 5.0).abs() < 1e-9);
}

#[test]
fn easing_functions_cubic() {
    // Test cubic easing at boundaries
    let ease_in_start = eval("return math.ease_in_cubic(0, 10, 0);");
    assert!((ease_in_start - 0.0).abs() < 1e-9);

    let ease_in_end = eval("return math.ease_in_cubic(0, 10, 1);");
    assert!((ease_in_end - 10.0).abs() < 1e-9);

    let ease_out_start = eval("return math.ease_out_cubic(0, 10, 0);");
    assert!((ease_out_start - 0.0).abs() < 1e-9);

    let ease_out_end = eval("return math.ease_out_cubic(0, 10, 1);");
    assert!((ease_out_end - 10.0).abs() < 1e-9);
}

#[test]
fn easing_functions_sine() {
    // Test sine easing
    let ease_in_sine = eval("return math.ease_in_sine(0, 10, 1);");
    assert!((ease_in_sine - 10.0).abs() < 1e-6);

    let ease_out_sine = eval("return math.ease_out_sine(0, 10, 0);");
    assert!((ease_out_sine - 0.0).abs() < 1e-9);

    let ease_in_out_sine = eval("return math.ease_in_out_sine(0, 10, 0.5);");
    assert!((ease_in_out_sine - 5.0).abs() < 1e-9);
}

#[test]
fn easing_functions_circular() {
    // Test circular easing at boundaries
    let ease_in = eval("return math.ease_in_circ(0, 10, 0);");
    assert!((ease_in - 0.0).abs() < 1e-9);

    let ease_out = eval("return math.ease_out_circ(0, 10, 1);");
    assert!((ease_out - 10.0).abs() < 1e-6);
}

#[test]
fn easing_functions_back() {
    // Test back easing - should overshoot
    let ease_in_back = eval("return math.ease_in_back(0, 10, 1);");
    assert!((ease_in_back - 10.0).abs() < 1e-6);

    let ease_out_back = eval("return math.ease_out_back(0, 10, 1);");
    assert!((ease_out_back - 10.0).abs() < 1e-6);
}

#[test]
fn string_comparison_equal() {
    // String literals comparison
    let result = eval("return 'hello' == 'hello';");
    assert!((result - 1.0).abs() < 1e-9);

    let result = eval("return 'hello' == 'world';");
    assert!((result - 0.0).abs() < 1e-9);

    // String variable comparison
    let result = eval("temp.name = 'alice'; return temp.name == 'alice';");
    assert!((result - 1.0).abs() < 1e-9);

    let result = eval("temp.name = 'alice'; return temp.name == 'bob';");
    assert!((result - 0.0).abs() < 1e-9);

    // Two string variables
    let result = eval("temp.a = 'test'; temp.b = 'test'; return temp.a == temp.b;");
    assert!((result - 1.0).abs() < 1e-9);

    let result = eval("temp.a = 'foo'; temp.b = 'bar'; return temp.a == temp.b;");
    assert!((result - 0.0).abs() < 1e-9);
}

#[test]
fn string_comparison_not_equal() {
    // String literals comparison
    let result = eval("return 'hello' != 'world';");
    assert!((result - 1.0).abs() < 1e-9);

    let result = eval("return 'hello' != 'hello';");
    assert!((result - 0.0).abs() < 1e-9);

    // String variable comparison
    let result = eval("temp.name = 'alice'; return temp.name != 'bob';");
    assert!((result - 1.0).abs() < 1e-9);

    let result = eval("temp.name = 'alice'; return temp.name != 'alice';");
    assert!((result - 0.0).abs() < 1e-9);

    // Two string variables
    let result = eval("temp.a = 'foo'; temp.b = 'bar'; return temp.a != temp.b;");
    assert!((result - 1.0).abs() < 1e-9);

    let result = eval("temp.a = 'test'; temp.b = 'test'; return temp.a != temp.b;");
    assert!((result - 0.0).abs() < 1e-9);
}

#[test]
fn string_comparison_mixed_types() {
    // String compared with number should return false
    let result = eval("temp.name = 'alice'; temp.age = 25; return temp.name == temp.age;");
    assert!((result - 0.0).abs() < 1e-9);

    // String compared with null
    let result = eval("temp.name = 'alice'; return temp.name == temp.missing;");
    assert!((result - 0.0).abs() < 1e-9);
}

#[test]
fn string_comparison_in_conditionals() {
    // Using string comparison in ternary
    let result = eval(
        "temp.role = 'admin'; return temp.role == 'admin' ? 1.0 : 0.0;"
    );
    assert!((result - 1.0).abs() < 1e-9);

    // Using in loops with conditional
    let result = eval(
        "
        temp.found = 0;
        temp.names = ['alice', 'bob', 'charlie'];
        for_each(temp.name, temp.names, {
            temp.found = temp.found + (temp.name == 'bob' ? 1 : 0);
        });
        return temp.found;
        "
    );
    assert!((result - 1.0).abs() < 1e-9);
}

#[test]
fn number_comparison_still_works() {
    // Ensure numeric comparison still works
    let result = eval("temp.a = 5; temp.b = 5; return temp.a == temp.b;");
    assert!((result - 1.0).abs() < 1e-9);

    let result = eval("temp.a = 5; temp.b = 10; return temp.a != temp.b;");
    assert!((result - 1.0).abs() < 1e-9);

    // Numeric literals
    let result = eval("return 42 == 42;");
    assert!((result - 1.0).abs() < 1e-9);

    let result = eval("return 42 != 43;");
    assert!((result - 1.0).abs() < 1e-9);
}

#[test]
fn all_easing_functions_preserve_boundaries() {
    // All easing functions should map 0 to start and 1 to end
    let functions = vec![
        "ease_in_quad", "ease_out_quad", "ease_in_out_quad",
        "ease_in_cubic", "ease_out_cubic", "ease_in_out_cubic",
        "ease_in_quart", "ease_out_quart", "ease_in_out_quart",
        "ease_in_quint", "ease_out_quint", "ease_in_out_quint",
        "ease_in_sine", "ease_out_sine", "ease_in_out_sine",
        "ease_in_expo", "ease_out_expo", "ease_in_out_expo",
        "ease_in_circ", "ease_out_circ", "ease_in_out_circ",
        "ease_in_back", "ease_out_back", "ease_in_out_back",
        "ease_in_elastic", "ease_out_elastic", "ease_in_out_elastic",
        "ease_in_bounce", "ease_out_bounce", "ease_in_out_bounce",
    ];

    for func in functions {
        let start_script = format!("return math.{}(5, 15, 0);", func);
        let end_script = format!("return math.{}(5, 15, 1);", func);

        let start_result = eval(&start_script);
        let end_result = eval(&end_script);

        assert!(
            (start_result - 5.0).abs() < 1e-6,
            "{} failed at t=0: expected 5.0, got {}",
            func,
            start_result
        );
        assert!(
            (end_result - 15.0).abs() < 1e-6,
            "{} failed at t=1: expected 15.0, got {}",
            func,
            end_result
        );
    }
}


#[test]
fn loop_count_is_capped() {
    let value = eval("loop(10000, { temp.x = temp.x + 1; }); return temp.x;");
    assert_eq!(value, 1024.0);
}

#[test]
fn loop_with_zero_negative_or_nan_count_never_runs() {
    assert_eq!(eval("temp.x = 0; loop(0, { temp.x = temp.x + 1; }); return temp.x;"), 0.0);
    assert_eq!(eval("temp.x = 0; loop(-3, { temp.x = temp.x + 1; }); return temp.x;"), 0.0);
    assert_eq!(eval("temp.x = 0; loop(0 / 0, { temp.x = temp.x + 1; }); return temp.x;"), 0.0);
    assert_eq!(eval("temp.x = 0; loop(2.5, { temp.x = temp.x + 1; }); return temp.x;"), 3.0);
}

#[test]
fn short_circuit_skips_the_right_operand() {
    let mut cache = CompileCache::new();
    for (source, expected) in [("0 && math.cos(0)", 0.0), ("1 || math.cos(0)", 1.0), ("7 ?? math.cos(0)", 7.0)] {
        let mut ctx = RuntimeContext::default();
        let handle = match compile(source, &mut cache).expect("a pure expression") {
            Compiled::Cached(handle) => handle,
            Compiled::Program(_) => panic!("{} is a pure expression", source),
        };
        let artifact = cache.get(handle).expect("a cached artifact").clone();
        let (value, math_calls) = run_counting(&artifact, &mut ctx);
        assert_eq!(value, expected);
        assert_eq!(math_calls, 0, "{} called a function", source);
    }
    let mut ctx = RuntimeContext::default();
    let handle = match compile("1 && math.cos(0)", &mut cache).expect("a pure expression") {
        Compiled::Cached(handle) => handle,
        Compiled::Program(_) => panic!("a pure expression"),
    };
    let artifact = cache.get(handle).expect("a cached artifact").clone();
    assert_eq!(run_counting(&artifact, &mut ctx), (1.0, 1));
}

#[test]
fn logical_operators_give_the_documented_values() {
    assert_eq!(eval("return 3 && 4;"), 1.0);
    assert_eq!(eval("return 3 && 0;"), 0.0);
    assert_eq!(eval("return 0 || 7;"), 7.0);
    assert_eq!(eval("return 5 || 7;"), 1.0);
    assert_eq!(eval("return 0 ?? 9;"), 9.0);
    assert_eq!(eval("return 4 ?? 9;"), 4.0);
    assert_eq!(eval("return !5;"), 0.0);
    assert_eq!(eval("return !0;"), 1.0);
    assert_eq!(eval("return -(2 + 3);"), -5.0);
    assert_eq!(eval("return +4;"), 4.0);
    assert_eq!(eval("return 1 ? 2;"), 2.0);
    assert_eq!(eval("return 0 ? 2;"), 0.0);
}

#[test]
fn numeric_expressions_agree_with_direct_arithmetic() {
    assert_eq!(eval("return 1.5 + 2.25 * 4 - 10 / 4;"), 1.5 + 2.25 * 4.0 - 10.0 / 4.0);
    assert_eq!(eval("return (1 + 2) * (3 - 5) / 7;"), (1.0 + 2.0) * (3.0 - 5.0) / 7.0);
    assert_eq!(eval("return .5 + 1.;"), 1.5);
    assert!((eval("return math.sin(1.25) * math.exp(0.5);") - 1.25f64.sin() * 0.5f64.exp()).abs() < 1e-9);
    assert_eq!(eval("return 2 < 3;"), 1.0);
    assert_eq!(eval("return 2 >= 3;"), 0.0);
    assert_eq!(eval("return 2 <= 2;"), 1.0);
    assert_eq!(eval("return 3 > 2;"), 1.0);
    assert_eq!(eval("return 1 / 0;"), f64::INFINITY);
}

#[test]
fn an_array_counts_as_its_length() {
    assert_eq!(eval("temp.values = [5, 6, 7]; return temp.values + 1;"), 4.0);
    assert_eq!(eval("return [1, 2] + [3, 4, 5];"), 5.0);
    assert_eq!(eval("temp.values = [5, 6, 7]; return temp.values.length;"), 3.0);
    assert_eq!(eval("temp.values = [5, 6, 7]; return temp.values[length];"), 3.0);
}

#[test]
fn assignment_to_query_changes_nothing() {
    let mut ctx = RuntimeContext::default().with_query("x", 2.0f64.to_bits());
    let value = evaluate_expression("query.x = 5; q.y = 6; return query.x;", &mut ctx).unwrap();
    assert_eq!(value, 2.0);
    assert!(ctx.get_value_canonical("query.y").is_none());
    assert_eq!(ctx.get_number_canonical("query.x"), Some(2.0f64.to_bits()));
}

#[test]
fn aliases_and_letter_case_name_one_variable() {
    let mut ctx = RuntimeContext::default();
    let value = evaluate_expression("temp.X = 1; t.x = t.x + 1; return TEMP.x + v.A.b;", &mut ctx).unwrap();
    assert_eq!(value, 2.0);
    assert_eq!(ctx.get_number_canonical("temp.x"), Some(2.0f64.to_bits()));
    let value = evaluate_expression("speed = 4; return variable.speed + var.speed + v.speed;", &mut ctx).unwrap();
    assert_eq!(value, 12.0);
}

#[test]
fn nested_assignment_builds_the_ancestors() {
    let mut ctx = RuntimeContext::default();
    let value = evaluate_expression("temp.a.b.c = 7; return temp.a.b.c;", &mut ctx).unwrap();
    assert_eq!(value, 7.0);
    match ctx.get_value_canonical("temp.a.b") {
        Some(Value::Struct(fields)) => {
            assert_eq!(fields.len(), 1);
            assert!(matches!(fields.get("c"), Some(Value::Number(bits)) if *bits == 7.0f64.to_bits()));
        }
        other => panic!("expected a struct, found {:?}", other),
    }
    match ctx.get_value_canonical("temp.a") {
        Some(Value::Struct(fields)) => assert!(matches!(fields.get("b"), Some(Value::Struct(_)))),
        other => panic!("expected a struct, found {:?}", other),
    }
}

#[test]
fn copies_keep_the_kind_of_value() {
    let mut ctx = RuntimeContext::default();
    let value = evaluate_expression(
        "temp.a = 'text'; temp.b = temp.a; temp.c = [1, 'two', 3]; temp.d = temp.c; return temp.d;",
        &mut ctx,
    )
    .unwrap();
    assert_eq!(value, 3.0);
    assert!(matches!(ctx.get_value_canonical("temp.b"), Some(Value::String(text)) if text == "text"));
    match ctx.get_value_canonical("temp.d") {
        Some(Value::Array(items)) => {
            assert_eq!(items.len(), 3);
            assert!(matches!(&items[1], Value::String(text) if text == "two"));
        }
        other => panic!("expected an array, found {:?}", other),
    }
    let value = evaluate_expression("temp.b = temp.missing; return temp.b ?? 4;", &mut ctx).unwrap();
    assert_eq!(value, 4.0);
    assert!(ctx.get_value_canonical("temp.b").is_none());
}

#[test]
fn for_each_over_a_literal_uses_a_temporary() {
    let value = eval("temp.n = 0; for_each(temp.i, [4, 5, 6], { temp.n = temp.n + temp.i; }); return temp.n;");
    assert_eq!(value, 15.0);
}

#[test]
fn return_ends_the_program() {
    assert_eq!(eval("temp.x = 1; return temp.x; temp.x = 2; return temp.x;"), 1.0);
    assert_eq!(eval("temp.x = 1;"), 0.0);
    assert_eq!(eval("return;"), 0.0);
    assert_eq!(eval("loop(5, { return 9; }); return 1;"), 9.0);
}

#[test]
fn unsupported_features_are_refused() {
    let mut ctx = RuntimeContext::default();
    for (source, feature) in [
        ("return 'text';", "string literal as value expression"),
        ("return { a: 1 } + 1;", "struct literal as value expression"),
        ("return (1 + 2)[0];", "indexing non-path expression"),
        ("return break;", "break/continue outside loop"),
        ("temp.x = temp.y[0];", "index as assignment source"),
        ("loop(2, { temp.x = break; });", "control flow expression as assignment source"),
    ] {
        match evaluate_expression(source, &mut ctx) {
            Err(MolangError::Jit(molang::jit::JitError::UnsupportedExpression { feature: found })) => {
                assert_eq!(found, feature)
            }
            other => panic!("{}: expected a refusal, found {:?}", source, other),
        }
    }
    assert_eq!(ctx.len(), 0);
}

#[test]
fn end_to_end_values() {
    assert_eq!(eval("1 + math.cos(0)"), 2.0);
    assert_eq!(eval("(1 < 2) ? 5.0 : 10.0"), 5.0);
    assert_eq!(eval("0 ?? 3 + 2"), 5.0);
    assert_eq!(eval("!(1-1) || (2>1) && (3==3)"), 1.0);
    assert_eq!(
        eval("temp.counter = 0; loop(10, { temp.counter = temp.counter + 1; (temp.counter > 5) ? break; }); return temp.counter;"),
        6.0
    );
    assert_eq!(
        eval("temp.values = [1,2,3,4]; temp.total = 0; for_each(temp.item, temp.values, { temp.total = temp.total + temp.item; }); return temp.total;"),
        10.0
    );
    assert_eq!(
        eval("temp.location = { x:1, y:2 }; temp.location.z = 3; return temp.location.x + temp.location.y + temp.location.z;"),
        6.0
    );
    assert_eq!(
        eval("temp.values = [10,20,30]; temp.sum = temp.values[1] + temp.values[3] + temp.values.length; return temp.sum;"),
        33.0
    );
    assert_eq!(eval("return math.min_angle(190);"), -170.0);
    assert_eq!(eval("temp.name = 'alice'; return temp.name == 'alice';"), 1.0);
    assert_eq!(eval("return 'hello' == 'hello';"), 1.0);
    assert_eq!(eval("return math.sign(0);"), -1.0);
    assert!((eval("return math.atan2(1, 1) + math.sin(0);") - 45.0).abs() < 1e-9);
}

//! The evaluator: three modes over one tree.
//!
//! A node evaluates to a generic value, to a number, or to a boolean.
//! Field paths walk nested mappings and a missing key raises the
//! distinguished field-not-found condition; a non-mapping in the
//! middle of a path is a hard error.  Number coercion takes null as
//! zero and numbers as themselves.  Mixed arithmetic promotes to
//! float; the bitwise and shift operators take integers only;
//! equality is structural across kinds with no coercion; `&&`
//! evaluates both sides, `||` short-circuits.  A field-not-found
//! raised while a function argument is evaluated becomes a hard
//! error; everywhere else it propagates unchanged, until the
//! predicate boundary swallows it to false.
use crate::calc::Calc;
use crate::calc::Opt;
use crate::calc::SpecCalc;
use crate::error::EvalError;
use crate::error::NotFoundFieldError;
use crate::error::SpecErr;
use crate::lex::find_char;
use crate::num::float_add;
use crate::num::float_div;
use crate::num::float_le;
use crate::num::float_lt;
use crate::num::float_mul;
use crate::num::float_neg;
use crate::num::float_of_int;
use crate::num::float_rem;
use crate::num::float_sub;
use crate::num::number_add;
use crate::num::number_div;
use crate::num::number_le;
use crate::num::number_lt;
use crate::num::number_mul;
use crate::num::number_neg;
use crate::num::number_of_int;
use crate::num::number_rem;
use crate::num::number_sub;
use crate::text::chars_of;
use crate::text::string_of_range;
use crate::value::SpecVal;
use crate::value::Value;
use crate::value::obj_get;
use crate::value::spec_obj_lookup;
use crate::value::spec_truthy;
use crate::value::spec_val_eq;
use crate::value::spec_vals_of;
use crate::value::truthy;
use crate::value::val_eq;
use vstd::prelude::*;

verus! {

broadcast use vstd::std_specs::vec::group_vec_axioms;

/// A coerced number: a 64-bit integer or a float.
#[derive(Debug)]
pub enum Num {
    Int(i64),
    Float(serde_json::Number),
}

/// What one call into the function registry came to.
pub enum SpecCallOut {
    NotFound,
    Done(SpecVal),
    Fail(SpecErr),
}

/// The outcome of one call into the function registry: the name was
/// not registered, or the function returned a value, or it failed.
#[derive(Debug)]
pub enum CallResult {
    NotFound,
    Done(Value),
    Fail(EvalError),
}

impl View for CallResult {
    type V = SpecCallOut;

    open spec fn view(&self) -> SpecCallOut {
        match self {
            CallResult::NotFound => SpecCallOut::NotFound,
            CallResult::Done(v) => SpecCallOut::Done(v@),
            CallResult::Fail(e) => SpecCallOut::Fail(e@),
        }
    }
}

/// The registry of named functions an engine evaluates against.  Its
/// mathematical content is one function from a name and argument
/// values to an outcome; `call_function` returns exactly that
/// outcome, so two calls on equal values agree, whatever the
/// implementation does inside.
pub trait FunctionSet: Sized {
    /// What each named call returns.  An implementation proved
    /// against this model overrides it; one written outside the
    /// verified world leaves it arbitrary, and nothing is then known
    /// of its calls.
    open spec fn fmodel(&self) -> spec_fn(Seq<char>, Seq<SpecVal>) -> SpecCallOut {
        vstd::pervasive::arbitrary()
    }

    /// Resolves the name and runs the function on the arguments.
    fn call_function(&self, name: &str, args: Vec<Value>) -> (r: CallResult)
        ensures
            r@ == self.fmodel()(name@, spec_vals_of(args@)),
    ;
}

/// A possibly failed value with the error kinds of this crate.
pub open spec fn res_view(r: Result<Value, EvalError>) -> Result<SpecVal, SpecErr> {
    match r {
        Ok(v) => Ok(v@),
        Err(e) => Err(e@),
    }
}

// ---------------------------------------------------------------------
// Field resolution
// ---------------------------------------------------------------------
/// The dotted path split on `.`, from position `start` on.
pub open spec fn split_dots_from(s: Seq<char>, start: int) -> Seq<Seq<char>>
    decreases s.len() - start,
    when 0 <= start <= s.len()
    via split_dots_from_decreases
{
    match find_char(s, start, '.') {
        None => seq![s.subrange(start, s.len() as int)],
        Some(j) => seq![s.subrange(start, j)] + split_dots_from(s, j + 1),
    }
}

#[via_fn]
proof fn split_dots_from_decreases(s: Seq<char>, start: int) {
    crate::lex::lemma_find_char(s, start, '.');
}

/// Walks the path segments through nested mappings: a missing key is
/// the field-not-found condition naming the segment, a non-mapping in
/// the middle is a hard error naming the whole path.
pub open spec fn spec_walk(segs: Seq<Seq<char>>, cur: SpecVal, full: Seq<char>) -> Result<
    SpecVal,
    SpecErr,
>
    decreases segs.len(),
{
    if segs.len() == 0 {
        Ok(cur)
    } else {
        match cur {
            SpecVal::Object(fields) => match spec_obj_lookup(fields, segs[0]) {
                None => Err(SpecErr::NotFoundField(segs[0])),
                Some(v) => spec_walk(segs.drop_first(), v, full),
            },
            _ => Err(SpecErr::NotObject(full)),
        }
    }
}

/// What a field reference resolves to on the given input.
pub open spec fn spec_field(path: Seq<char>, input: SpecVal) -> Result<SpecVal, SpecErr> {
    spec_walk(split_dots_from(path, 0), input, path)
}

// ---------------------------------------------------------------------
// Coercions
// ---------------------------------------------------------------------
/// How a value coerces to a number: null is zero, numbers pass
/// through, every other kind is a hard error.
pub open spec fn spec_num_of_val(v: SpecVal) -> Result<Num, SpecErr> {
    match v {
        SpecVal::Null => Ok(Num::Int(0)),
        SpecVal::Int(i) => Ok(Num::Int(i)),
        SpecVal::Float(n) => Ok(Num::Float(n)),
        _ => Err(SpecErr::CannotCoerce),
    }
}

/// Integer negation in two's complement: the minimum stays itself.
pub open spec fn spec_neg64(i: i64) -> i64 {
    if i == i64::MIN {
        i64::MIN
    } else {
        (-i) as i64
    }
}

// ---------------------------------------------------------------------
// Evaluation
// ---------------------------------------------------------------------
/// What a tree evaluates to in generic value mode.
pub open spec fn spec_value(
    c: SpecCalc,
    f: spec_fn(Seq<char>, Seq<SpecVal>) -> SpecCallOut,
    input: SpecVal,
) -> Result<SpecVal, SpecErr>
    decreases c, 1int,
{
    match c {
        SpecCalc::Null => Ok(SpecVal::Null),
        SpecCalc::Field(p) => spec_field(p, input),
        SpecCalc::Str(s) => Ok(SpecVal::Str(s)),
        SpecCalc::Int(i) => Ok(SpecVal::Int(i)),
        SpecCalc::Float(n) => Ok(SpecVal::Float(n)),
        SpecCalc::Bool(b) => Ok(SpecVal::Bool(b)),
        SpecCalc::Array(items) => match spec_eval_list(items, f, input) {
            Ok(vals) => Ok(SpecVal::Array(vals)),
            Err(e) => Err(e),
        },
        SpecCalc::Function(name, args) => match spec_eval_list(args, f, input) {
            Err(SpecErr::NotFoundField(x)) => Err(SpecErr::ArgNotFoundField(x)),
            Err(e) => Err(e),
            Ok(vals) => match f(name, vals) {
                SpecCallOut::NotFound => Err(SpecErr::FunctionNotFound(name)),
                SpecCallOut::Done(v) => Ok(v),
                SpecCallOut::Fail(e) => Err(e),
            },
        },
        SpecCalc::Operator(o, args) => spec_operator(o, args, f, input),
    }
}

/// The values of a node list, evaluated left to right; the first
/// error stops the walk.
pub open spec fn spec_eval_list(
    items: Seq<SpecCalc>,
    f: spec_fn(Seq<char>, Seq<SpecVal>) -> SpecCallOut,
    input: SpecVal,
) -> Result<Seq<SpecVal>, SpecErr>
    decreases items, 0int,
{
    if items.len() == 0 {
        Ok(Seq::empty())
    } else {
        match spec_value(items[0], f, input) {
            Err(e) => Err(e),
            Ok(v) => match spec_eval_list(items.drop_first(), f, input) {
                Err(e) => Err(e),
                Ok(rest) => Ok(seq![v] + rest),
            },
        }
    }
}

/// How a tree coerces to a number: its value, coerced.
pub open spec fn spec_number(
    c: SpecCalc,
    f: spec_fn(Seq<char>, Seq<SpecVal>) -> SpecCallOut,
    input: SpecVal,
) -> Result<Num, SpecErr>
    decreases c, 2int,
{
    match spec_value(c, f, input) {
        Err(e) => Err(e),
        Ok(v) => spec_num_of_val(v),
    }
}

/// How a tree coerces to a boolean: its value, coerced.
pub open spec fn spec_bool(
    c: SpecCalc,
    f: spec_fn(Seq<char>, Seq<SpecVal>) -> SpecCallOut,
    input: SpecVal,
) -> Result<bool, SpecErr>
    decreases c, 2int,
{
    match spec_value(c, f, input) {
        Err(e) => Err(e),
        Ok(v) => Ok(spec_truthy(v)),
    }
}

/// What an operator node evaluates to.  Unary minus negates, `!`
/// negates the boolean, `~` complements an integer.  The arithmetic
/// symbols compute in integers unless a float operand promotes both
/// sides to float; the bitwise and shift symbols refuse floats; the
/// relational symbols compare numerically with promotion; equality is
/// structural; `&&` evaluates both sides, `||` short-circuits.
pub open spec fn spec_operator(
    o: Opt,
    args: Seq<SpecCalc>,
    f: spec_fn(Seq<char>, Seq<SpecVal>) -> SpecCallOut,
    input: SpecVal,
) -> Result<SpecVal, SpecErr>
    decreases args, 1int,
{
    if args.len() == 0 {
        Err(SpecErr::BadArity)
    } else if args.len() == 1 {
        if o == Opt::SUB {
            match spec_number(args[0], f, input) {
                Err(e) => Err(e),
                Ok(Num::Int(i)) => Ok(SpecVal::Int(spec_neg64(i))),
                Ok(Num::Float(n)) => Ok(SpecVal::Float(float_neg(n))),
            }
        } else if o == Opt::NOT {
            match spec_bool(args[0], f, input) {
                Err(e) => Err(e),
                Ok(b) => Ok(SpecVal::Bool(!b)),
            }
        } else if o == Opt::REV {
            match spec_number(args[0], f, input) {
                Err(e) => Err(e),
                Ok(Num::Int(i)) => Ok(SpecVal::Int((-1 - i) as i64)),
                Ok(Num::Float(_)) => Err(SpecErr::BadFloatOperand),
            }
        } else {
            Err(SpecErr::BadArity)
        }
    } else if args.len() != 2 {
        Err(SpecErr::BadArity)
    } else if o == Opt::NOT || o == Opt::REV {
        Err(SpecErr::BadArity)
    } else if o == Opt::ADD || o == Opt::SUB || o == Opt::MUL || o == Opt::DIV || o == Opt::REM {
        match spec_number(args[0], f, input) {
            Err(e) => Err(e),
            Ok(n1) => match spec_number(args[1], f, input) {
                Err(e) => Err(e),
                Ok(n2) => spec_arith(o, n1, n2),
            },
        }
    } else if o == Opt::AND || o == Opt::OR || o == Opt::XOR || o == Opt::SHL || o == Opt::SHR {
        match spec_number(args[0], f, input) {
            Err(e) => Err(e),
            Ok(n1) => match spec_number(args[1], f, input) {
                Err(e) => Err(e),
                Ok(n2) => spec_int_op(o, n1, n2),
            },
        }
    } else if o == Opt::GT || o == Opt::GE || o == Opt::LT || o == Opt::LE {
        match spec_number(args[0], f, input) {
            Err(e) => Err(e),
            Ok(n1) => match spec_number(args[1], f, input) {
                Err(e) => Err(e),
                Ok(n2) => Ok(SpecVal::Bool(spec_compare(o, n1, n2))),
            },
        }
    } else if o == Opt::AT {
        match spec_bool(args[0], f, input) {
            Err(e) => Err(e),
            Ok(b1) => match spec_bool(args[1], f, input) {
                Err(e) => Err(e),
                Ok(b2) => Ok(SpecVal::Bool(b1 && b2)),
            },
        }
    } else if o == Opt::OT {
        match spec_bool(args[0], f, input) {
            Err(e) => Err(e),
            Ok(b1) => if b1 {
                Ok(SpecVal::Bool(true))
            } else {
                match spec_bool(args[1], f, input) {
                    Err(e) => Err(e),
                    Ok(b2) => Ok(SpecVal::Bool(b2)),
                }
            },
        }
    } else {
        // Opt::EQ or Opt::NQ
        match spec_value(args[0], f, input) {
            Err(e) => Err(e),
            Ok(v1) => match spec_value(args[1], f, input) {
                Err(e) => Err(e),
                Ok(v2) => if o == Opt::EQ {
                    Ok(SpecVal::Bool(spec_val_eq(v1, v2)))
                } else {
                    Ok(SpecVal::Bool(!spec_val_eq(v1, v2)))
                },
            },
        }
    }
}

/// Arithmetic on two coerced numbers: integers wrap in two's
/// complement, integer division and remainder by zero are errors, any
/// float operand promotes both sides and a non-finite float result is
/// an error.
pub open spec fn spec_arith(o: Opt, n1: Num, n2: Num) -> Result<SpecVal, SpecErr> {
    match (n1, n2) {
        (Num::Int(a), Num::Int(b)) => {
            if o == Opt::ADD {
                Ok(SpecVal::Int(a.wrapping_add(b)))
            } else if o == Opt::SUB {
                Ok(SpecVal::Int(a.wrapping_sub(b)))
            } else if o == Opt::MUL {
                Ok(SpecVal::Int(a.wrapping_mul(b)))
            } else if o == Opt::DIV {
                match a.checked_div(b) {
                    None => Err(SpecErr::DivideByZero),
                    Some(q) => Ok(SpecVal::Int(q)),
                }
            } else {
                match a.checked_rem(b) {
                    None => Err(SpecErr::DivideByZero),
                    Some(q) => Ok(SpecVal::Int(q)),
                }
            }
        },
        _ => {
            let a = promote(n1);
            let b = promote(n2);
            let r = if o == Opt::ADD {
                float_add(a, b)
            } else if o == Opt::SUB {
                float_sub(a, b)
            } else if o == Opt::MUL {
                float_mul(a, b)
            } else if o == Opt::DIV {
                float_div(a, b)
            } else {
                float_rem(a, b)
            };
            match r {
                None => Err(SpecErr::BadFloatOperand),
                Some(n) => Ok(SpecVal::Float(n)),
            }
        },
    }
}

/// The float a coerced number promotes to.
pub open spec fn promote(n: Num) -> serde_json::Number {
    match n {
        Num::Int(i) => float_of_int(i),
        Num::Float(x) => x,
    }
}

/// The bitwise and shift operators over two coerced numbers: both
/// sides must be integers; a shift by less than zero or by 64 or more
/// is an error.
pub open spec fn spec_int_op(o: Opt, n1: Num, n2: Num) -> Result<SpecVal, SpecErr> {
    match (n1, n2) {
        (Num::Int(a), Num::Int(b)) => {
            if o == Opt::AND {
                Ok(SpecVal::Int(a & b))
            } else if o == Opt::OR {
                Ok(SpecVal::Int(a | b))
            } else if o == Opt::XOR {
                Ok(SpecVal::Int(a ^ b))
            } else if b < 0 || b >= 64 {
                Err(SpecErr::ShiftOutOfRange)
            } else if o == Opt::SHL {
                Ok(SpecVal::Int(a.wrapping_shl(b as u32)))
            } else {
                Ok(SpecVal::Int(a.wrapping_shr(b as u32)))
            }
        },
        _ => Err(SpecErr::BadFloatOperand),
    }
}

/// The relational operators over two coerced numbers, promoting a
/// mixed pair to float.  A float `a > b` holds exactly when `b < a`,
/// and `a >= b` exactly when `b <= a`.
pub open spec fn spec_compare(o: Opt, n1: Num, n2: Num) -> bool {
    match (n1, n2) {
        (Num::Int(a), Num::Int(b)) => {
            if o == Opt::GT {
                a > b
            } else if o == Opt::GE {
                a >= b
            } else if o == Opt::LT {
                a < b
            } else {
                a <= b
            }
        },
        _ => {
            let a = promote(n1);
            let b = promote(n2);
            if o == Opt::GT {
                float_lt(b, a)
            } else if o == Opt::GE {
                float_le(b, a)
            } else if o == Opt::LT {
                float_lt(a, b)
            } else {
                float_le(a, b)
            }
        },
    }
}

/// What a predicate comes to: its boolean, with the field-not-found
/// condition swallowed to false at this boundary and at no other.
pub open spec fn spec_when(
    c: SpecCalc,
    f: spec_fn(Seq<char>, Seq<SpecVal>) -> SpecCallOut,
    input: SpecVal,
) -> Result<bool, SpecErr> {
    match spec_bool(c, f, input) {
        Err(SpecErr::NotFoundField(_)) => Ok(false),
        r => r,
    }
}


// ---------------------------------------------------------------------
// Executable evaluation
// ---------------------------------------------------------------------
/// The number a value coerces to.
fn val_to_num(v: Value) -> (r: Result<Num, EvalError>)
    ensures
        ({
            let sp = spec_num_of_val(v@);
            match r {
                Ok(n) => sp == Ok::<Num, SpecErr>(n),
                Err(e) => sp == Err::<Num, SpecErr>(e@),
            }
        }),
{
    match v {
        Value::Null => Ok(Num::Int(0)),
        Value::Int(i) => Ok(Num::Int(i)),
        Value::Float(n) => Ok(Num::Float(n)),
        _ => Err(EvalError::CannotCoerce),
    }
}

/// The float a coerced number promotes to.
fn promote_num(n: Num) -> (r: serde_json::Number)
    ensures
        r == promote(n),
{
    match n {
        Num::Int(i) => number_of_int(i),
        Num::Float(x) => x,
    }
}

/// The values of a node list, left to right, stopping at the first
/// error.
#[verifier::loop_isolation(false)]
fn eval_list<F: FunctionSet>(items: &Vec<Calc>, fs: &F, input: &Value) -> (r: Result<
    Vec<Value>,
    EvalError,
>)
    ensures
        ({
            let sp = spec_eval_list(crate::calc::spec_calcs_of(items@), fs.fmodel(), input@);
            match r {
                Ok(vs) => sp == Ok::<Seq<SpecVal>, SpecErr>(spec_vals_of(vs@)),
                Err(e) => sp == Err::<Seq<SpecVal>, SpecErr>(e@),
            }
        }),
    decreases items@, 0int,
{
    let ghost sitems = crate::calc::spec_calcs_of(items@);
    let ghost fm = fs.fmodel();
    let mut out: Vec<Value> = Vec::new();
    let mut k: usize = 0;
    proof {
        assert(sitems.skip(0) =~= sitems);
    }
    while k < items.len()
        invariant
            k <= items.len(),
            spec_eval_list(sitems, fm, input@) == (match spec_eval_list(
                sitems.skip(k as int),
                fm,
                input@,
            ) {
                Ok(rest) => Ok::<Seq<SpecVal>, SpecErr>(spec_vals_of(out@) + rest),
                Err(e) => Err::<Seq<SpecVal>, SpecErr>(e),
            }),
        decreases items.len() - k,
    {
        let ghost tail = sitems.skip(k as int);
        proof {
            assert(tail[0] == sitems[k as int]);
            assert(tail.drop_first() =~= sitems.skip(k as int + 1));
            assert(decreases_to!(items@ => items@[k as int]));
        }
        match items[k].value(fs, input) {
            Err(e) => {
                return Err(e);
            },
            Ok(v) => {
                proof {
                    let rest2 = spec_eval_list(sitems.skip(k as int + 1), fm, input@);
                    if rest2 is Ok {
                        assert(spec_vals_of(out@.push(v)) =~= spec_vals_of(out@).push(v@));
                        assert(spec_vals_of(out@) + (seq![v@] + rest2->Ok_0) =~= spec_vals_of(
                            out@,
                        ).push(v@) + rest2->Ok_0);
                    }
                }
                out.push(v);
            },
        }
        k = k + 1;
    }
    proof {
        assert(sitems.skip(k as int) =~= Seq::<SpecCalc>::empty());
        assert(spec_vals_of(out@) + Seq::<SpecVal>::empty() =~= spec_vals_of(out@));
    }
    Ok(out)
}

impl Calc {
    /// What this field reference resolves to on the input.
    #[verifier::loop_isolation(false)]
    pub fn field(&self, input: &Value) -> (r: Result<Value, EvalError>)
        ensures
            self@ matches SpecCalc::Field(p) ==> res_view(r) == spec_field(p, input@),
            !(self@ is Field) ==> r is Err,
    {
        match self {
            Calc::Field(path) => {
                let chars = chars_of(path.as_str());
                let ghost s = chars@;
                let ghost full_segs = split_dots_from(s, 0);
                let n = chars.len();
                let mut cur: &Value = input;
                let mut start: usize = 0;
                loop
                    invariant
                        start <= n,
                        n == s.len(),
                        s == chars@,
                        s == path@,
                        spec_walk(full_segs, input@, s) == spec_walk(
                            split_dots_from(s, start as int),
                            cur@,
                            s,
                        ),
                    decreases n - start,
                {
                    let ghost segs = split_dots_from(s, start as int);
                    match crate::lex::scan_char(&chars, start, '.') {
                        None => {
                            let seg = string_of_range(&chars, start, n);
                            proof {
                                assert(segs == seq![s.subrange(start as int, s.len() as int)]);
                                assert(segs[0] == seg@);
                                assert(segs.drop_first() =~= Seq::<Seq<char>>::empty());
                            }
                            match cur {
                                Value::Object(fields) => {
                                    proof {
                                        assert(*cur == Value::Object(*fields));
                                        crate::value::lemma_object_view(*fields);
                                        assert(cur@->Object_0 == crate::value::spec_fields_of(
                                            fields@,
                                        ));
                                        assert(*self == Calc::Field(*path));
                                        assert(self@ == SpecCalc::Field(path@));
                                    }
                                    match obj_get(fields, seg.as_str()) {
                                        None => {
                                            return Err(EvalError::NotFoundField(
                                                NotFoundFieldError(seg),
                                            ));
                                        },
                                        Some(v) => {
                                            proof {
                                                assert(spec_obj_lookup(
                                                    cur@->Object_0,
                                                    segs[0],
                                                ) == Some(v@));
                                                assert(spec_walk(
                                                    Seq::<Seq<char>>::empty(),
                                                    v@,
                                                    s,
                                                ) == Ok::<SpecVal, SpecErr>(v@));
                                                assert(spec_walk(segs, cur@, s) == Ok::<
                                                    SpecVal,
                                                    SpecErr,
                                                >(v@));
                                                assert(spec_field(path@, input@) == Ok::<
                                                    SpecVal,
                                                    SpecErr,
                                                >(v@));
                                            }
                                            return Ok(v.duplicate());
                                        },
                                    }
                                },
                                _ => {
                                    return Err(EvalError::NotObject(path.clone()));
                                },
                            }
                        },
                        Some(j) => {
                            let seg = string_of_range(&chars, start, j);
                            proof {
                                assert(segs[0] == seg@);
                                assert(segs.drop_first() =~= split_dots_from(s, j as int + 1));
                            }
                            match cur {
                                Value::Object(fields) => {
                                    proof {
                                        crate::value::lemma_object_view(*fields);
                                    }
                                    match obj_get(fields, seg.as_str()) {
                                        None => {
                                            return Err(EvalError::NotFoundField(
                                                NotFoundFieldError(seg),
                                            ));
                                        },
                                        Some(v) => {
                                            cur = v;
                                            start = j + 1;
                                        },
                                    }
                                },
                                _ => {
                                    return Err(EvalError::NotObject(path.clone()));
                                },
                            }
                        },
                    }
                }
            },
            _ => Err(EvalError::CannotCoerce),
        }
    }

    /// What this function-call node evaluates to: the arguments in
    /// value mode left to right, then the registered function.  A
    /// field-not-found from an argument becomes a hard error here.
    pub fn function<F: FunctionSet>(&self, fs: &F, input: &Value) -> (r: Result<Value, EvalError>)
        ensures
            self@ is Function ==> res_view(r) == spec_value(self@, fs.fmodel(), input@),
            !(self@ is Function) ==> r is Err,
        decreases *self, 0int,
    {
        match self {
            Calc::Function(name, args) => {
                proof {
                    crate::calc::lemma_calc_function_view(*name, *args);
                    assert(decreases_to!(*self => (*self)->Function_1));
                    assert(decreases_to!(*args => args@));
                }
                let vals = match eval_list(args, fs, input) {
                    Err(e) => {
                        match e {
                            EvalError::NotFoundField(nf) => {
                                return Err(EvalError::ArgNotFoundField(nf.0));
                            },
                            _ => {
                                return Err(e);
                            },
                        }
                    },
                    Ok(vs) => vs,
                };
                match fs.call_function(name.as_str(), vals) {
                    CallResult::NotFound => Err(EvalError::FunctionNotFound(name.clone())),
                    CallResult::Done(v) => Ok(v),
                    CallResult::Fail(e) => Err(e),
                }
            },
            _ => Err(EvalError::CannotCoerce),
        }
    }

    /// What this tree evaluates to in generic value mode.
    pub fn value<F: FunctionSet>(&self, fs: &F, input: &Value) -> (r: Result<Value, EvalError>)
        ensures
            res_view(r) == spec_value(self@, fs.fmodel(), input@),
        decreases *self, 1int,
    {
        match self {
            Calc::NULL => Ok(Value::Null),
            Calc::Field(_) => self.field(input),
            Calc::String(st) => Ok(Value::Str(st.clone())),
            Calc::Number(i) => Ok(Value::Int(*i)),
            Calc::Float(n) => Ok(Value::Float(n.clone())),
            Calc::Bool(b) => Ok(Value::Bool(*b)),
            Calc::Array(items) => {
                proof {
                    crate::calc::lemma_calc_array_view(*items);
                    assert(decreases_to!(*self => (*self)->Array_0));
                    assert(decreases_to!(*items => items@));
                }
                match eval_list(items, fs, input) {
                    Err(e) => Err(e),
                    Ok(vs) => {
                        let r = Value::Array(vs);
                        proof {
                            crate::value::lemma_array_view(r->Array_0);
                            assert(r@->Array_0 =~= spec_vals_of(r->Array_0@));
                        }
                        Ok(r)
                    },
                }
            },
            Calc::Function(_, _) => self.function(fs, input),
            Calc::Operator(o, args) => {
                proof {
                    crate::calc::lemma_calc_operator_view(*o, *args);
                    assert(decreases_to!(*self => (*self)->Operator_1));
                    assert(decreases_to!(*args => args@));
                }
                Calc::operator(o, args, fs, input)
            },
        }
    }

    /// What this tree coerces to as a number: its value, coerced.
    pub fn number<F: FunctionSet>(&self, fs: &F, input: &Value) -> (r: Result<Num, EvalError>)
        ensures
            ({
                let sp = spec_number(self@, fs.fmodel(), input@);
                match r {
                    Ok(n) => sp == Ok::<Num, SpecErr>(n),
                    Err(e) => sp == Err::<Num, SpecErr>(e@),
                }
            }),
        decreases *self, 2int,
    {
        match self.value(fs, input) {
            Err(e) => Err(e),
            Ok(v) => val_to_num(v),
        }
    }

    /// What this tree coerces to as a boolean: its value, coerced.
    pub fn bool<F: FunctionSet>(&self, fs: &F, input: &Value) -> (r: Result<bool, EvalError>)
        ensures
            ({
                let sp = spec_bool(self@, fs.fmodel(), input@);
                match r {
                    Ok(b) => sp == Ok::<bool, SpecErr>(b),
                    Err(e) => sp == Err::<bool, SpecErr>(e@),
                }
            }),
        decreases *self, 2int,
    {
        match self.value(fs, input) {
            Err(e) => Err(e),
            Ok(v) => Ok(truthy(&v)),
        }
    }

    /// What an operator node evaluates to.
    #[verifier::spinoff_prover]
    pub fn operator<F: FunctionSet>(opt: &Opt, args: &Vec<Calc>, fs: &F, input: &Value) -> (r:
        Result<Value, EvalError>)
        ensures
            res_view(r) == spec_operator(
                *opt,
                crate::calc::spec_calcs_of(args@),
                fs.fmodel(),
                input@,
            ),
        decreases args@, 1int,
    {
        let ghost sargs = crate::calc::spec_calcs_of(args@);
        let o = *opt;
        if args.len() == 0 {
            return Err(EvalError::BadArity);
        }
        proof {
            assert(decreases_to!(args@ => args@[0]));
            assert(sargs[0] == args@[0]@);
        }
        if args.len() == 1 {
            if o == Opt::SUB {
                match args[0].number(fs, input) {
                    Err(e) => {
                        proof {
                            assert(spec_operator(o, sargs, fs.fmodel(), input@) == Err::<
                                SpecVal,
                                SpecErr,
                            >(e@));
                        }
                        return Err(e);
                    },
                    Ok(Num::Int(i)) => {
                        let v = if i == i64::MIN {
                            i64::MIN
                        } else {
                            -i
                        };
                        proof {
                            assert(spec_operator(o, sargs, fs.fmodel(), input@) == Ok::<
                                SpecVal,
                                SpecErr,
                            >(SpecVal::Int(spec_neg64(i))));
                        }
                        return Ok(Value::Int(v));
                    },
                    Ok(Num::Float(n)) => {
                        proof {
                            assert(spec_operator(o, sargs, fs.fmodel(), input@) == Ok::<
                                SpecVal,
                                SpecErr,
                            >(SpecVal::Float(float_neg(n))));
                        }
                        return Ok(Value::Float(number_neg(&n)));
                    },
                }
            } else if o == Opt::NOT {
                match args[0].bool(fs, input) {
                    Err(e) => {
                        proof {
                            assert(spec_operator(o, sargs, fs.fmodel(), input@) == Err::<
                                SpecVal,
                                SpecErr,
                            >(e@));
                        }
                        return Err(e);
                    },
                    Ok(b) => {
                        proof {
                            assert(spec_operator(o, sargs, fs.fmodel(), input@) == Ok::<
                                SpecVal,
                                SpecErr,
                            >(SpecVal::Bool(!b)));
                        }
                        return Ok(Value::Bool(!b));
                    },
                }
            } else if o == Opt::REV {
                match args[0].number(fs, input) {
                    Err(e) => {
                        proof {
                            assert(spec_operator(o, sargs, fs.fmodel(), input@) == Err::<
                                SpecVal,
                                SpecErr,
                            >(e@));
                        }
                        return Err(e);
                    },
                    Ok(Num::Int(i)) => {
                        let v: i64 = -1 - i;
                        proof {
                            assert(spec_operator(o, sargs, fs.fmodel(), input@) == Ok::<
                                SpecVal,
                                SpecErr,
                            >(SpecVal::Int((-1 - i) as i64)));
                        }
                        return Ok(Value::Int(v));
                    },
                    Ok(Num::Float(_)) => {
                        proof {
                            assert(spec_operator(o, sargs, fs.fmodel(), input@) == Err::<
                                SpecVal,
                                SpecErr,
                            >(SpecErr::BadFloatOperand));
                        }
                        return Err(EvalError::BadFloatOperand);
                    },
                }
            } else {
                proof {
                    assert(spec_operator(o, sargs, fs.fmodel(), input@) == Err::<
                        SpecVal,
                        SpecErr,
                    >(SpecErr::BadArity));
                }
                return Err(EvalError::BadArity);
            }
        } else if args.len() != 2 {
            proof {
                assert(spec_operator(o, sargs, fs.fmodel(), input@) == Err::<SpecVal, SpecErr>(
                    SpecErr::BadArity,
                ));
            }
            return Err(EvalError::BadArity);
        } else {
            proof {
                assert(decreases_to!(args@ => args@[1]));
                assert(sargs[1] == args@[1]@);
            }
            if o == Opt::NOT || o == Opt::REV {
                proof {
                    assert(spec_operator(o, sargs, fs.fmodel(), input@) == Err::<
                        SpecVal,
                        SpecErr,
                    >(SpecErr::BadArity));
                }
                return Err(EvalError::BadArity);
            } else if o == Opt::ADD || o == Opt::SUB || o == Opt::MUL || o == Opt::DIV || o
                == Opt::REM {
                let n1 = match args[0].number(fs, input) {
                    Err(e) => {
                        return Err(e);
                    },
                    Ok(n) => n,
                };
                let n2 = match args[1].number(fs, input) {
                    Err(e) => {
                        return Err(e);
                    },
                    Ok(n) => n,
                };
                let rr = arith(o, n1, n2);
                proof {
                    assert(spec_operator(o, sargs, fs.fmodel(), input@) == spec_arith(o, n1, n2));
                }
                return rr;
            } else if o == Opt::AND || o == Opt::OR || o == Opt::XOR || o == Opt::SHL || o
                == Opt::SHR {
                let n1 = match args[0].number(fs, input) {
                    Err(e) => {
                        return Err(e);
                    },
                    Ok(n) => n,
                };
                let n2 = match args[1].number(fs, input) {
                    Err(e) => {
                        return Err(e);
                    },
                    Ok(n) => n,
                };
                let rr = int_op(o, n1, n2);
                proof {
                    assert(spec_operator(o, sargs, fs.fmodel(), input@) == spec_int_op(o, n1, n2));
                }
                return rr;
            } else if o == Opt::GT || o == Opt::GE || o == Opt::LT || o == Opt::LE {
                let n1 = match args[0].number(fs, input) {
                    Err(e) => {
                        return Err(e);
                    },
                    Ok(n) => n,
                };
                let n2 = match args[1].number(fs, input) {
                    Err(e) => {
                        return Err(e);
                    },
                    Ok(n) => n,
                };
                let bb = compare(o, n1, n2);
                proof {
                    assert(spec_operator(o, sargs, fs.fmodel(), input@) == Ok::<SpecVal, SpecErr>(
                        SpecVal::Bool(spec_compare(o, n1, n2)),
                    ));
                }
                return Ok(Value::Bool(bb));
            } else if o == Opt::AT {
                let b1 = match args[0].bool(fs, input) {
                    Err(e) => {
                        return Err(e);
                    },
                    Ok(b) => b,
                };
                let b2 = match args[1].bool(fs, input) {
                    Err(e) => {
                        return Err(e);
                    },
                    Ok(b) => b,
                };
                proof {
                    assert(spec_operator(o, sargs, fs.fmodel(), input@) == Ok::<SpecVal, SpecErr>(
                        SpecVal::Bool(b1 && b2),
                    ));
                    assert(res_view(Ok::<Value, EvalError>(Value::Bool(b1 && b2)))
                        == spec_operator(
                        *opt,
                        crate::calc::spec_calcs_of(args@),
                        fs.fmodel(),
                        input@,
                    ));
                }
                return Ok(Value::Bool(b1 && b2));
            } else if o == Opt::OT {
                let b1 = match args[0].bool(fs, input) {
                    Err(e) => {
                        return Err(e);
                    },
                    Ok(b) => b,
                };
                if b1 {
                    proof {
                        assert(spec_operator(o, sargs, fs.fmodel(), input@) == Ok::<
                            SpecVal,
                            SpecErr,
                        >(SpecVal::Bool(true)));
                    }
                    return Ok(Value::Bool(true));
                } else {
                    let b2 = match args[1].bool(fs, input) {
                        Err(e) => {
                            return Err(e);
                        },
                        Ok(b) => b,
                    };
                    proof {
                        assert(spec_operator(o, sargs, fs.fmodel(), input@) == Ok::<
                            SpecVal,
                            SpecErr,
                        >(SpecVal::Bool(b2)));
                    }
                    return Ok(Value::Bool(b2));
                }
            } else {
                let v1 = match args[0].value(fs, input) {
                    Err(e) => {
                        return Err(e);
                    },
                    Ok(v) => v,
                };
                let v2 = match args[1].value(fs, input) {
                    Err(e) => {
                        return Err(e);
                    },
                    Ok(v) => v,
                };
                let eq = val_eq(&v1, &v2);
                proof {
                    if o == Opt::EQ {
                        assert(spec_operator(o, sargs, fs.fmodel(), input@) == Ok::<
                            SpecVal,
                            SpecErr,
                        >(SpecVal::Bool(spec_val_eq(v1@, v2@))));
                    } else {
                        assert(spec_operator(o, sargs, fs.fmodel(), input@) == Ok::<
                            SpecVal,
                            SpecErr,
                        >(SpecVal::Bool(!spec_val_eq(v1@, v2@))));
                    }
                }
                if o == Opt::EQ {
                    return Ok(Value::Bool(eq));
                } else {
                    return Ok(Value::Bool(!eq));
                }
            }
        }
    }

    /// What this predicate comes to: its boolean, with field-not-found
    /// swallowed to false at this boundary.
    pub fn when<F: FunctionSet>(&self, fs: &F, input: &Value) -> (r: Result<bool, EvalError>)
        ensures
            ({
                let sp = spec_when(self@, fs.fmodel(), input@);
                match r {
                    Ok(b) => sp == Ok::<bool, SpecErr>(b),
                    Err(e) => sp == Err::<bool, SpecErr>(e@),
                }
            }),
    {
        match self.bool(fs, input) {
            Ok(b) => Ok(b),
            Err(e) => {
                if e.is_not_found_field() {
                    Ok(false)
                } else {
                    Err(e)
                }
            },
        }
    }
}

/// Arithmetic on two coerced numbers.
fn arith(o: Opt, n1: Num, n2: Num) -> (r: Result<Value, EvalError>)
    requires
        o == Opt::ADD || o == Opt::SUB || o == Opt::MUL || o == Opt::DIV || o == Opt::REM,
    ensures
        res_view(r) == spec_arith(o, n1, n2),
{
    match (n1, n2) {
        (Num::Int(a), Num::Int(b)) => {
            if o == Opt::ADD {
                Ok(Value::Int(a.wrapping_add(b)))
            } else if o == Opt::SUB {
                Ok(Value::Int(a.wrapping_sub(b)))
            } else if o == Opt::MUL {
                Ok(Value::Int(a.wrapping_mul(b)))
            } else if o == Opt::DIV {
                match a.checked_div(b) {
                    None => Err(EvalError::DivideByZero),
                    Some(q) => Ok(Value::Int(q)),
                }
            } else {
                match a.checked_rem(b) {
                    None => Err(EvalError::DivideByZero),
                    Some(q) => Ok(Value::Int(q)),
                }
            }
        },
        (a0, b0) => {
            let a = promote_num(a0);
            let b = promote_num(b0);
            let r = if o == Opt::ADD {
                number_add(&a, &b)
            } else if o == Opt::SUB {
                number_sub(&a, &b)
            } else if o == Opt::MUL {
                number_mul(&a, &b)
            } else if o == Opt::DIV {
                number_div(&a, &b)
            } else {
                number_rem(&a, &b)
            };
            match r {
                None => Err(EvalError::BadFloatOperand),
                Some(n) => Ok(Value::Float(n)),
            }
        },
    }
}

/// The bitwise and shift operators over two coerced numbers.
fn int_op(o: Opt, n1: Num, n2: Num) -> (r: Result<Value, EvalError>)
    requires
        o == Opt::AND || o == Opt::OR || o == Opt::XOR || o == Opt::SHL || o == Opt::SHR,
    ensures
        res_view(r) == spec_int_op(o, n1, n2),
{
    match (n1, n2) {
        (Num::Int(a), Num::Int(b)) => {
            if o == Opt::AND {
                Ok(Value::Int(a & b))
            } else if o == Opt::OR {
                Ok(Value::Int(a | b))
            } else if o == Opt::XOR {
                Ok(Value::Int(a ^ b))
            } else if b < 0 || b >= 64 {
                Err(EvalError::ShiftOutOfRange)
            } else if o == Opt::SHL {
                Ok(Value::Int(a.wrapping_shl(b as u32)))
            } else {
                Ok(Value::Int(a.wrapping_shr(b as u32)))
            }
        },
        _ => Err(EvalError::BadFloatOperand),
    }
}

/// The relational operators over two coerced numbers.
fn compare(o: Opt, n1: Num, n2: Num) -> (r: bool)
    requires
        o == Opt::GT || o == Opt::GE || o == Opt::LT || o == Opt::LE,
    ensures
        r == spec_compare(o, n1, n2),
{
    match (n1, n2) {
        (Num::Int(a), Num::Int(b)) => {
            if o == Opt::GT {
                a > b
            } else if o == Opt::GE {
                a >= b
            } else if o == Opt::LT {
                a < b
            } else {
                a <= b
            }
        },
        (a0, b0) => {
            let a = promote_num(a0);
            let b = promote_num(b0);
            if o == Opt::GT {
                number_lt(&b, &a)
            } else if o == Opt::GE {
                number_le(&b, &a)
            } else if o == Opt::LT {
                number_lt(&a, &b)
            } else {
                number_le(&a, &b)
            }
        },
    }
}


/// Law: arithmetic over one float and one integer operand is
/// float-typed.  Whenever such a mixed pair computes successfully,
/// the value that comes out is a float.
pub proof fn lemma_mixed_arith_is_float(o: Opt, n1: Num, n2: Num)
    requires
        o == Opt::ADD || o == Opt::SUB || o == Opt::MUL || o == Opt::DIV || o == Opt::REM,
        (n1 is Int && n2 is Float) || (n1 is Float && n2 is Int),
    ensures
        spec_arith(o, n1, n2) is Ok ==> spec_arith(o, n1, n2)->Ok_0 is Float,
{
}

} // verus!

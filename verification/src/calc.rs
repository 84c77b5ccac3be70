//! The typed expression tree and its operator set.
//!
//! An expression compiles to one [`Calc`] node.  Twenty operator
//! symbols fall into exactly three precedence classes, low to high:
//! arithmetic, bitwise, shifts and the unary operators; then the
//! relational and equality operators; then the logical pair.  Chains
//! within one class associate strictly left to right.
use crate::num::float_fmt2;
use crate::text::string_of;
use vstd::prelude::*;

verus! {

broadcast use vstd::std_specs::vec::group_vec_axioms;

/// One of the twenty operator symbols.
#[derive(Debug, Clone, Copy, PartialEq, Eq, Structural)]
pub enum Opt {
    ADD,
    SUB,
    MUL,
    DIV,
    REM,
    AND,
    OR,
    XOR,
    NOT,
    REV,
    SHL,
    SHR,
    GT,
    GE,
    LT,
    LE,
    EQ,
    NQ,
    AT,
    OT,
}

/// The precedence class of an operator: 0 for arithmetic, bitwise,
/// shift and unary symbols, 1 for relational and equality symbols,
/// 2 for the logical pair.
pub open spec fn spec_class(o: Opt) -> int {
    match o {
        Opt::GT | Opt::GE | Opt::LT | Opt::LE | Opt::EQ | Opt::NQ => 1,
        Opt::AT | Opt::OT => 2,
        _ => 0,
    }
}

/// The text of the operator symbol.
pub open spec fn spec_opt_str(o: Opt) -> Seq<char> {
    match o {
        Opt::ADD => "+"@,
        Opt::SUB => "-"@,
        Opt::MUL => "*"@,
        Opt::DIV => "/"@,
        Opt::REM => "%"@,
        Opt::AND => "&"@,
        Opt::OR => "|"@,
        Opt::XOR => "^"@,
        Opt::NOT => "!"@,
        Opt::REV => "~"@,
        Opt::SHL => "<<"@,
        Opt::SHR => ">>"@,
        Opt::GT => ">"@,
        Opt::GE => ">="@,
        Opt::LT => "<"@,
        Opt::LE => "<="@,
        Opt::EQ => "=="@,
        Opt::NQ => "!="@,
        Opt::AT => "&&"@,
        Opt::OT => "||"@,
    }
}

impl Opt {
    /// The operator's precedence class.
    pub fn class(&self) -> (c: u8)
        ensures
            c as int == spec_class(*self),
    {
        match self {
            Opt::GT | Opt::GE | Opt::LT | Opt::LE | Opt::EQ | Opt::NQ => 1,
            Opt::AT | Opt::OT => 2,
            _ => 0,
        }
    }

    /// The operator's symbol as text.
    pub fn as_str(&self) -> (r: &'static str)
        ensures
            r@ == spec_opt_str(*self),
    {
        match self {
            Opt::ADD => "+",
            Opt::SUB => "-",
            Opt::MUL => "*",
            Opt::DIV => "/",
            Opt::REM => "%",
            Opt::AND => "&",
            Opt::OR => "|",
            Opt::XOR => "^",
            Opt::NOT => "!",
            Opt::REV => "~",
            Opt::SHL => "<<",
            Opt::SHR => ">>",
            Opt::GT => ">",
            Opt::GE => ">=",
            Opt::LT => "<",
            Opt::LE => "<=",
            Opt::EQ => "==",
            Opt::NQ => "!=",
            Opt::AT => "&&",
            Opt::OT => "||",
        }
    }
}

/// The specification-level form of an expression tree.
pub enum SpecCalc {
    Null,
    Field(Seq<char>),
    Str(Seq<char>),
    Int(i64),
    Float(serde_json::Number),
    Bool(bool),
    Array(Seq<SpecCalc>),
    Function(Seq<char>, Seq<SpecCalc>),
    Operator(Opt, Seq<SpecCalc>),
}

/// One node of an expression tree, built once when a rule is
/// registered and never changed after.
#[derive(Debug, PartialEq)]
pub enum Calc {
    NULL,
    Field(String),
    String(String),
    Number(i64),
    Float(serde_json::Number),
    Bool(bool),
    Array(Vec<Calc>),
    Function(String, Vec<Calc>),
    Operator(Opt, Vec<Calc>),
}

pub open spec fn spec_calcs_of(items: Seq<Calc>) -> Seq<SpecCalc> {
    Seq::new(items.len(), |i: int| spec_calc_of(items[i]))
}

// The index guards below keep every recursive call inside the list,
// which is what the termination measure needs.
pub open spec fn spec_calc_of(c: Calc) -> SpecCalc
    decreases c,
    via spec_calc_of_decreases
{
    match c {
        Calc::NULL => SpecCalc::Null,
        Calc::Field(s) => SpecCalc::Field(s@),
        Calc::String(s) => SpecCalc::Str(s@),
        Calc::Number(i) => SpecCalc::Int(i),
        Calc::Float(n) => SpecCalc::Float(n),
        Calc::Bool(b) => SpecCalc::Bool(b),
        Calc::Array(items) => SpecCalc::Array(
            Seq::new(
                items@.len(),
                |i: int|
                    if 0 <= i < items@.len() {
                        spec_calc_of(items@[i])
                    } else {
                        SpecCalc::Null
                    },
            ),
        ),
        Calc::Function(name, args) => SpecCalc::Function(
            name@,
            Seq::new(
                args@.len(),
                |i: int|
                    if 0 <= i < args@.len() {
                        spec_calc_of(args@[i])
                    } else {
                        SpecCalc::Null
                    },
            ),
        ),
        Calc::Operator(o, args) => SpecCalc::Operator(
            o,
            Seq::new(
                args@.len(),
                |i: int|
                    if 0 <= i < args@.len() {
                        spec_calc_of(args@[i])
                    } else {
                        SpecCalc::Null
                    },
            ),
        ),
    }
}

#[via_fn]
proof fn spec_calc_of_decreases(c: Calc) {
    broadcast use vstd::std_specs::vec::group_vec_axioms;

    match c {
        Calc::Array(items) => {
            assert forall|i: int| 0 <= i < items@.len() implies decreases_to!(c => items@[i]) by {
                assert(decreases_to!(c => items));
                assert(decreases_to!(items => items@));
                assert(decreases_to!(items@ => items@[i]));
            }
        },
        Calc::Function(name, args) => {
            assert forall|i: int| 0 <= i < args@.len() implies decreases_to!(c => args@[i]) by {
                assert(decreases_to!(c => args));
                assert(decreases_to!(args => args@));
                assert(decreases_to!(args@ => args@[i]));
            }
        },
        Calc::Operator(o, args) => {
            assert forall|i: int| 0 <= i < args@.len() implies decreases_to!(c => args@[i]) by {
                assert(decreases_to!(c => args));
                assert(decreases_to!(args => args@));
                assert(decreases_to!(args@ => args@[i]));
            }
        },
        _ => {},
    }
}

impl View for Calc {
    type V = SpecCalc;

    open spec fn view(&self) -> SpecCalc {
        spec_calc_of(*self)
    }
}

pub broadcast proof fn lemma_calc_array_view(items: Vec<Calc>)
    ensures
        #[trigger] spec_calc_of(Calc::Array(items)) == SpecCalc::Array(spec_calcs_of(items@)),
{
    let a = spec_calc_of(Calc::Array(items))->Array_0;
    assert(a =~= spec_calcs_of(items@));
}

pub broadcast proof fn lemma_calc_function_view(name: String, args: Vec<Calc>)
    ensures
        #[trigger] spec_calc_of(Calc::Function(name, args)) == SpecCalc::Function(
            name@,
            spec_calcs_of(args@),
        ),
{
    let a = spec_calc_of(Calc::Function(name, args))->Function_1;
    assert(a =~= spec_calcs_of(args@));
}

pub broadcast proof fn lemma_calc_operator_view(o: Opt, args: Vec<Calc>)
    ensures
        #[trigger] spec_calc_of(Calc::Operator(o, args)) == SpecCalc::Operator(
            o,
            spec_calcs_of(args@),
        ),
{
    let a = spec_calc_of(Calc::Operator(o, args))->Operator_1;
    assert(a =~= spec_calcs_of(args@));
}


impl Calc {
    /// A deep copy whose view is the view of the original.
    #[verifier::loop_isolation(false)]
    pub fn duplicate(&self) -> (r: Calc)
        ensures
            r@ == self@,
        decreases *self,
    {
        match self {
            Calc::NULL => Calc::NULL,
            Calc::Field(s) => Calc::Field(s.clone()),
            Calc::String(s) => Calc::String(s.clone()),
            Calc::Number(i) => Calc::Number(*i),
            Calc::Float(n) => Calc::Float(n.clone()),
            Calc::Bool(b) => Calc::Bool(*b),
            Calc::Array(items) => {
                let copy = dup_vec_arm(self, items);
                let r = Calc::Array(copy);
                proof {
                    let sa = spec_calc_of(r)->Array_0;
                    let sb = spec_calc_of(*self)->Array_0;
                    assert forall|j: int| 0 <= j < sa.len() implies sa[j] == sb[j] by {
                        assert(copy@[j]@ == spec_calc_of(copy@[j]));
                    }
                    assert(sa =~= sb);
                }
                r
            },
            Calc::Function(name, args) => {
                let copy = dup_vec_arm(self, args);
                let r = Calc::Function(name.clone(), copy);
                proof {
                    let sa = spec_calc_of(r)->Function_1;
                    let sb = spec_calc_of(*self)->Function_1;
                    assert forall|j: int| 0 <= j < sa.len() implies sa[j] == sb[j] by {
                        assert(copy@[j]@ == spec_calc_of(copy@[j]));
                    }
                    assert(sa =~= sb);
                }
                r
            },
            Calc::Operator(o, args) => {
                let copy = dup_vec_arm(self, args);
                let r = Calc::Operator(*o, copy);
                proof {
                    let sa = spec_calc_of(r)->Operator_1;
                    let sb = spec_calc_of(*self)->Operator_1;
                    assert forall|j: int| 0 <= j < sa.len() implies sa[j] == sb[j] by {
                        assert(copy@[j]@ == spec_calc_of(copy@[j]));
                    }
                    assert(sa =~= sb);
                }
                r
            },
        }
    }
}

/// A deep copy of a node list that sits inside `owner`.
#[verifier::loop_isolation(false)]
fn dup_vec_arm(owner: &Calc, items: &Vec<Calc>) -> (r: Vec<Calc>)
    requires
        decreases_to!(*owner => *items),
    ensures
        r@.len() == items@.len(),
        forall|j: int| 0 <= j < items@.len() ==> #[trigger] r@[j]@ == items@[j]@,
    decreases *owner, 0int,
{
    let mut out: Vec<Calc> = Vec::new();
    let mut i: usize = 0;
    while i < items.len()
        invariant
            i <= items.len(),
            out@.len() == i as int,
            forall|j: int| 0 <= j < i ==> #[trigger] out@[j]@ == items@[j]@,
        decreases items.len() - i,
    {
        proof {
            assert(decreases_to!(*items => items@));
            assert(decreases_to!(items@ => items@[i as int]));
        }
        out.push(items[i].duplicate());
        i = i + 1;
    }
    out
}


// ---------------------------------------------------------------------
// Textual rendering
// ---------------------------------------------------------------------
/// The decimal digit character of one digit value.
pub open spec fn spec_digit_char(d: int) -> char {
    if d == 0 {
        '0'
    } else if d == 1 {
        '1'
    } else if d == 2 {
        '2'
    } else if d == 3 {
        '3'
    } else if d == 4 {
        '4'
    } else if d == 5 {
        '5'
    } else if d == 6 {
        '6'
    } else if d == 7 {
        '7'
    } else if d == 8 {
        '8'
    } else {
        '9'
    }
}

/// The decimal digits of a non-negative number, most significant
/// first.
pub open spec fn spec_udec(n: int) -> Seq<char>
    decreases n,
    when n >= 0
    via spec_udec_decreases
{
    if n < 10 {
        seq![spec_digit_char(n)]
    } else {
        spec_udec(n / 10).push(spec_digit_char(n % 10))
    }
}

#[via_fn]
proof fn spec_udec_decreases(n: int) {
    if n >= 10 {
        assert(n / 10 < n) by (nonlinear_arith)
            requires
                n >= 10,
        ;
    }
}

/// The decimal rendering of a 64-bit integer, a minus sign first when
/// it is negative.
pub open spec fn spec_int_text(i: i64) -> Seq<char> {
    if i < 0 {
        "-"@ + spec_udec(-(i as int))
    } else {
        spec_udec(i as int)
    }
}

/// How one tree renders: each literal as itself (floats at fixed
/// two-decimal precision), lists bracketed and comma-separated, a
/// call as its name over its arguments, and an operator node
/// parenthesized with the symbol before one operand, between two, or
/// before the comma-separated operands of a malformed node.
pub open spec fn spec_render(c: SpecCalc) -> Seq<char>
    decreases c, 2int,
    via spec_render_decreases
{
    match c {
        SpecCalc::Null => "null"@,
        SpecCalc::Field(p) => p,
        SpecCalc::Str(t) => "\""@ + t + "\""@,
        SpecCalc::Int(i) => spec_int_text(i),
        SpecCalc::Float(n) => float_fmt2(n),
        SpecCalc::Bool(b) => if b {
            "true"@
        } else {
            "false"@
        },
        SpecCalc::Array(items) => "["@ + spec_render_list(items) + "]"@,
        SpecCalc::Function(name, args) => name + "("@ + spec_render_list(args) + ")"@,
        SpecCalc::Operator(o, args) => {
            if args.len() == 1 {
                "("@ + spec_opt_str(o) + " "@ + spec_render(args[0]) + ")"@
            } else if args.len() == 2 {
                "("@ + spec_render(args[0]) + " "@ + spec_opt_str(o) + " "@ + spec_render(
                    args[1],
                ) + ")"@
            } else {
                "("@ + spec_opt_str(o) + " "@ + spec_render_list(args) + ")"@
            }
        },
    }
}

/// The renderings of a node list, comma-separated.
pub open spec fn spec_render_list(items: Seq<SpecCalc>) -> Seq<char>
    decreases items, 1int,
    via spec_render_list_decreases
{
    if items.len() == 0 {
        Seq::empty()
    } else {
        spec_render(items[0]) + spec_render_tail(items.drop_first())
    }
}

/// The renderings after the first, each behind its comma.
pub open spec fn spec_render_tail(items: Seq<SpecCalc>) -> Seq<char>
    decreases items, 0int,
    via spec_render_tail_decreases
{
    if items.len() == 0 {
        Seq::empty()
    } else {
        ","@ + spec_render(items[0]) + spec_render_tail(items.drop_first())
    }
}

#[via_fn]
proof fn spec_render_decreases(c: SpecCalc) {
    match c {
        SpecCalc::Operator(o, args) => {
            if args.len() == 1 || args.len() == 2 {
                assert(decreases_to!(c => args));
                assert(decreases_to!(args => args[0]));
                if args.len() == 2 {
                    assert(decreases_to!(args => args[1]));
                }
            }
        },
        _ => {},
    }
}

#[via_fn]
proof fn spec_render_list_decreases(items: Seq<SpecCalc>) {
    if items.len() > 0 {
        assert(decreases_to!(items => items[0]));
    }
}

#[via_fn]
proof fn spec_render_tail_decreases(items: Seq<SpecCalc>) {
    if items.len() > 0 {
        assert(decreases_to!(items => items[0]));
    }
}

/// The decimal digit character of one digit value.
fn digit_char(d: u64) -> (c: char)
    requires
        d < 10,
    ensures
        c == spec_digit_char(d as int),
{
    if d == 0 {
        '0'
    } else if d == 1 {
        '1'
    } else if d == 2 {
        '2'
    } else if d == 3 {
        '3'
    } else if d == 4 {
        '4'
    } else if d == 5 {
        '5'
    } else if d == 6 {
        '6'
    } else if d == 7 {
        '7'
    } else if d == 8 {
        '8'
    } else {
        '9'
    }
}

/// The decimal digits of a non-negative number.
#[verifier::loop_isolation(false)]
fn udec_text(u0: u64) -> (r: Vec<char>)
    ensures
        r@ == spec_udec(u0 as int),
{
    let mut digits: Vec<char> = Vec::new();
    let mut n = u0;
    loop
        invariant
            spec_udec(u0 as int) =~= spec_udec(n as int) + digits@,
        decreases n,
    {
        let ghost before = digits@;
        let d = n % 10;
        digits.insert(0, digit_char(d));
        proof {
            assert(digits@ =~= seq![spec_digit_char(d as int)] + before);
        }
        if n < 10 {
            proof {
                assert(spec_udec(n as int) =~= seq![spec_digit_char(d as int)]);
                assert(spec_udec(u0 as int) =~= digits@);
            }
            return digits;
        }
        let n2 = n / 10;
        proof {
            assert(n2 < n) by (nonlinear_arith)
                requires
                    n >= 10,
                    n2 == n / 10,
            ;
            assert(spec_udec(n as int) =~= spec_udec(n2 as int).push(spec_digit_char(d as int)));
            assert(spec_udec(n2 as int).push(spec_digit_char(d as int)) + before =~= spec_udec(
                n2 as int,
            ) + digits@);
        }
        n = n2;
    }
}

/// The decimal rendering of a 64-bit integer.
fn int_text(i: i64) -> (r: String)
    ensures
        r@ == spec_int_text(i),
{
    if i >= 0 {
        let u = i as u64;
        let ds = udec_text(u);
        string_of(&ds)
    } else {
        let u: u64 = ((-(i + 1)) as u64) + 1;
        proof {
            assert(u as int == -(i as int));
        }
        let ds = udec_text(u);
        let tail = string_of(&ds);
        let r = String::from_str("-").concat(tail.as_str());
        proof {
            assert(r@ =~= spec_int_text(i));
        }
        r
    }
}

impl Calc {
    /// The tree rendered as text, lossily: floats always show at
    /// fixed two-decimal precision, exactly as [`spec_render`] says.
    #[verifier::loop_isolation(false)]
    pub fn to_string(&self) -> (r: String)
        ensures
            r@ == spec_render(self@),
        decreases *self, 1int,
    {
        match self {
            Calc::NULL => "null".to_owned(),
            Calc::Field(s) => s.clone(),
            Calc::String(s) => {
                let r = String::from_str("\"").concat(s.as_str()).concat("\"");
                proof {
                    assert(r@ =~= spec_render(self@));
                }
                r
            },
            Calc::Number(n) => int_text(*n),
            Calc::Float(f) => crate::num::number_fmt2(f),
            Calc::Bool(b) => if *b {
                "true".to_owned()
            } else {
                "false".to_owned()
            },
            Calc::Array(items) => {
                proof {
                    crate::calc::lemma_calc_array_view(*items);
                    assert(decreases_to!(*self => (*self)->Array_0));
                    assert(decreases_to!(*items => items@));
                }
                let body = join_texts(self, items);
                let r = String::from_str("[").concat(body.as_str()).concat("]");
                proof {
                    assert(r@ =~= spec_render(self@));
                }
                r
            },
            Calc::Function(name, args) => {
                proof {
                    crate::calc::lemma_calc_function_view(*name, *args);
                    assert(decreases_to!(*self => (*self)->Function_1));
                    assert(decreases_to!(*args => args@));
                }
                let body = join_texts(self, args);
                let r = name.clone().concat("(").concat(body.as_str()).concat(")");
                proof {
                    assert(r@ =~= spec_render(self@));
                }
                r
            },
            Calc::Operator(o, args) => {
                proof {
                    crate::calc::lemma_calc_operator_view(*o, *args);
                    assert(decreases_to!(*self => (*self)->Operator_1));
                    assert(decreases_to!(*args => args@));
                }
                if args.len() == 1 {
                    proof {
                        assert(decreases_to!(args@ => args@[0]));
                        assert(spec_calcs_of(args@)[0] == args@[0]@);
                    }
                    let a = args[0].to_string();
                    let r = String::from_str("(").concat(o.as_str()).concat(" ").concat(
                        a.as_str(),
                    ).concat(")");
                    proof {
                        assert(r@ =~= spec_render(self@));
                    }
                    r
                } else if args.len() == 2 {
                    proof {
                        assert(decreases_to!(args@ => args@[0]));
                        assert(decreases_to!(args@ => args@[1]));
                        assert(spec_calcs_of(args@)[0] == args@[0]@);
                        assert(spec_calcs_of(args@)[1] == args@[1]@);
                    }
                    let a = args[0].to_string();
                    let b = args[1].to_string();
                    let r = String::from_str("(").concat(a.as_str()).concat(" ").concat(
                        o.as_str(),
                    ).concat(" ").concat(b.as_str()).concat(")");
                    proof {
                        assert(r@ =~= spec_render(self@));
                    }
                    r
                } else {
                    let body = join_texts(self, args);
                    let r = String::from_str("(").concat(o.as_str()).concat(" ").concat(
                        body.as_str(),
                    ).concat(")");
                    proof {
                        assert(r@ =~= spec_render(self@));
                    }
                    r
                }
            },
        }
    }
}

/// The nodes of a list rendered comma-separated.
#[verifier::loop_isolation(false)]
fn join_texts(owner: &Calc, items: &Vec<Calc>) -> (r: String)
    requires
        decreases_to!(*owner => items@),
    ensures
        r@ == spec_render_list(spec_calcs_of(items@)),
    decreases *owner, 0int,
{
    let ghost sl = spec_calcs_of(items@);
    let mut out = String::new();
    let mut i: usize = 0;
    while i < items.len()
        invariant
            i <= items@.len(),
            sl == spec_calcs_of(items@),
            i == 0 ==> out@ == Seq::<char>::empty(),
            i > 0 ==> spec_render_list(sl) == out@ + spec_render_tail(sl.skip(i as int)),
        decreases items.len() - i,
    {
        let ghost before = out@;
        proof {
            assert(decreases_to!(items@ => items@[i as int]));
            assert(sl[i as int] == items@[i as int]@);
            if i > 0 {
                assert(sl.skip(i as int)[0] == sl[i as int]);
                assert(sl.skip(i as int).drop_first() =~= sl.skip(i as int + 1));
            } else {
                assert(sl.drop_first() =~= sl.skip(1));
            }
        }
        if i != 0 {
            out.append(",");
        }
        let t = items[i].to_string();
        out.append(t.as_str());
        proof {
            if i == 0 {
                assert(out@ =~= spec_render(sl[0]));
                assert(spec_render_list(sl) =~= out@ + spec_render_tail(sl.skip(1)));
            } else {
                assert(out@ =~= before + (","@ + spec_render(sl[i as int])));
                assert(before + (","@ + spec_render(sl[i as int]) + spec_render_tail(
                    sl.skip(i as int + 1),
                )) =~= out@ + spec_render_tail(sl.skip(i as int + 1)));
                assert(spec_render_list(sl) =~= out@ + spec_render_tail(sl.skip(i as int + 1)));
            }
        }
        i = i + 1;
    }
    proof {
        if items@.len() == 0 {
            assert(out@ =~= spec_render_list(sl));
        } else {
            assert(sl.skip(items@.len() as int) =~= Seq::<SpecCalc>::empty());
            assert(out@ + Seq::<char>::empty() =~= out@);
        }
    }
    out
}

} // verus!

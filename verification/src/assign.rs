//! The assignment writer.
//!
//! An assignment holds named expressions keyed by dotted output
//! paths.  Applying it evaluates each expression against the input
//! and writes the value into the growing output mapping, creating
//! missing intermediate mappings along the path; a non-mapping met on
//! the way is an error, and so is a non-mapping output.
use crate::calc::Calc;
use crate::calc::SpecCalc;
use crate::calc::spec_calc_of;
use crate::error::EvalError;
use crate::error::ParseError;
use crate::error::SpecErr;
use crate::eval::FunctionSet;
use crate::eval::SpecCallOut;
use crate::eval::spec_value;
use crate::eval::split_dots_from;
use crate::lex::scan_char;
use crate::text::chars_of;
use crate::text::string_of_range;
use crate::value::SpecVal;
use crate::value::Value;
use crate::value::spec_fields_of;
use crate::value::spec_obj_lookup;
use crate::value::str_eq;
use vstd::prelude::*;

verus! {

broadcast use vstd::std_specs::vec::group_vec_axioms;

/// The mapping with `key` bound to `v`: the first pair carrying the
/// key is replaced in place, or a new pair goes at the end.
pub open spec fn obj_set(
    fields: Seq<(Seq<char>, SpecVal)>,
    key: Seq<char>,
    v: SpecVal,
) -> Seq<(Seq<char>, SpecVal)>
    decreases fields.len(),
{
    if fields.len() == 0 {
        seq![(key, v)]
    } else if fields[0].0 == key {
        seq![(key, v)] + fields.drop_first()
    } else {
        seq![fields[0]] + obj_set(fields.drop_first(), key, v)
    }
}

/// The output with `v` written at the path `keys`: intermediate
/// mappings are created where missing, and a non-mapping met on the
/// way refuses the write.
pub open spec fn spec_insert(keys: Seq<Seq<char>>, v: SpecVal, out: SpecVal) -> Option<SpecVal>
    decreases keys.len(),
{
    match out {
        SpecVal::Object(fields) => {
            if keys.len() == 0 {
                None
            } else if keys.len() == 1 {
                Some(SpecVal::Object(obj_set(fields, keys[0], v)))
            } else {
                let child0 = match spec_obj_lookup(fields, keys[0]) {
                    None => SpecVal::Object(Seq::empty()),
                    Some(c) => c,
                };
                if !(child0 is Object) {
                    None
                } else {
                    match spec_insert(keys.drop_first(), v, child0) {
                        None => None,
                        Some(nc) => Some(SpecVal::Object(obj_set(fields, keys[0], nc))),
                    }
                }
            }
        },
        _ => None,
    }
}

/// What applying a pair list to an output comes to: each expression
/// evaluated against the input, its value written at its path, first
/// error wins.
pub open spec fn spec_assign(
    pairs: Seq<(Seq<char>, SpecCalc)>,
    f: spec_fn(Seq<char>, Seq<SpecVal>) -> SpecCallOut,
    input: SpecVal,
    out: SpecVal,
) -> Result<SpecVal, SpecErr>
    decreases pairs.len(),
{
    if pairs.len() == 0 {
        Ok(out)
    } else {
        match spec_value(pairs[0].1, f, input) {
            Err(e) => Err(e),
            Ok(v) => match spec_insert(split_dots_from(pairs[0].0, 0), v, out) {
                None => Err(SpecErr::OutputNotObject),
                Some(out2) => spec_assign(pairs.drop_first(), f, input, out2),
            },
        }
    }
}

/// The output as it stands after a run over the pair list, whether
/// the run succeeded or stopped: the writes made before the first
/// failing pair remain, and nothing of the failing pair itself.
pub open spec fn spec_assign_state(
    pairs: Seq<(Seq<char>, SpecCalc)>,
    f: spec_fn(Seq<char>, Seq<SpecVal>) -> SpecCallOut,
    input: SpecVal,
    out: SpecVal,
) -> SpecVal
    decreases pairs.len(),
{
    if pairs.len() == 0 {
        out
    } else {
        match spec_value(pairs[0].1, f, input) {
            Err(_) => out,
            Ok(v) => match spec_insert(split_dots_from(pairs[0].0, 0), v, out) {
                None => out,
                Some(out2) => spec_assign_state(pairs.drop_first(), f, input, out2),
            },
        }
    }
}

/// What a `then` text compiles to, from position `start` on, with
/// `acc` already gathered: semicolon-separated pieces, whitespace
/// trimmed, blank pieces skipped; every other piece must hold `=`,
/// its left side trimmed is the path, its right side compiles as an
/// expression, and the pair lands in `acc` replacing an earlier pair
/// of the same path in place.
pub open spec fn spec_parse_assign(
    s: Seq<char>,
    start: int,
    acc: Seq<(Seq<char>, SpecCalc)>,
) -> Option<Seq<(Seq<char>, SpecCalc)>>
    decreases s.len() - start,
    when 0 <= start <= s.len()
    via spec_parse_assign_decreases
{
    let pe = match crate::lex::find_char(s, start, ';') {
        None => s.len() as int,
        Some(j) => j,
    };
    let a = skip_ws(s, start, pe);
    let b = rskip_ws(s, a, pe);
    let step = if a < b {
        match crate::lex::find_char(s, a, '=') {
            Some(j) => if j < b {
                let ka = skip_ws(s, a, j);
                let kb = rskip_ws(s, ka, j);
                match crate::parse::spec_expression(s.subrange(j + 1, b)) {
                    None => None,
                    Some(c) => Some(obj_set_calc(acc, s.subrange(ka, kb), c)),
                }
            } else {
                None
            },
            None => None,
        }
    } else {
        Some(acc)
    };
    match step {
        None => None,
        Some(acc2) => if pe >= s.len() {
            Some(acc2)
        } else {
            spec_parse_assign(s, pe + 1, acc2)
        },
    }
}

#[via_fn]
proof fn spec_parse_assign_decreases(s: Seq<char>, start: int, acc: Seq<(Seq<char>, SpecCalc)>) {
    crate::lex::lemma_find_char(s, start, ';');
}

/// Named output assignments: one expression per dotted output path,
/// applied in the order the pairs were added.
#[derive(Debug)]
pub struct Assign {
    execs: Vec<(String, Calc)>,
}

pub open spec fn spec_pairs_of(s: Seq<(String, Calc)>) -> Seq<(Seq<char>, SpecCalc)> {
    Seq::new(s.len(), |i: int| (s[i].0@, spec_calc_of(s[i].1)))
}

impl View for Assign {
    type V = Seq<(Seq<char>, SpecCalc)>;

    closed spec fn view(&self) -> Seq<(Seq<char>, SpecCalc)> {
        spec_pairs_of(self.execs@)
    }
}

/// The first position carrying `key`, if any.
#[verifier::loop_isolation(false)]
fn find_key(fields: &Vec<(String, Value)>, key: &str) -> (r: Option<usize>)
    ensures
        match r {
            Some(p) => p < fields@.len() && fields@[p as int].0@ == key@ && forall|j: int|
                0 <= j < p ==> (#[trigger] fields@[j]).0@ != key@,
            None => forall|j: int| 0 <= j < fields@.len() ==> (#[trigger] fields@[j]).0@ != key@,
        },
{
    let mut i: usize = 0;
    while i < fields.len()
        invariant
            i <= fields.len(),
            forall|j: int| 0 <= j < i ==> (#[trigger] fields@[j]).0@ != key@,
        decreases fields.len() - i,
    {
        if str_eq(fields[i].0.as_str(), key) {
            return Some(i);
        }
        i = i + 1;
    }
    None
}

proof fn lemma_obj_set_found(
    fields: Seq<(Seq<char>, SpecVal)>,
    key: Seq<char>,
    v: SpecVal,
    pos: int,
)
    requires
        0 <= pos < fields.len(),
        fields[pos].0 == key,
        forall|j: int| 0 <= j < pos ==> (#[trigger] fields[j]).0 != key,
    ensures
        obj_set(fields, key, v) =~= fields.update(pos, (key, v)),
    decreases pos,
{
    if pos == 0 {
        assert(obj_set(fields, key, v) =~= fields.update(0, (key, v)));
    } else {
        assert(fields.drop_first()[pos - 1].0 == key);
        assert(forall|j: int| 0 <= j < pos - 1 ==> (#[trigger] fields.drop_first()[j]).0 != key);
        lemma_obj_set_found(fields.drop_first(), key, v, pos - 1);
        assert(seq![fields[0]] + fields.drop_first().update(pos - 1, (key, v)) =~= fields.update(
            pos,
            (key, v),
        ));
    }
}

proof fn lemma_obj_set_missing(fields: Seq<(Seq<char>, SpecVal)>, key: Seq<char>, v: SpecVal)
    requires
        forall|j: int| 0 <= j < fields.len() ==> (#[trigger] fields[j]).0 != key,
    ensures
        obj_set(fields, key, v) =~= fields.push((key, v)),
    decreases fields.len(),
{
    if fields.len() > 0 {
        lemma_obj_set_missing(fields.drop_first(), key, v);
        assert(seq![fields[0]] + fields.drop_first().push((key, v)) =~= fields.push((key, v)));
    }
}

/// Writes `v` at the path segments from `idx` on into `out`; when a
/// non-mapping refuses the write, the output comes back unchanged.
#[verifier::loop_isolation(false)]
fn insert_rec(segs: &Vec<String>, idx: usize, v: Value, out: Value) -> (r: Result<Value, Value>)
    requires
        idx < segs@.len(),
    ensures
        ({
            let keys = Seq::new((segs@.len() - idx as int) as nat, |i: int| segs@[idx + i]@);
            match r {
                Ok(nout) => spec_insert(keys, v@, out@) == Some(nout@),
                Err(orig) => spec_insert(keys, v@, out@) is None && orig@ == out@,
            }
        }),
    decreases segs@.len() - idx,
{
    let ghost keys = Seq::new((segs@.len() - idx as int) as nat, |i: int| segs@[idx + i]@);
    match out {
        Value::Object(mut fields) => {
            proof {
                crate::value::lemma_object_view(fields);
                assert(Value::Object(fields)@->Object_0 == spec_fields_of(fields@));
            }
            let ghost sf = spec_fields_of(fields@);
            let key = &segs[idx];
            let pos = find_key(&fields, key.as_str());
            if idx == segs.len() - 1 {
                let ghost vv = v@;
                match pos {
                    Some(p) => {
                        proof {
                            assert(sf[p as int].0 == key@);
                            assert(forall|j: int|
                                0 <= j < p ==> (#[trigger] sf[j]).0 != key@);
                            lemma_obj_set_found(sf, key@, vv, p as int);
                        }
                        fields.remove(p);
                        fields.insert(p, (key.clone(), v));
                        let nout = Value::Object(fields);
                        proof {
                            crate::value::lemma_object_view(nout->Object_0);
                            assert(nout@->Object_0 =~= sf.update(p as int, (key@, vv)));
                            assert(keys[0] == segs@[idx as int]@);
                        }
                        return Ok(nout);
                    },
                    None => {
                        proof {
                            assert(forall|j: int|
                                0 <= j < sf.len() ==> (#[trigger] sf[j]).0 != key@);
                            lemma_obj_set_missing(sf, key@, vv);
                        }
                        fields.push((key.clone(), v));
                        let nout = Value::Object(fields);
                        proof {
                            crate::value::lemma_object_view(nout->Object_0);
                            assert(nout@->Object_0 =~= sf.push((key@, vv)));
                            assert(keys[0] == segs@[idx as int]@);
                        }
                        return Ok(nout);
                    },
                }
            } else {
                proof {
                    assert(keys[0] == segs@[idx as int]@);
                    assert(keys.drop_first() =~= Seq::new(
                        (segs@.len() - idx as int - 1) as nat,
                        |i: int| segs@[idx + 1 + i]@,
                    ));
                }
                match pos {
                    Some(p) => {
                        proof {
                            assert(sf[p as int].0 == key@);
                            assert(forall|j: int|
                                0 <= j < p ==> (#[trigger] sf[j]).0 != key@);
                            crate::value::lemma_obj_lookup_found(sf, key@, p as int);
                        }
                        let existing_is_obj = match &fields[p].1 {
                            Value::Object(_) => true,
                            _ => false,
                        };
                        if !existing_is_obj {
                            let orig = Value::Object(fields);
                            proof {
                                crate::value::lemma_object_view(orig->Object_0);
                                assert(orig@ == out@);
                            }
                            return Err(orig);
                        }
                        let pair = fields.remove(p);
                        let ghost childv = pair.1@;
                        match insert_rec(segs, idx + 1, v, pair.1) {
                            Err(oc) => {
                                fields.insert(p, (key.clone(), oc));
                                let orig = Value::Object(fields);
                                proof {
                                    crate::value::lemma_object_view(orig->Object_0);
                                    assert(orig@->Object_0 =~= sf);
                                    assert(orig@ == out@);
                                }
                                return Err(orig);
                            },
                            Ok(nc) => {
                                let ghost ncv = nc@;
                                proof {
                                    lemma_obj_set_found(sf, key@, ncv, p as int);
                                }
                                fields.insert(p, (key.clone(), nc));
                                let nout = Value::Object(fields);
                                proof {
                                    crate::value::lemma_object_view(nout->Object_0);
                                    assert(nout@->Object_0 =~= sf.update(p as int, (key@, ncv)));
                                }
                                return Ok(nout);
                            },
                        }
                    },
                    None => {
                        proof {
                            assert(forall|j: int|
                                0 <= j < sf.len() ==> (#[trigger] sf[j]).0 != key@);
                            crate::value::lemma_obj_lookup_missing(sf, key@);
                        }
                        let child = Value::Object(Vec::new());
                        proof {
                            assert(child@->Object_0 =~= Seq::<(Seq<char>, SpecVal)>::empty());
                            assert(child@ == SpecVal::Object(
                                Seq::<(Seq<char>, SpecVal)>::empty(),
                            ));
                        }
                        match insert_rec(segs, idx + 1, v, child) {
                            Err(_) => {
                                let orig = Value::Object(fields);
                                proof {
                                    crate::value::lemma_object_view(orig->Object_0);
                                    assert(orig@ == out@);
                                }
                                return Err(orig);
                            },
                            Ok(nc) => {
                                let ghost ncv = nc@;
                                proof {
                                    lemma_obj_set_missing(sf, key@, ncv);
                                }
                                fields.push((key.clone(), nc));
                                let nout = Value::Object(fields);
                                proof {
                                    crate::value::lemma_object_view(nout->Object_0);
                                    assert(nout@->Object_0 =~= sf.push((key@, ncv)));
                                }
                                return Ok(nout);
                            },
                        }
                    },
                }
            }
        },
        other => Err(other),
    }
}

/// The path split on dots, as owned segments.
#[verifier::loop_isolation(false)]
fn split_path(chars: &Vec<char>) -> (r: Vec<String>)
    ensures
        ({
            let segs = split_dots_from(chars@, 0);
            r@.len() == segs.len() && forall|i: int| 0 <= i < segs.len() ==> r@[i]@ == segs[i]
        }),
{
    let n = chars.len();
    let mut out: Vec<String> = Vec::new();
    let mut start: usize = 0;
    loop
        invariant
            start <= n,
            n == chars@.len(),
            ({
                let whole = split_dots_from(chars@, 0);
                let rest = split_dots_from(chars@, start as int);
                whole.len() == out@.len() + rest.len() && (forall|i: int|
                    0 <= i < out@.len() ==> whole[i] == #[trigger] out@[i]@) && (forall|i: int|
                    0 <= i < rest.len() ==> whole[out@.len() + i] == #[trigger] rest[i])
            }),
        decreases n - start,
    {
        match scan_char(chars, start, '.') {
            None => {
                let seg = string_of_range(chars, start, n);
                proof {
                    let whole = split_dots_from(chars@, 0);
                    let rest = split_dots_from(chars@, start as int);
                    assert(rest == seq![chars@.subrange(start as int, n as int)]);
                    assert(rest[0] == seg@);
                    assert(whole[out@.len() as int] == seg@);
                }
                out.push(seg);
                return out;
            },
            Some(j) => {
                let seg = string_of_range(chars, start, j);
                proof {
                    let whole = split_dots_from(chars@, 0);
                    let rest = split_dots_from(chars@, start as int);
                    let rest2 = split_dots_from(chars@, j as int + 1);
                    assert(rest == seq![chars@.subrange(start as int, j as int)] + rest2);
                    assert(rest[0] == seg@);
                    assert forall|i: int| 0 <= i < rest2.len() implies whole[out@.len() + 1 + i]
                        == #[trigger] rest2[i] by {
                        assert(rest[1 + i] == rest2[i]);
                    }
                }
                out.push(seg);
                start = j + 1;
            },
        }
    }
}

impl Assign {
    /// An empty assignment set.
    pub fn new() -> (r: Assign)
        ensures
            r@ =~= Seq::<(Seq<char>, SpecCalc)>::empty(),
    {
        Assign { execs: Vec::new() }
    }

    /// The same assignments with `key` bound to `expr`: an existing
    /// pair under the key is replaced in place, a new one goes last.
    #[verifier::loop_isolation(false)]
    pub fn add_exec(self, key: &str, expr: Calc) -> (r: Assign)
        ensures
            r@ =~= obj_set_calc(self@, key@, expr@),
    {
        let Assign { mut execs } = self;
        let ghost before = spec_pairs_of(execs@);
        let mut i: usize = 0;
        while i < execs.len()
            invariant
                i <= execs@.len(),
                before == spec_pairs_of(execs@),
                forall|j: int| 0 <= j < i ==> (#[trigger] before[j]).0 != key@,
            decreases execs@.len() - i,
        {
            if str_eq(execs[i].0.as_str(), key) {
                proof {
                    lemma_calc_set_found(before, key@, expr@, i as int);
                }
                execs.remove(i);
                execs.insert(i, (key.to_owned(), expr));
                let r = Assign { execs };
                proof {
                    assert(r@ =~= before.update(i as int, (key@, spec_calc_of(expr))));
                }
                return r;
            }
            i = i + 1;
        }
        proof {
            lemma_calc_set_missing(before, key@, expr@);
        }
        execs.push((key.to_owned(), expr));
        let r = Assign { execs };
        proof {
            assert(r@ =~= before.push((key@, spec_calc_of(expr))));
        }
        r
    }

    /// Applies every assignment to the output, in order: each
    /// expression evaluated against the input, its value written at
    /// its dotted path.  The first error aborts; the writes made
    /// before the failing pair remain in the output, and nothing of
    /// the failing pair itself.
    #[verifier::loop_isolation(false)]
    pub fn execute<F: FunctionSet>(&self, fs: &F, input: &Value, output: &mut Value) -> (r: Result<
        (),
        EvalError,
    >)
        ensures
            final (output)@ == spec_assign_state(self@, fs.fmodel(), input@, old(output)@),
            match r {
                Ok(_) => spec_assign(self@, fs.fmodel(), input@, old(output)@) == Ok::<
                    SpecVal,
                    SpecErr,
                >(final (output)@),
                Err(e) => spec_assign(self@, fs.fmodel(), input@, old(output)@) == Err::<
                    SpecVal,
                    SpecErr,
                >(e@),
            },
    {
        let ghost pairs = self@;
        let ghost fm = fs.fmodel();
        let mut cur = Value::Null;
        core::mem::swap(output, &mut cur);
        let mut k: usize = 0;
        proof {
            assert(pairs.skip(0) =~= pairs);
        }
        let n = self.execs.len();
        while k < n
            invariant
                k <= n,
                n == self.execs@.len(),
                pairs == self@,
                spec_assign(pairs, fm, input@, old(output)@) == spec_assign(
                    pairs.skip(k as int),
                    fm,
                    input@,
                    cur@,
                ),
                spec_assign_state(pairs, fm, input@, old(output)@) == spec_assign_state(
                    pairs.skip(k as int),
                    fm,
                    input@,
                    cur@,
                ),
            decreases n - k,
        {
            let ghost tail = pairs.skip(k as int);
            proof {
                assert(tail[0] == pairs[k as int]);
                assert(tail.drop_first() =~= pairs.skip(k as int + 1));
            }
            let val = match self.execs[k].1.value(fs, input) {
                Err(e) => {
                    *output = cur;
                    return Err(e);
                },
                Ok(v) => v,
            };
            let chars = chars_of(self.execs[k].0.as_str());
            let segs = split_path(&chars);
            proof {
                assert(Seq::new((segs@.len() - 0) as nat, |i: int| segs@[0 + i]@) =~= split_dots_from(
                    chars@,
                    0,
                ));
            }
            match insert_rec(&segs, 0, val, cur) {
                Err(orig) => {
                    *output = orig;
                    return Err(EvalError::OutputNotObject);
                },
                Ok(nout) => {
                    cur = nout;
                },
            }
            k = k + 1;
        }
        proof {
            assert(pairs.skip(n as int) =~= Seq::<(Seq<char>, SpecCalc)>::empty());
        }
        *output = cur;
        Ok(())
    }

    /// The assignments of a `then` text: semicolon-separated pieces,
    /// each `path = expression`, empty pieces skipped, exactly as
    /// [`spec_parse_assign`] says.
    #[verifier::loop_isolation(false)]
    pub fn from_text(s: &str) -> (r: Result<Assign, ParseError>)
        ensures
            match r {
                Ok(a) => spec_parse_assign(s@, 0, Seq::empty()) == Some(a@),
                Err(_) => spec_parse_assign(s@, 0, Seq::empty()) is None,
            },
    {
        let chars = chars_of(s);
        let ghost cs = chars@;
        let n = chars.len();
        let mut assign = Assign::new();
        let mut start: usize = 0;
        proof {
            assert(assign@ =~= Seq::<(Seq<char>, SpecCalc)>::empty());
        }
        loop
            invariant
                start <= n,
                n == cs.len(),
                cs == chars@,
                cs == s@,
                spec_parse_assign(cs, 0, Seq::empty()) == spec_parse_assign(
                    cs,
                    start as int,
                    assign@,
                ),
            decreases n - start,
        {
            let piece_end = match scan_char(&chars, start, ';') {
                None => n,
                Some(j) => j,
            };
            let (a, b) = trim_ws(&chars, start, piece_end);
            if a < b {
                let eq = match scan_char(&chars, a, '=') {
                    Some(j) if j < b => j,
                    _ => {
                        return Err(ParseError::AssignFormat);
                    },
                };
                let (ka, kb) = trim_ws(&chars, a, eq);
                let key = string_of_range(&chars, ka, kb);
                let etext = string_of_range(&chars, eq + 1, b);
                let calc = match Calc::expression_parse(etext) {
                    Err(e) => {
                        return Err(e);
                    },
                    Ok(c) => c,
                };
                assign = assign.add_exec(key.as_str(), calc);
            }
            if piece_end >= n {
                return Ok(assign);
            }
            start = piece_end + 1;
        }
    }
}

/// The pair list with `key` bound to `expr`, first match replaced in
/// place or a new pair at the end.
pub open spec fn obj_set_calc(
    pairs: Seq<(Seq<char>, SpecCalc)>,
    key: Seq<char>,
    c: SpecCalc,
) -> Seq<(Seq<char>, SpecCalc)>
    decreases pairs.len(),
{
    if pairs.len() == 0 {
        seq![(key, c)]
    } else if pairs[0].0 == key {
        seq![(key, c)] + pairs.drop_first()
    } else {
        seq![pairs[0]] + obj_set_calc(pairs.drop_first(), key, c)
    }
}

proof fn lemma_calc_set_found(pairs: Seq<(Seq<char>, SpecCalc)>, key: Seq<char>, c: SpecCalc, pos: int)
    requires
        0 <= pos < pairs.len(),
        pairs[pos].0 == key,
        forall|j: int| 0 <= j < pos ==> (#[trigger] pairs[j]).0 != key,
    ensures
        obj_set_calc(pairs, key, c) =~= pairs.update(pos, (key, c)),
    decreases pos,
{
    if pos == 0 {
        assert(obj_set_calc(pairs, key, c) =~= pairs.update(0, (key, c)));
    } else {
        assert(pairs.drop_first()[pos - 1].0 == key);
        assert(forall|j: int| 0 <= j < pos - 1 ==> (#[trigger] pairs.drop_first()[j]).0 != key);
        lemma_calc_set_found(pairs.drop_first(), key, c, pos - 1);
        assert(seq![pairs[0]] + pairs.drop_first().update(pos - 1, (key, c)) =~= pairs.update(
            pos,
            (key, c),
        ));
    }
}

proof fn lemma_calc_set_missing(pairs: Seq<(Seq<char>, SpecCalc)>, key: Seq<char>, c: SpecCalc)
    requires
        forall|j: int| 0 <= j < pairs.len() ==> (#[trigger] pairs[j]).0 != key,
    ensures
        obj_set_calc(pairs, key, c) =~= pairs.push((key, c)),
    decreases pairs.len(),
{
    if pairs.len() > 0 {
        lemma_calc_set_missing(pairs.drop_first(), key, c);
        assert(seq![pairs[0]] + pairs.drop_first().push((key, c)) =~= pairs.push((key, c)));
    }
}

/// Whether a character is assignment-text whitespace.
pub open spec fn is_ws(c: char) -> bool {
    c == ' ' || c == '\r' || c == '\n' || c == '\t'
}

/// The first position at or after `i`, below `hi`, that is not
/// whitespace.
pub open spec fn skip_ws(s: Seq<char>, i: int, hi: int) -> int
    decreases hi - i,
    when 0 <= i <= hi <= s.len()
{
    if i < hi && is_ws(s[i]) {
        skip_ws(s, i + 1, hi)
    } else {
        i
    }
}

/// The position after the last non-whitespace below `j`, not going
/// under `lo`.
pub open spec fn rskip_ws(s: Seq<char>, lo: int, j: int) -> int
    decreases j - lo,
    when 0 <= lo <= j <= s.len()
{
    if j > lo && is_ws(s[j - 1]) {
        rskip_ws(s, lo, j - 1)
    } else {
        j
    }
}

/// The range with leading and trailing whitespace removed.
#[verifier::loop_isolation(false)]
pub fn trim_ws(chars: &Vec<char>, from: usize, to: usize) -> (r: (usize, usize))
    requires
        from <= to <= chars@.len(),
    ensures
        from <= r.0 <= r.1 <= to,
        r.0 as int == skip_ws(chars@, from as int, to as int),
        r.1 as int == rskip_ws(chars@, r.0 as int, to as int),
{
    let mut a = from;
    let mut b = to;
    while a < b && (chars[a] == ' ' || chars[a] == '\r' || chars[a] == '\n' || chars[a] == '\t')
        invariant
            from <= a <= b <= to <= chars@.len(),
            b == to,
            skip_ws(chars@, from as int, to as int) == skip_ws(chars@, a as int, to as int),
        decreases b - a,
    {
        a = a + 1;
    }
    proof {
        assert(a as int == skip_ws(chars@, a as int, to as int));
    }
    while a < b && (chars[b - 1] == ' ' || chars[b - 1] == '\r' || chars[b - 1] == '\n' || chars[b
        - 1] == '\t')
        invariant
            from <= a <= b <= to <= chars@.len(),
            a as int == skip_ws(chars@, from as int, to as int),
            rskip_ws(chars@, a as int, to as int) == rskip_ws(chars@, a as int, b as int),
        decreases b - a,
    {
        b = b - 1;
    }
    proof {
        assert(b as int == rskip_ws(chars@, a as int, b as int));
    }
    (a, b)
}

} // verus!

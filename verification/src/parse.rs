//! The tree builder.
//!
//! The builder consumes the token sequence front to back, carrying an
//! optional already-built left operand.  A binary operator splits the
//! remaining tokens before the first following operator of an equal or
//! higher precedence class at parenthesis depth zero, reduces that
//! part to its right operand, and goes on with the new node as the
//! operand carried.  `-` and `!` are unary when nothing is carried;
//! `~` is always unary.  `(` groups, `[` collects top-level
//! comma-separated segments into an array, a function head takes its
//! argument list the same way, and `{`, `}` and stray commas are
//! errors.
use crate::calc::Calc;
use crate::calc::Opt;
use crate::calc::SpecCalc;
use crate::calc::spec_calc_of;
use crate::calc::spec_class;
use crate::error::ParseError;
use crate::lex::Element;
use crate::lex::SpecElem;
use crate::lex::spec_elem_of;
use crate::lex::spec_elems_of;
use vstd::prelude::*;

verus! {

broadcast use vstd::std_specs::vec::group_vec_axioms;

// ---------------------------------------------------------------------
// Splitting the token stream
// ---------------------------------------------------------------------
/// The position where a right operand ends: the first position in
/// `[i, hi)` holding an operator of class `cls` or higher at
/// parenthesis depth zero, or `hi`.
pub open spec fn opt_split(toks: Seq<SpecElem>, i: int, hi: int, cls: int, depth: int) -> int
    decreases hi - i,
    when 0 <= i <= hi <= toks.len()
{
    if i >= hi {
        hi
    } else {
        match toks[i] {
            SpecElem::Opt(o) => if spec_class(o) >= cls && depth == 0 {
                i
            } else {
                opt_split(toks, i + 1, hi, cls, depth)
            },
            SpecElem::LeftSmall => opt_split(toks, i + 1, hi, cls, depth + 1),
            SpecElem::RightSmall => opt_split(toks, i + 1, hi, cls, depth - 1),
            _ => opt_split(toks, i + 1, hi, cls, depth),
        }
    }
}

proof fn lemma_opt_split(toks: Seq<SpecElem>, i: int, hi: int, cls: int, depth: int)
    requires
        0 <= i <= hi <= toks.len(),
    ensures
        i <= opt_split(toks, i, hi, cls, depth) <= hi,
    decreases hi - i,
{
    if i < hi {
        match toks[i] {
            SpecElem::Opt(o) => {
                if !(spec_class(o) >= cls && depth == 0) {
                    lemma_opt_split(toks, i + 1, hi, cls, depth);
                }
            },
            SpecElem::LeftSmall => {
                lemma_opt_split(toks, i + 1, hi, cls, depth + 1);
            },
            SpecElem::RightSmall => {
                lemma_opt_split(toks, i + 1, hi, cls, depth - 1);
            },
            _ => {
                lemma_opt_split(toks, i + 1, hi, cls, depth);
            },
        }
    }
}

/// The position of the `)` that closes a group already `depth` levels
/// open, or nothing.
pub open spec fn ele_split(toks: Seq<SpecElem>, i: int, hi: int, depth: int) -> Option<int>
    decreases hi - i,
    when 0 <= i <= hi <= toks.len()
{
    if i >= hi {
        None
    } else {
        let d2 = if toks[i] is LeftSmall {
            depth + 1
        } else if toks[i] is RightSmall {
            depth - 1
        } else {
            depth
        };
        if d2 == 0 {
            Some(i)
        } else {
            ele_split(toks, i + 1, hi, d2)
        }
    }
}

proof fn lemma_ele_split(toks: Seq<SpecElem>, i: int, hi: int, depth: int)
    requires
        0 <= i <= hi <= toks.len(),
    ensures
        match ele_split(toks, i, hi, depth) {
            Some(m) => i <= m < hi,
            None => true,
        },
    decreases hi - i,
{
    if i < hi {
        let d2 = if toks[i] is LeftSmall {
            depth + 1
        } else if toks[i] is RightSmall {
            depth - 1
        } else {
            depth
        };
        if d2 != 0 {
            lemma_ele_split(toks, i + 1, hi, d2);
        }
    }
}

/// The comma-separated segments of an array or argument list, and the
/// position right after the matching closer.  A comma at top level
/// ends the segment before it; the matching closer ends the scan; a
/// stream that runs out keeps a last non-empty segment.  `cs` and `cm`
/// count the parentheses and brackets still open.
pub open spec fn comma_split(
    toks: Seq<SpecElem>,
    i: int,
    hi: int,
    small: bool,
    cs: int,
    cm: int,
    seg: int,
) -> (Seq<(int, int)>, int)
    decreases hi - i,
    when 0 <= seg <= i <= hi <= toks.len()
{
    if i >= hi {
        (
            if seg < i {
                seq![(seg, i)]
            } else {
                Seq::empty()
            },
            i,
        )
    } else {
        let e = toks[i];
        let boundary = e is Comma && (if small {
            cm == 0 && cs == 1
        } else {
            cs == 0 && cm == 1
        });
        if boundary {
            let r = comma_split(toks, i + 1, hi, small, cs, cm, i + 1);
            (seq![(seg, i)] + r.0, r.1)
        } else {
            let cs2 = if e is LeftSmall {
                cs + 1
            } else if e is RightSmall {
                cs - 1
            } else {
                cs
            };
            let cm2 = if e is LeftMed {
                cm + 1
            } else if e is RightMed {
                cm - 1
            } else {
                cm
            };
            let closer = (if small {
                e is RightSmall
            } else {
                e is RightMed
            }) && cs2 == 0 && cm2 == 0;
            if closer {
                (
                    if seg < i {
                        seq![(seg, i)]
                    } else {
                        Seq::empty()
                    },
                    i + 1,
                )
            } else {
                comma_split(toks, i + 1, hi, small, cs2, cm2, seg)
            }
        }
    }
}

proof fn lemma_comma_split(
    toks: Seq<SpecElem>,
    i: int,
    hi: int,
    small: bool,
    cs: int,
    cm: int,
    seg: int,
)
    requires
        0 <= seg <= i <= hi <= toks.len(),
    ensures
        ({
            let r = comma_split(toks, i, hi, small, cs, cm, seg);
            i <= r.1 <= hi && forall|k: int|
                0 <= k < r.0.len() ==> seg <= (#[trigger] r.0[k]).0 <= r.0[k].1 <= hi
        }),
    decreases hi - i,
{
    if i < hi {
        let e = toks[i];
        let boundary = e is Comma && (if small {
            cm == 0 && cs == 1
        } else {
            cs == 0 && cm == 1
        });
        if boundary {
            lemma_comma_split(toks, i + 1, hi, small, cs, cm, i + 1);
        } else {
            let cs2 = if e is LeftSmall {
                cs + 1
            } else if e is RightSmall {
                cs - 1
            } else {
                cs
            };
            let cm2 = if e is LeftMed {
                cm + 1
            } else if e is RightMed {
                cm - 1
            } else {
                cm
            };
            let closer = (if small {
                e is RightSmall
            } else {
                e is RightMed
            }) && cs2 == 0 && cm2 == 0;
            if !closer {
                lemma_comma_split(toks, i + 1, hi, small, cs2, cm2, seg);
            }
        }
    }
}

/// The ranges a segment list points at, as mathematical pairs.
pub open spec fn segs_view(v: Seq<(usize, usize)>) -> Seq<(int, int)> {
    Seq::new(v.len(), |k: int| (v[k].0 as int, v[k].1 as int))
}

// ---------------------------------------------------------------------
// Executable scanners
// ---------------------------------------------------------------------
#[verifier::loop_isolation(false)]
fn scan_opt_split(toks: &Vec<Element>, i: usize, hi: usize, cls: u8) -> (r: usize)
    requires
        i <= hi <= toks@.len(),
    ensures
        r as int == opt_split(spec_elems_of(toks@), i as int, hi as int, cls as int, 0),
        i <= r <= hi,
{
    let ghost ts = spec_elems_of(toks@);
    let mut j = i;
    let mut opens: usize = 0;
    let mut closes: usize = 0;
    loop
        invariant
            i <= j <= hi,
            opens <= j,
            closes <= j,
            opt_split(ts, i as int, hi as int, cls as int, 0) == opt_split(
                ts,
                j as int,
                hi as int,
                cls as int,
                opens as int - closes as int,
            ),
        decreases hi - j,
    {
        if j >= hi {
            return j;
        }
        proof {
            assert(ts[j as int] == spec_elem_of(toks@[j as int]));
        }
        match &toks[j] {
            Element::OPT(o) => {
                if o.class() >= cls && opens == closes {
                    return j;
                }
            },
            Element::LeftSmall => {
                opens = opens + 1;
            },
            Element::RightSmall => {
                closes = closes + 1;
            },
            _ => {},
        }
        j = j + 1;
    }
}

#[verifier::loop_isolation(false)]
fn scan_ele_split(toks: &Vec<Element>, i: usize, hi: usize) -> (r: Option<usize>)
    requires
        i <= hi <= toks@.len(),
    ensures
        match r {
            Some(m) => ele_split(spec_elems_of(toks@), i as int, hi as int, 1) == Some(m as int)
                && i <= m < hi,
            None => ele_split(spec_elems_of(toks@), i as int, hi as int, 1) is None,
        },
{
    let ghost ts = spec_elems_of(toks@);
    let mut j = i;
    let mut opens: usize = 0;
    let mut closes: usize = 0;
    loop
        invariant
            i <= j <= hi,
            opens <= j,
            closes <= opens,
            ele_split(ts, i as int, hi as int, 1) == ele_split(
                ts,
                j as int,
                hi as int,
                1 + opens as int - closes as int,
            ),
        decreases hi - j,
    {
        if j >= hi {
            return None;
        }
        proof {
            assert(ts[j as int] == spec_elem_of(toks@[j as int]));
        }
        match &toks[j] {
            Element::LeftSmall => {
                opens = opens + 1;
            },
            Element::RightSmall => {
                if opens == closes {
                    return Some(j);
                }
                closes = closes + 1;
            },
            _ => {},
        }
        j = j + 1;
    }
}

#[verifier::loop_isolation(false)]
fn scan_comma_split(toks: &Vec<Element>, i: usize, hi: usize, small: bool) -> (r: (
    Vec<(usize, usize)>,
    usize,
))
    requires
        i <= hi <= toks@.len(),
    ensures
        ({
            let sp = comma_split(
                spec_elems_of(toks@),
                i as int,
                hi as int,
                small,
                if small {
                    1
                } else {
                    0
                },
                if small {
                    0
                } else {
                    1
                },
                i as int,
            );
            segs_view(r.0@) == sp.0 && r.1 as int == sp.1 && i <= r.1 <= hi && forall|k: int|
                0 <= k < r.0@.len() ==> i <= (#[trigger] r.0@[k]).0 <= r.0@[k].1 <= hi
        }),
{
    let ghost ts = spec_elems_of(toks@);
    let ghost cs0: int = if small {
        1
    } else {
        0
    };
    let ghost cm0: int = if small {
        0
    } else {
        1
    };
    let ghost whole = comma_split(ts, i as int, hi as int, small, cs0, cm0, i as int);
    proof {
        lemma_comma_split(ts, i as int, hi as int, small, cs0, cm0, i as int);
    }
    let mut segs: Vec<(usize, usize)> = Vec::new();
    let mut j = i;
    let mut seg = i;
    let mut s_opens: usize = 0;
    let mut s_closes: usize = 0;
    let mut m_opens: usize = 0;
    let mut m_closes: usize = 0;
    loop
        invariant
            i <= seg <= j <= hi,
            s_opens <= j,
            s_closes <= j,
            m_opens <= j,
            m_closes <= j,
            forall|k: int| 0 <= k < segs@.len() ==> i <= (#[trigger] segs@[k]).0 <= segs@[k].1 <= hi,
            ({
                let rest = comma_split(
                    ts,
                    j as int,
                    hi as int,
                    small,
                    cs0 + s_opens as int - s_closes as int,
                    cm0 + m_opens as int - m_closes as int,
                    seg as int,
                );
                whole.0 == segs_view(segs@) + rest.0 && whole.1 == rest.1
            }),
        decreases hi - j,
    {
        let ghost cs = cs0 + s_opens as int - s_closes as int;
        let ghost cm = cm0 + m_opens as int - m_closes as int;
        let ghost rest = comma_split(ts, j as int, hi as int, small, cs, cm, seg as int);
        proof {
            lemma_comma_split(ts, j as int, hi as int, small, cs, cm, seg as int);
        }
        if j >= hi {
            if seg < j {
                proof {
                    assert(segs_view(segs@.push((seg, j))) =~= segs_view(segs@) + seq![
                        (seg as int, j as int),
                    ]);
                }
                segs.push((seg, j));
            }
            proof {
                if seg < j {
                    assert(whole.0 =~= segs_view(segs@));
                } else {
                    assert(rest.0 =~= Seq::<(int, int)>::empty());
                    assert(whole.0 =~= segs_view(segs@));
                }
            }
            return (segs, j);
        }
        proof {
            assert(ts[j as int] == spec_elem_of(toks@[j as int]));
        }
        let e = &toks[j];
        let top = s_opens == s_closes && m_opens == m_closes;
        let boundary = match e {
            Element::Comma => top,
            _ => false,
        };
        if boundary {
            proof {
                assert(segs_view(segs@.push((seg, j))) =~= segs_view(segs@) + seq![
                    (seg as int, j as int),
                ]);
                let r2 = comma_split(ts, j as int + 1, hi as int, small, cs, cm, j as int + 1);
                assert(segs_view(segs@) + (seq![(seg as int, j as int)] + r2.0) =~= (segs_view(
                    segs@,
                ) + seq![(seg as int, j as int)]) + r2.0);
            }
            segs.push((seg, j));
            j = j + 1;
            seg = j;
        } else {
            let closer = match e {
                Element::RightSmall => small && top,
                Element::RightMed => !small && top,
                _ => false,
            };
            if closer {
                if seg < j {
                    proof {
                        assert(segs_view(segs@.push((seg, j))) =~= segs_view(segs@) + seq![
                            (seg as int, j as int),
                        ]);
                    }
                    segs.push((seg, j));
                }
                proof {
                    assert(whole.0 =~= segs_view(segs@));
                }
                return (segs, j + 1);
            }
            match e {
                Element::LeftSmall => {
                    s_opens = s_opens + 1;
                },
                Element::RightSmall => {
                    s_closes = s_closes + 1;
                },
                Element::LeftMed => {
                    m_opens = m_opens + 1;
                },
                Element::RightMed => {
                    m_closes = m_closes + 1;
                },
                _ => {},
            }
            j = j + 1;
        }
    }
}


// ---------------------------------------------------------------------
// The tree builder
// ---------------------------------------------------------------------
pub open spec fn opt_calc_view(c: Option<Calc>) -> Option<SpecCalc> {
    match c {
        Some(x) => Some(spec_calc_of(x)),
        None => None,
    }
}

/// The tree that the tokens `[i, hi)` reduce to, continuing from the
/// carried operand `acc`, or nothing when they do not parse.
pub open spec fn spec_parse(toks: Seq<SpecElem>, i: int, hi: int, acc: Option<SpecCalc>) -> Option<
    SpecCalc,
>
    decreases hi - i, 0int,
    when 0 <= i <= hi <= toks.len()
    via spec_parse_decreases
{
    if i >= hi {
        acc
    } else {
        match toks[i] {
            SpecElem::Opt(o) => {
                if o == Opt::SUB {
                    let m = opt_split(toks, i + 1, hi, spec_class(o), 0);
                    match spec_parse(toks, i + 1, m, None) {
                        None => None,
                        Some(rc) => match acc {
                            None => spec_parse(
                                toks,
                                m,
                                hi,
                                Some(SpecCalc::Operator(o, seq![rc])),
                            ),
                            Some(lc) => spec_parse(
                                toks,
                                m,
                                hi,
                                Some(SpecCalc::Operator(o, seq![lc, rc])),
                            ),
                        },
                    }
                } else if o == Opt::NOT || o == Opt::REV {
                    if acc is Some {
                        None
                    } else {
                        let m = opt_split(toks, i + 1, hi, spec_class(o), 0);
                        match spec_parse(toks, i + 1, m, None) {
                            None => None,
                            Some(rc) => spec_parse(
                                toks,
                                m,
                                hi,
                                Some(SpecCalc::Operator(o, seq![rc])),
                            ),
                        }
                    }
                } else {
                    match acc {
                        None => None,
                        Some(lc) => {
                            let m = opt_split(toks, i + 1, hi, spec_class(o), 0);
                            match spec_parse(toks, i + 1, m, None) {
                                None => None,
                                Some(rc) => spec_parse(
                                    toks,
                                    m,
                                    hi,
                                    Some(SpecCalc::Operator(o, seq![lc, rc])),
                                ),
                            }
                        },
                    }
                }
            },
            SpecElem::Calc(c) => {
                match c {
                    SpecCalc::Function(name, args0) => {
                        if acc is Some {
                            None
                        } else if i + 1 < hi && toks[i + 1] is LeftSmall {
                            let sp = comma_split(toks, i + 2, hi, true, 1, 0, i + 2);
                            match parse_args(toks, sp.0, hi - i - 1) {
                                None => None,
                                Some(args) => spec_parse(
                                    toks,
                                    sp.1,
                                    hi,
                                    Some(SpecCalc::Function(name, args0 + args)),
                                ),
                            }
                        } else {
                            None
                        }
                    },
                    _ => spec_parse(toks, i + 1, hi, Some(c)),
                }
            },
            SpecElem::LeftSmall => {
                if acc is Some {
                    None
                } else {
                    match ele_split(toks, i + 1, hi, 1) {
                        None => None,
                        Some(m) => match spec_parse(toks, i + 1, m, None) {
                            None => None,
                            Some(g) => spec_parse(toks, m + 1, hi, Some(g)),
                        },
                    }
                }
            },
            SpecElem::LeftMed => {
                if acc is Some {
                    None
                } else {
                    let sp = comma_split(toks, i + 1, hi, false, 0, 1, i + 1);
                    match parse_args(toks, sp.0, hi - i - 1) {
                        None => None,
                        Some(items) => spec_parse(toks, sp.1, hi, Some(SpecCalc::Array(items))),
                    }
                }
            },
            _ => None,
        }
    }
}

/// The trees the comma-separated segments reduce to, each on its own,
/// or nothing when one of them does not parse.
pub open spec fn parse_args(toks: Seq<SpecElem>, segs: Seq<(int, int)>, bound: int) -> Option<
    Seq<SpecCalc>,
>
    decreases bound, segs.len(),
    when 0 <= bound && forall|k: int|
        0 <= k < segs.len() ==> 0 <= (#[trigger] segs[k]).0 <= segs[k].1 <= toks.len() && segs[k].1
            - segs[k].0 <= bound
    via parse_args_decreases
{
    if segs.len() == 0 {
        Some(Seq::empty())
    } else {
        match spec_parse(toks, segs[0].0, segs[0].1, None) {
            None => None,
            Some(c) => match parse_args(toks, segs.drop_first(), bound) {
                None => None,
                Some(rest) => Some(seq![c] + rest),
            },
        }
    }
}

#[via_fn]
proof fn spec_parse_decreases(toks: Seq<SpecElem>, i: int, hi: int, acc: Option<SpecCalc>) {
    if i < hi {
        match toks[i] {
            SpecElem::Opt(o) => {
                lemma_opt_split(toks, i + 1, hi, spec_class(o), 0);
            },
            SpecElem::Calc(c) => {
                if c is Function && i + 1 < hi && toks[i + 1] is LeftSmall {
                    lemma_comma_split(toks, i + 2, hi, true, 1, 0, i + 2);
                }
            },
            SpecElem::LeftSmall => {
                lemma_ele_split(toks, i + 1, hi, 1);
            },
            SpecElem::LeftMed => {
                lemma_comma_split(toks, i + 1, hi, false, 0, 1, i + 1);
            },
            _ => {},
        }
    }
}

#[via_fn]
proof fn parse_args_decreases(toks: Seq<SpecElem>, segs: Seq<(int, int)>, bound: int) {
}

/// Deep copies of the nodes of a list.
#[verifier::loop_isolation(false)]
fn dup_calcs(items: &Vec<Calc>) -> (r: Vec<Calc>)
    ensures
        r@.len() == items@.len(),
        forall|j: int| 0 <= j < items@.len() ==> #[trigger] r@[j]@ == items@[j]@,
{
    let mut out: Vec<Calc> = Vec::new();
    let mut i: usize = 0;
    while i < items.len()
        invariant
            i <= items.len(),
            out@.len() == i as int,
            forall|j: int| 0 <= j < i ==> #[trigger] out@[j]@ == items@[j]@,
        decreases items.len() - i,
    {
        out.push(items[i].duplicate());
        i = i + 1;
    }
    out
}

fn one_vec(a: Calc) -> (r: Vec<Calc>)
    ensures
        r@ =~= seq![a],
{
    let mut v: Vec<Calc> = Vec::new();
    v.push(a);
    v
}

fn two_vec(a: Calc, b: Calc) -> (r: Vec<Calc>)
    ensures
        r@ =~= seq![a, b],
{
    let mut v: Vec<Calc> = Vec::new();
    v.push(a);
    v.push(b);
    v
}

/// Parses every segment of an argument or array list, each on its
/// own.
#[verifier::loop_isolation(false)]
fn parse_segments(
    toks: &Vec<Element>,
    segs: &Vec<(usize, usize)>,
    Ghost(bound): Ghost<int>,
) -> (r: Result<Vec<Calc>, ParseError>)
    requires
        forall|k: int|
            0 <= k < segs@.len() ==> 0 <= (#[trigger] segs@[k]).0 <= segs@[k].1 <= toks@.len()
                && segs@[k].1 - segs@[k].0 <= bound,
        0 <= bound <= toks@.len(),
    ensures
        ({
            let pa = parse_args(spec_elems_of(toks@), segs_view(segs@), bound);
            match r {
                Ok(v) => pa == Some(crate::calc::spec_calcs_of(v@)),
                Err(_) => pa is None,
            }
        }),
    decreases bound, segs@.len(),
{
    let ghost ts = spec_elems_of(toks@);
    let ghost segsv = segs_view(segs@);
    let mut parsed: Vec<Calc> = Vec::new();
    let mut k: usize = 0;
    proof {
        assert(segsv.skip(0) =~= segsv);
    }
    while k < segs.len()
        invariant
            k <= segs.len(),
            parse_args(ts, segsv, bound) == (match parse_args(ts, segsv.skip(k as int), bound) {
                None => None,
                Some(rest) => Some(crate::calc::spec_calcs_of(parsed@) + rest),
            }),
        decreases segs.len() - k,
    {
        let ghost tail = segsv.skip(k as int);
        proof {
            assert(tail[0] == segsv[k as int]);
            assert(tail.drop_first() =~= segsv.skip(k as int + 1));
        }
        let (a, b) = segs[k];
        match parse_range(toks, a, b, None) {
            Err(e) => {
                return Err(e);
            },
            Ok(c) => {
                proof {
                    let rest2 = parse_args(ts, segsv.skip(k as int + 1), bound);
                    if rest2 is Some {
                        assert(crate::calc::spec_calcs_of(parsed@.push(c)) =~= crate::calc::spec_calcs_of(
                            parsed@,
                        ).push(c@));
                        assert(crate::calc::spec_calcs_of(parsed@) + (seq![c@] + rest2->0)
                            =~= crate::calc::spec_calcs_of(parsed@).push(c@) + rest2->0);
                    }
                }
                parsed.push(c);
            },
        }
        k = k + 1;
    }
    proof {
        assert(segsv.skip(k as int) =~= Seq::<(int, int)>::empty());
        assert(crate::calc::spec_calcs_of(parsed@) + Seq::<SpecCalc>::empty()
            =~= crate::calc::spec_calcs_of(parsed@));
    }
    Ok(parsed)
}

/// Reduces the tokens `[i, hi)` to one tree, continuing from the
/// carried operand, exactly as [`spec_parse`] says.
#[verifier::loop_isolation(false)]
fn parse_range(toks: &Vec<Element>, i: usize, hi: usize, acc: Option<Calc>) -> (r: Result<
    Calc,
    ParseError,
>)
    requires
        i <= hi <= toks@.len(),
    ensures
        ({
            let sp = spec_parse(spec_elems_of(toks@), i as int, hi as int, opt_calc_view(acc));
            match r {
                Ok(c) => sp == Some(c@),
                Err(_) => sp is None,
            }
        }),
    decreases hi - i, 0int,
{
    let ghost ts = spec_elems_of(toks@);
    let ghost av = opt_calc_view(acc);
    if i >= hi {
        match acc {
            Some(c) => Ok(c),
            None => Err(ParseError::EmptyExpression),
        }
    } else {
        proof {
            assert(ts[i as int] == spec_elem_of(toks@[i as int]));
        }
        match &toks[i] {
            Element::OPT(o) => {
                let o = *o;
                if o == Opt::SUB {
                    let m = scan_opt_split(toks, i + 1, hi, o.class());
                    let rc = match parse_range(toks, i + 1, m, None) {
                        Ok(c) => c,
                        Err(e) => {
                            return Err(e);
                        },
                    };
                    let ghost rcv = rc@;
                    match acc {
                        None => {
                            let node = Calc::Operator(o, one_vec(rc));
                            proof {
                                assert(node@->Operator_1 =~= seq![rcv]);
                            }
                            parse_range(toks, m, hi, Some(node))
                        },
                        Some(lc) => {
                            let ghost lcv = lc@;
                            let node = Calc::Operator(o, two_vec(lc, rc));
                            proof {
                                assert(node@->Operator_1 =~= seq![lcv, rcv]);
                            }
                            parse_range(toks, m, hi, Some(node))
                        },
                    }
                } else if o == Opt::NOT || o == Opt::REV {
                    if acc.is_some() {
                        return Err(ParseError::UnaryWithLeft);
                    }
                    let m = scan_opt_split(toks, i + 1, hi, o.class());
                    let rc = match parse_range(toks, i + 1, m, None) {
                        Ok(c) => c,
                        Err(e) => {
                            return Err(e);
                        },
                    };
                    let ghost rcv = rc@;
                    let node = Calc::Operator(o, one_vec(rc));
                    proof {
                        assert(node@->Operator_1 =~= seq![rcv]);
                    }
                    parse_range(toks, m, hi, Some(node))
                } else {
                    let lc = match acc {
                        Some(c) => c,
                        None => {
                            return Err(ParseError::MissingLeftOperand);
                        },
                    };
                    let m = scan_opt_split(toks, i + 1, hi, o.class());
                    let rc = match parse_range(toks, i + 1, m, None) {
                        Ok(c) => c,
                        Err(e) => {
                            return Err(e);
                        },
                    };
                    let ghost lcv = lc@;
                    let ghost rcv = rc@;
                    let node = Calc::Operator(o, two_vec(lc, rc));
                    proof {
                        assert(node@->Operator_1 =~= seq![lcv, rcv]);
                    }
                    parse_range(toks, m, hi, Some(node))
                }
            },
            Element::CALC(c) => {
                match c {
                    Calc::Function(name, args0) => {
                        if acc.is_some() {
                            return Err(ParseError::DanglingValue);
                        }
                        if i + 1 < hi {
                            let paren = match &toks[i + 1] {
                                Element::LeftSmall => true,
                                _ => false,
                            };
                            if paren {
                                proof {
                                    assert(ts[i as int + 1] == spec_elem_of(toks@[i as int + 1]));
                                }
                                let (segs, end) = scan_comma_split(toks, i + 2, hi, true);
                                let ghost bound: int = hi as int - i as int - 1;
                                let mut parsed = match parse_segments(toks, &segs, Ghost(bound)) {
                                    Ok(v) => v,
                                    Err(e) => {
                                        return Err(e);
                                    },
                                };
                                let ghost pv = crate::calc::spec_calcs_of(parsed@);
                                let ghost cv = spec_calc_of(toks@[i as int]->CALC_0);
                                let mut args = dup_calcs(args0);
                                let ghost a0 = args@;
                                args.append(&mut parsed);
                                let node = Calc::Function(name.clone(), args);
                                proof {
                                    let f1 = cv->Function_1;
                                    let s1 = crate::calc::spec_calcs_of(a0);
                                    assert(a0.len() == args0@.len());
                                    assert forall|q: int| 0 <= q < f1.len() implies f1[q] == s1[q] by {
                                        assert(a0[q]@ == args0@[q]@);
                                    }
                                    assert(f1 =~= s1);
                                    assert(node@->Function_1 =~= f1 + pv);
                                }
                                parse_range(toks, end, hi, Some(node))
                            } else {
                                Err(ParseError::FunctionParen)
                            }
                        } else {
                            Err(ParseError::FunctionParen)
                        }
                    },
                    _ => {
                        let copy = c.duplicate();
                        parse_range(toks, i + 1, hi, Some(copy))
                    },
                }
            },
            Element::LeftSmall => {
                if acc.is_some() {
                    return Err(ParseError::BracketMismatch);
                }
                match scan_ele_split(toks, i + 1, hi) {
                    None => Err(ParseError::BracketMismatch),
                    Some(m) => {
                        let inner = match parse_range(toks, i + 1, m, None) {
                            Ok(c) => c,
                            Err(e) => {
                                return Err(e);
                            },
                        };
                        parse_range(toks, m + 1, hi, Some(inner))
                    },
                }
            },
            Element::RightSmall => Err(ParseError::BracketMismatch),
            Element::LeftMed => {
                if acc.is_some() {
                    return Err(ParseError::BracketMismatch);
                }
                let (segs, end) = scan_comma_split(toks, i + 1, hi, false);
                let ghost bound: int = hi as int - i as int - 1;
                let parsed = match parse_segments(toks, &segs, Ghost(bound)) {
                    Ok(v) => v,
                    Err(e) => {
                        return Err(e);
                    },
                };
                let ghost pv = crate::calc::spec_calcs_of(parsed@);
                let node = Calc::Array(parsed);
                proof {
                    assert(node@->Array_0 =~= pv);
                }
                parse_range(toks, end, hi, Some(node))
            },
            Element::RightMed => Err(ParseError::BracketMismatch),
            Element::LeftBig => Err(ParseError::ReservedBrace),
            Element::RightBig => Err(ParseError::ReservedBrace),
            Element::Comma => Err(ParseError::StrayComma),
        }
    }
}


/// The tree of a whole expression text: lexing, then tree building.
pub open spec fn spec_expression(s: Seq<char>) -> Option<SpecCalc> {
    match crate::lex::spec_lex(s) {
        None => None,
        Some(toks) => spec_parse(toks, 0, toks.len() as int, None),
    }
}

impl Calc {
    /// One tree from a whole token sequence, continuing from an
    /// optional already-built operand.
    pub fn convert_one_group_calc(calc: Option<Calc>, toks: &Vec<Element>) -> (r: Result<
        Calc,
        ParseError,
    >)
        ensures
            ({
                let sp = spec_parse(
                    spec_elems_of(toks@),
                    0,
                    toks@.len() as int,
                    opt_calc_view(calc),
                );
                match r {
                    Ok(c) => sp == Some(c@),
                    Err(_) => sp is None,
                }
            }),
    {
        parse_range(toks, 0, toks.len(), calc)
    }

    /// The whole compilation of one expression: lex the text, then
    /// reduce the tokens to one tree.
    pub fn expression_parse(expr: String) -> (r: Result<Calc, ParseError>)
        ensures
            match r {
                Ok(c) => spec_expression(expr@) == Some(c@),
                Err(_) => spec_expression(expr@) is None,
            },
    {
        let toks = match Calc::expression_split(expr) {
            Ok(t) => t,
            Err(e) => {
                return Err(e);
            },
        };
        Calc::convert_one_group_calc(None, &toks)
    }
}

} // verus!

//! Registration of rules from their textual form.
//!
//! A rule text has a header line, a `when` section of semicolon-
//! separated conditions, and a `then` section of semicolon-separated
//! assignments.  The splitting here is plain text work; each
//! condition and assignment compiles through the verified expression
//! pipeline, and a rule that fails to compile is never registered.
use crate::assign::Assign;
use crate::assign::rskip_ws;
use crate::assign::skip_ws;
use crate::assign::spec_parse_assign;
use crate::assign::trim_ws;
use crate::calc::Calc;
use crate::calc::SpecCalc;
use crate::calc::spec_calcs_of;
use crate::error::ParseError;
use crate::eval::FunctionSet;
use crate::lex::find_char;
use crate::lex::lemma_find_char;
use crate::lex::scan_char;
use crate::parse::spec_expression;
use crate::rush::Rush;
use crate::rush::SpecRule;
use crate::rush::spec_rule_set;
use crate::rush::spec_rules_of;
use crate::text::chars_of;
use crate::text::string_of_range;
use vstd::prelude::*;

verus! {

broadcast use vstd::std_specs::vec::group_vec_axioms;

// ---------------------------------------------------------------------
// Text splitting, specified
// ---------------------------------------------------------------------
/// What a `when` section compiles to, from position `start` on, with
/// `acc` already gathered: semicolon-separated pieces, whitespace
/// trimmed, blank pieces skipped, each remaining piece compiled as
/// one condition expression.
pub open spec fn spec_parse_conds(s: Seq<char>, start: int, acc: Seq<SpecCalc>) -> Option<
    Seq<SpecCalc>,
>
    decreases s.len() - start,
    when 0 <= start <= s.len()
    via spec_parse_conds_decreases
{
    let pe = match find_char(s, start, ';') {
        None => s.len() as int,
        Some(j) => j,
    };
    let a = skip_ws(s, start, pe);
    let b = rskip_ws(s, a, pe);
    let step = if a < b {
        match spec_expression(s.subrange(a, b)) {
            None => None,
            Some(c) => Some(acc.push(c)),
        }
    } else {
        Some(acc)
    };
    match step {
        None => None,
        Some(acc2) => if pe >= s.len() {
            Some(acc2)
        } else {
            spec_parse_conds(s, pe + 1, acc2)
        },
    }
}

#[via_fn]
proof fn spec_parse_conds_decreases(s: Seq<char>, start: int, acc: Seq<SpecCalc>) {
    lemma_find_char(s, start, ';');
}

/// Whether the four characters stand at position `j`.
pub open spec fn match4_at(s: Seq<char>, j: int, c0: char, c1: char, c2: char, c3: char) -> bool {
    j + 4 <= s.len() && s[j] == c0 && s[j + 1] == c1 && s[j + 2] == c2 && s[j + 3] == c3
}

/// The first position at or after `i` where the four characters
/// stand.
pub open spec fn first4(s: Seq<char>, i: int, c0: char, c1: char, c2: char, c3: char) -> Option<
    int,
>
    decreases s.len() - i,
    when 0 <= i
{
    if i + 4 > s.len() {
        None
    } else if match4_at(s, i, c0, c1, c2, c3) {
        Some(i)
    } else {
        first4(s, i + 1, c0, c1, c2, c3)
    }
}

/// The position of the only occurrence of the four characters,
/// counted without overlap from the left, or nothing.
pub open spec fn unique4(s: Seq<char>, c0: char, c1: char, c2: char, c3: char) -> Option<int> {
    match first4(s, 0, c0, c1, c2, c3) {
        None => None,
        Some(j) => if first4(s, j + 4, c0, c1, c2, c3) is Some {
            None
        } else {
            Some(j)
        },
    }
}

/// The first `q` at or after `i` and below `hi`, or `hi`.
pub open spec fn find_char_before(s: Seq<char>, i: int, hi: int, q: char) -> int
    decreases hi - i,
    when 0 <= i <= hi <= s.len()
{
    if i < hi {
        if s[i] == q {
            i
        } else {
            find_char_before(s, i + 1, hi, q)
        }
    } else {
        hi
    }
}

// ---------------------------------------------------------------------
// Executable scanners
// ---------------------------------------------------------------------
/// The first `q` at or after `start` and below `hi`, or `hi`.
#[verifier::loop_isolation(false)]
fn scan_char_before(chars: &Vec<char>, start: usize, hi: usize, q: char) -> (r: usize)
    requires
        start <= hi <= chars@.len(),
    ensures
        r as int == find_char_before(chars@, start as int, hi as int, q),
        start <= r <= hi,
{
    let mut j = start;
    while j < hi
        invariant
            start <= j <= hi,
            find_char_before(chars@, start as int, hi as int, q) == find_char_before(
                chars@,
                j as int,
                hi as int,
                q,
            ),
        decreases hi - j,
    {
        if chars[j] == q {
            return j;
        }
        j = j + 1;
    }
    j
}

/// The position of the only occurrence of the four characters, or
/// nothing when there is none or more than one.
#[verifier::loop_isolation(false)]
fn find_unique4(chars: &Vec<char>, c0: char, c1: char, c2: char, c3: char) -> (r: Option<usize>)
    ensures
        match r {
            Some(j) => unique4(chars@, c0, c1, c2, c3) == Some(j as int) && j + 4 <= chars@.len(),
            None => unique4(chars@, c0, c1, c2, c3) is None,
        },
{
    let ghost s = chars@;
    let n = chars.len();
    let mut found: Option<usize> = None;
    let mut j: usize = 0;
    loop
        invariant
            j <= n,
            n == s.len(),
            s == chars@,
            match found {
                None => first4(s, 0, c0, c1, c2, c3) == first4(s, j as int, c0, c1, c2, c3),
                Some(p) => p + 4 <= n && first4(s, 0, c0, c1, c2, c3) == Some(p as int) && first4(
                    s,
                    p as int + 4,
                    c0,
                    c1,
                    c2,
                    c3,
                ) == first4(s, j as int, c0, c1, c2, c3),
            },
        decreases n - j,
    {
        if j > n || n - j < 4 {
            proof {
                assert(first4(s, j as int, c0, c1, c2, c3) is None);
            }
            return found;
        }
        if chars[j] == c0 && chars[j + 1] == c1 && chars[j + 2] == c2 && chars[j + 3] == c3 {
            proof {
                assert(first4(s, j as int, c0, c1, c2, c3) == Some(j as int));
            }
            match found {
                Some(_) => {
                    return None;
                },
                None => {
                    found = Some(j);
                },
            }
            j = j + 4;
        } else {
            proof {
                assert(!match4_at(s, j as int, c0, c1, c2, c3));
            }
            j = j + 1;
        }
    }
}

/// Whether `chars[j .. j+4]` spells the given four letters, each in
/// its lower or upper case.
fn word4_ci(
    chars: &Vec<char>,
    j: usize,
    w0: char,
    w1: char,
    w2: char,
    w3: char,
    u0: char,
    u1: char,
    u2: char,
    u3: char,
) -> (r: bool)
    requires
        j + 4 <= chars@.len(),
{
    let n = chars.len();
    proof {
        // binding the executable length bounds the indices below
        assert(j + 4 <= n);
    }
    let c0 = chars[j];
    let c1 = chars[j + 1];
    let c2 = chars[j + 2];
    let c3 = chars[j + 3];
    (c0 == w0 || c0 == u0) && (c1 == w1 || c1 == u1) && (c2 == w2 || c2 == u2) && (c3 == w3 || c3
        == u3)
}

// ---------------------------------------------------------------------
// The rule set
// ---------------------------------------------------------------------
/// A set of compiled rules waiting to drive an engine.
#[derive(Debug)]
pub struct ExprEngine {
    rules: Vec<(String, Vec<Calc>, Assign)>,
}

impl View for ExprEngine {
    type V = Seq<SpecRule>;

    closed spec fn view(&self) -> Seq<SpecRule> {
        spec_rules_of(self.rules@)
    }
}

impl ExprEngine {
    /// An empty rule set.
    pub fn new() -> (r: ExprEngine)
        ensures
            r@ =~= Seq::<SpecRule>::empty(),
    {
        ExprEngine { rules: Vec::new() }
    }

    /// Adds one compiled rule at the end; names may repeat here, and
    /// the engine that registers them resolves repeats by replacing.
    pub fn insert_rule(&mut self, name: &str, calc: Vec<Calc>, assign: Assign)
        ensures
            final (self)@ =~= old(self)@.push(
                SpecRule { name: name@, whens: spec_calcs_of(calc@), acts: assign@ },
            ),
    {
        let ghost before = spec_rules_of(self.rules@);
        self.rules.push((name.to_owned(), calc, assign));
        proof {
            assert(spec_rules_of(self.rules@) =~= before.push(
                SpecRule {
                    name: name@,
                    whens: spec_calcs_of(self.rules@.last().1@),
                    acts: self.rules@.last().2@,
                },
            ));
        }
    }

    /// Compiles a condition section and an assignment section and
    /// adds the rule, exactly as [`spec_parse_conds`] and
    /// [`spec_parse_assign`] say.  On any error nothing is added.
    #[verifier::loop_isolation(false)]
    pub fn register_rule_by_expr(&mut self, name: &str, calc: &str, exec: &str) -> (r: Result<
        (),
        ParseError,
    >)
        ensures
            ({
                let cs = spec_parse_conds(calc@, 0, Seq::empty());
                let asn = spec_parse_assign(exec@, 0, Seq::empty());
                match r {
                    Ok(_) => cs is Some && asn is Some && final (self)@ =~= old(self)@.push(
                        SpecRule { name: name@, whens: cs->Some_0, acts: asn->Some_0 },
                    ),
                    Err(_) => (cs is None || asn is None) && final (self)@ == old(self)@,
                }
            }),
    {
        let chars = chars_of(calc);
        let ghost cs = chars@;
        let n = chars.len();
        let mut whens: Vec<Calc> = Vec::new();
        let mut start: usize = 0;
        proof {
            assert(spec_calcs_of(whens@) =~= Seq::<SpecCalc>::empty());
        }
        loop
            invariant
                start <= n,
                n == cs.len(),
                cs == chars@,
                cs == calc@,
                spec_parse_conds(cs, 0, Seq::empty()) == spec_parse_conds(
                    cs,
                    start as int,
                    spec_calcs_of(whens@),
                ),
            decreases n - start,
        {
            let piece_end = match scan_char(&chars, start, ';') {
                None => n,
                Some(j) => j,
            };
            let (a, b) = trim_ws(&chars, start, piece_end);
            if a < b {
                let text = string_of_range(&chars, a, b);
                match Calc::expression_parse(text) {
                    Err(e) => {
                        return Err(e);
                    },
                    Ok(c) => {
                        let ghost before = spec_calcs_of(whens@);
                        let ghost cv = c@;
                        whens.push(c);
                        proof {
                            assert(spec_calcs_of(whens@) =~= before.push(cv));
                        }
                    },
                }
            }
            if piece_end >= n {
                break ;
            }
            start = piece_end + 1;
        }
        let assign = match Assign::from_text(exec) {
            Err(e) => {
                return Err(e);
            },
            Ok(a) => a,
        };
        self.insert_rule(name, whens, assign);
        Ok(())
    }

    /// Parses one whole rule text: the header before the one `when`,
    /// the conditions before the one `then`, the assignments after.
    /// A registered rule carries exactly the header's second word as
    /// its name and the two sections compiled by
    /// [`spec_parse_conds`] and [`spec_parse_assign`].
    pub fn register_rule(&mut self, rule: &str) -> (r: Result<(), ParseError>)
        ensures
            r is Err ==> final (self)@ == old(self)@,
            r is Ok ==> ({
                let s = rule@;
                let w = unique4(s, 'w', 'h', 'e', 'n');
                let t = unique4(s, 't', 'h', 'e', 'n');
                &&& w is Some
                &&& t is Some
                &&& {
                    let wp = w->Some_0;
                    let tp = t->Some_0;
                    let ha = skip_ws(s, 0, wp);
                    let hb = rskip_ws(s, ha, wp);
                    let e0 = find_char_before(s, ha, hb, ' ');
                    let e1 = find_char_before(s, e0 + 1, hb, ' ');
                    let conds = spec_parse_conds(s.subrange(wp + 4, tp), 0, Seq::empty());
                    let asn = spec_parse_assign(s.subrange(tp + 4, s.len() as int), 0, Seq::empty());
                    &&& wp + 4 <= tp
                    &&& e0 < hb
                    &&& conds is Some
                    &&& asn is Some
                    &&& final (self)@ =~= old(self)@.push(
                        SpecRule {
                            name: s.subrange(e0 + 1, e1),
                            whens: conds->Some_0,
                            acts: asn->Some_0,
                        },
                    )
                }
            }),
    {
        let chars = chars_of(rule);
        let ghost s = chars@;
        let n = chars.len();
        let w = match find_unique4(&chars, 'w', 'h', 'e', 'n') {
            None => {
                return Err(ParseError::RuleFormat);
            },
            Some(j) => j,
        };
        let t = match find_unique4(&chars, 't', 'h', 'e', 'n') {
            None => {
                return Err(ParseError::RuleFormat);
            },
            Some(j) => j,
        };
        if t < w + 4 {
            return Err(ParseError::RuleFormat);
        }
        let (ha, hb) = trim_ws(&chars, 0, w);
        let e0 = scan_char_before(&chars, ha, hb, ' ');
        if e0 >= hb {
            return Err(ParseError::RuleName);
        }
        if !(e0 - ha == 4 && word4_ci(&chars, ha, 'r', 'u', 'l', 'e', 'R', 'U', 'L', 'E')) {
            return Err(ParseError::RuleTag);
        }
        let e1 = scan_char_before(&chars, e0 + 1, hb, ' ');
        if e1 < hb {
            let e2 = scan_char_before(&chars, e1 + 1, hb, ' ');
            if e2 < hb {
                let e3 = scan_char_before(&chars, e2 + 1, hb, ' ');
                let w3s = e2 + 1;
                if !(e3 - w3s == 4 && word4_ci(&chars, w3s, 'e', 'x', 'p', 'r', 'E', 'X', 'P', 'R'))
                    {
                    return Err(ParseError::RuleEngine);
                }
            }
        }
        let name = string_of_range(&chars, e0 + 1, e1);
        let conds = string_of_range(&chars, w + 4, t);
        let acts = string_of_range(&chars, t + 4, n);
        self.register_rule_by_expr(name.as_str(), conds.as_str(), acts.as_str())
    }

    /// The compiled rules, in the order they were added.
    pub fn into_rules(self) -> (r: Vec<(String, Vec<Calc>, Assign)>)
        ensures
            spec_rules_of(r@) == self@,
    {
        self.rules
    }
}

/// The rule list after registering each given rule in order, repeats
/// replacing in place.
pub open spec fn spec_register_all(rules: Seq<SpecRule>, items: Seq<SpecRule>) -> Seq<SpecRule>
    decreases items.len(),
{
    if items.len() == 0 {
        rules
    } else {
        spec_register_all(spec_rule_set(rules, items[0]), items.drop_first())
    }
}

/// Law: an engine assembled by registering any rule list over any
/// name-distinct start keeps its rule names pairwise distinct.
pub proof fn lemma_register_all_distinct(rules: Seq<SpecRule>, items: Seq<SpecRule>)
    requires
        crate::rush::distinct_names(rules),
    ensures
        crate::rush::distinct_names(spec_register_all(rules, items)),
    decreases items.len(),
{
    if items.len() > 0 {
        crate::rush::lemma_rule_set_distinct(rules, items[0]);
        lemma_register_all_distinct(spec_rule_set(rules, items[0]), items.drop_first());
    }
}

impl<F: FunctionSet> Rush<F> {
    /// An engine over the given function registry, with every rule of
    /// the set registered in order.
    #[verifier::loop_isolation(false)]
    pub fn from_engine(functions: F, engine: ExprEngine) -> (r: Rush<F>)
        ensures
            r.rules() =~= spec_register_all(Seq::empty(), engine@),
            r.fmodel() == functions.fmodel(),
    {
        let ghost items = engine@;
        let mut rush = Rush::new(functions);
        let mut list = engine.into_rules();
        proof {
            assert(items.skip(0) =~= items);
        }
        while list.len() > 0
            invariant
                rush.fmodel() == functions.fmodel(),
                spec_register_all(Seq::empty(), items) =~= spec_register_all(
                    rush.rules(),
                    spec_rules_of(list@),
                ),
            decreases list@.len(),
        {
            let ghost rem = spec_rules_of(list@);
            let item = list.remove(0);
            proof {
                assert(spec_rules_of(list@) =~= rem.drop_first());
                assert(SpecRule {
                    name: item.0@,
                    whens: spec_calcs_of(item.1@),
                    acts: item.2@,
                } == rem[0]);
            }
            rush = rush.register_rule(item.0.as_str(), item.1, item.2);
        }
        proof {
            assert(spec_rules_of(list@) =~= Seq::<SpecRule>::empty());
        }
        rush
    }
}

} // verus!

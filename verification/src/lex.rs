//! The lexer and the comment stripper.
//!
//! Lexing turns raw expression text into the flat token sequence the
//! tree builder consumes.  Whitespace is skipped; block comments met
//! during lexing are skipped whole; string literals take no escape
//! processing; `null` and `nil` match in any letter case; a name
//! directly followed by `(` becomes a function head.  The optional
//! stripper removes every `/* ... */` span beforehand, for callers
//! whose comments may sit between the two characters of an operator.
use crate::calc::Calc;
use crate::calc::Opt;
use crate::calc::SpecCalc;
use crate::calc::spec_calc_of;
use crate::error::ParseError;
use crate::num::float_parse;
use crate::num::number_parse;
use crate::text::char_is_alphabetic;
use crate::text::chars_of;
use crate::text::is_alpha;
use crate::text::string_of;
use crate::text::string_of_range;
use crate::value::str_eq;
use vstd::prelude::*;

verus! {

broadcast use vstd::std_specs::vec::group_vec_axioms;

/// One lexical unit.
#[derive(Debug, PartialEq)]
pub enum Element {
    OPT(Opt),
    CALC(Calc),
    LeftSmall,
    RightSmall,
    LeftMed,
    RightMed,
    LeftBig,
    RightBig,
    Comma,
}

/// The specification-level form of a token.
pub enum SpecElem {
    Opt(Opt),
    Calc(SpecCalc),
    LeftSmall,
    RightSmall,
    LeftMed,
    RightMed,
    LeftBig,
    RightBig,
    Comma,
}

pub open spec fn spec_elem_of(e: Element) -> SpecElem {
    match e {
        Element::OPT(o) => SpecElem::Opt(o),
        Element::CALC(c) => SpecElem::Calc(spec_calc_of(c)),
        Element::LeftSmall => SpecElem::LeftSmall,
        Element::RightSmall => SpecElem::RightSmall,
        Element::LeftMed => SpecElem::LeftMed,
        Element::RightMed => SpecElem::RightMed,
        Element::LeftBig => SpecElem::LeftBig,
        Element::RightBig => SpecElem::RightBig,
        Element::Comma => SpecElem::Comma,
    }
}

impl View for Element {
    type V = SpecElem;

    open spec fn view(&self) -> SpecElem {
        spec_elem_of(*self)
    }
}

pub open spec fn spec_elems_of(v: Seq<Element>) -> Seq<SpecElem> {
    Seq::new(v.len(), |i: int| spec_elem_of(v[i]))
}

proof fn lemma_elems_push(v: Seq<Element>, e: Element)
    ensures
        spec_elems_of(v.push(e)) == spec_elems_of(v).push(spec_elem_of(e)),
{
    assert(spec_elems_of(v.push(e)) =~= spec_elems_of(v).push(spec_elem_of(e)));
}

/// A possibly failed token stream with `prefix` already produced.
pub open spec fn lex_result(prefix: Seq<SpecElem>, rest: Option<Seq<SpecElem>>) -> Option<
    Seq<SpecElem>,
> {
    match rest {
        Some(r) => Some(prefix + r),
        None => None,
    }
}

/// One more token in front of a possibly failed stream.
pub open spec fn lex_cons(e: SpecElem, rest: Option<Seq<SpecElem>>) -> Option<Seq<SpecElem>> {
    match rest {
        Some(r) => Some(seq![e] + r),
        None => None,
    }
}

proof fn lemma_lex_step(prefix: Seq<SpecElem>, e: SpecElem, rest: Option<Seq<SpecElem>>)
    ensures
        lex_result(prefix.push(e), rest) == lex_result(prefix, lex_cons(e, rest)),
{
    match rest {
        Some(r) => {
            assert(prefix.push(e) + r =~= prefix + (seq![e] + r));
        },
        None => {},
    }
}

// ---------------------------------------------------------------------
// Comment stripping
// ---------------------------------------------------------------------
/// One left-to-right scan over the text: outside a comment, `/*` opens
/// one and `*/` is an error; inside, `*/` closes it and a second `/*`
/// is an error; text that ends inside a comment is an error.  The
/// result is the text with every comment span removed.
pub open spec fn spec_strip_from(s: Seq<char>, i: int, inside: bool) -> Option<Seq<char>>
    decreases s.len() - i,
    when 0 <= i
{
    if i >= s.len() - 1 {
        if inside {
            None
        } else if i < s.len() {
            Some(seq![s[i]])
        } else {
            Some(Seq::empty())
        }
    } else if s[i] == '/' && s[i + 1] == '*' {
        if inside {
            None
        } else {
            spec_strip_from(s, i + 2, true)
        }
    } else if s[i] == '*' && s[i + 1] == '/' {
        if !inside {
            None
        } else {
            spec_strip_from(s, i + 2, false)
        }
    } else if inside {
        spec_strip_from(s, i + 1, true)
    } else {
        match spec_strip_from(s, i + 1, false) {
            None => None,
            Some(r) => Some(seq![s[i]] + r),
        }
    }
}

/// The text with every `/* ... */` span removed, or nothing when the
/// boundaries do not alternate strictly.
pub open spec fn spec_strip(s: Seq<char>) -> Option<Seq<char>> {
    if s.len() == 0 {
        Some(s)
    } else {
        spec_strip_from(s, 0, false)
    }
}

/// A possibly failed stripped text with `prefix` already produced.
pub open spec fn strip_result(prefix: Seq<char>, rest: Option<Seq<char>>) -> Option<Seq<char>> {
    match rest {
        Some(r) => Some(prefix + r),
        None => None,
    }
}

impl Calc {
    /// The expression text with all block comments removed, or a
    /// mismatch error.  Removal is exact: only the comment spans
    /// leave, everything else stays in place.
    #[verifier::loop_isolation(false)]
    pub fn parse_remove_annotation(s: String) -> (r: Result<String, ParseError>)
        ensures
            match r {
                Ok(t) => spec_strip(s@) == Some(t@),
                Err(_) => spec_strip(s@) is None,
            },
    {
        let chars = chars_of(s.as_str());
        let n = chars.len();
        if n == 0 {
            return Ok(s);
        }
        let mut out: Vec<char> = Vec::new();
        let mut inside: bool = false;
        let mut i: usize = 0;
        while i < n - 1
            invariant
                i <= n,
                n == chars@.len(),
                strip_result(out@, spec_strip_from(chars@, i as int, inside)) == spec_strip_from(
                    chars@,
                    0,
                    false,
                ),
            decreases n - i,
        {
            let c0 = chars[i];
            let c1 = chars[i + 1];
            if c0 == '/' && c1 == '*' {
                if inside {
                    return Err(ParseError::CommentMismatch);
                }
                inside = true;
                i = i + 2;
            } else if c0 == '*' && c1 == '/' {
                if !inside {
                    return Err(ParseError::CommentMismatch);
                }
                inside = false;
                i = i + 2;
            } else if inside {
                i = i + 1;
            } else {
                proof {
                    let rest = spec_strip_from(chars@, i as int + 1, false);
                    if rest is Some {
                        assert(out@ + (seq![chars@[i as int]] + rest->0) =~= out@.push(
                            chars@[i as int],
                        ) + rest->0);
                    }
                }
                out.push(c0);
                i = i + 1;
            }
        }
        if inside {
            return Err(ParseError::CommentMismatch);
        }
        if i < n {
            proof {
                assert(out@ + seq![chars@[i as int]] =~= out@.push(chars@[i as int]));
            }
            out.push(chars[i]);
        }
        proof {
            assert(out@ + Seq::<char>::empty() =~= out@);
        }
        Ok(string_of(&out))
    }
}

// ---------------------------------------------------------------------
// Scanning helpers
// ---------------------------------------------------------------------
pub open spec fn is_digit(c: char) -> bool {
    '0' <= c && c <= '9'
}

pub open spec fn is_ident_char(c: char) -> bool {
    is_digit(c) || is_alpha(c) || c == '_' || c == '.'
}

/// The first position at or after `j` whose character is not a digit
/// and not a dot.
pub open spec fn num_end(s: Seq<char>, j: int) -> int
    decreases s.len() - j,
    when 0 <= j <= s.len()
{
    if j < s.len() && (is_digit(s[j]) || s[j] == '.') {
        num_end(s, j + 1)
    } else {
        j
    }
}

proof fn lemma_num_end(s: Seq<char>, j: int)
    requires
        0 <= j <= s.len(),
    ensures
        j <= num_end(s, j) <= s.len(),
    decreases s.len() - j,
{
    if j < s.len() && (is_digit(s[j]) || s[j] == '.') {
        lemma_num_end(s, j + 1);
    }
}

/// The first position at or after `j` whose character cannot continue
/// an identifier.
pub open spec fn ident_end(s: Seq<char>, j: int) -> int
    decreases s.len() - j,
    when 0 <= j <= s.len()
{
    if j < s.len() && is_ident_char(s[j]) {
        ident_end(s, j + 1)
    } else {
        j
    }
}

proof fn lemma_ident_end(s: Seq<char>, j: int)
    requires
        0 <= j <= s.len(),
    ensures
        j <= ident_end(s, j) <= s.len(),
    decreases s.len() - j,
{
    if j < s.len() && is_ident_char(s[j]) {
        lemma_ident_end(s, j + 1);
    }
}

/// The first position at or after `j` holding `q`.
pub open spec fn find_char(s: Seq<char>, j: int, q: char) -> Option<int>
    decreases s.len() - j,
    when 0 <= j <= s.len()
{
    if j >= s.len() {
        None
    } else if s[j] == q {
        Some(j)
    } else {
        find_char(s, j + 1, q)
    }
}

pub proof fn lemma_find_char(s: Seq<char>, j: int, q: char)
    requires
        0 <= j <= s.len(),
    ensures
        match find_char(s, j, q) {
            Some(k) => j <= k < s.len() && s[k] == q,
            None => true,
        },
    decreases s.len() - j,
{
    if j < s.len() && s[j] != q {
        lemma_find_char(s, j + 1, q);
    }
}

/// The first position at or after `j` where `*/` starts.
pub open spec fn find_close(s: Seq<char>, j: int) -> Option<int>
    decreases s.len() - j,
    when 0 <= j
{
    if j + 1 >= s.len() {
        None
    } else if s[j] == '*' && s[j + 1] == '/' {
        Some(j)
    } else {
        find_close(s, j + 1)
    }
}

proof fn lemma_find_close(s: Seq<char>, j: int)
    requires
        0 <= j,
    ensures
        match find_close(s, j) {
            Some(k) => j <= k && k + 1 < s.len() && s[k] == '*' && s[k + 1] == '/',
            None => true,
        },
    decreases s.len() - j,
{
    if j + 1 < s.len() && !(s[j] == '*' && s[j + 1] == '/') {
        lemma_find_close(s, j + 1);
    }
}

/// Whether a dot occurs in `s[a .. b]`.
pub open spec fn has_dot(s: Seq<char>, a: int, b: int) -> bool {
    exists|k: int| a <= k < b && s[k] == '.'
}

/// The two-character operator the text starts with, if any.
pub open spec fn op2_of(c0: char, c1: char) -> Option<Opt> {
    if c0 == '&' && c1 == '&' {
        Some(Opt::AT)
    } else if c0 == '|' && c1 == '|' {
        Some(Opt::OT)
    } else if c0 == '>' && c1 == '=' {
        Some(Opt::GE)
    } else if c0 == '<' && c1 == '=' {
        Some(Opt::LE)
    } else if c0 == '=' && c1 == '=' {
        Some(Opt::EQ)
    } else if c0 == '!' && c1 == '=' {
        Some(Opt::NQ)
    } else if c0 == '<' && c1 == '<' {
        Some(Opt::SHL)
    } else if c0 == '>' && c1 == '>' {
        Some(Opt::SHR)
    } else {
        None
    }
}

/// The one-character operator, if any.
pub open spec fn op1_of(c0: char) -> Option<Opt> {
    if c0 == '<' {
        Some(Opt::LT)
    } else if c0 == '>' {
        Some(Opt::GT)
    } else if c0 == '+' {
        Some(Opt::ADD)
    } else if c0 == '-' {
        Some(Opt::SUB)
    } else if c0 == '*' {
        Some(Opt::MUL)
    } else if c0 == '/' {
        Some(Opt::DIV)
    } else if c0 == '%' {
        Some(Opt::REM)
    } else if c0 == '&' {
        Some(Opt::AND)
    } else if c0 == '|' {
        Some(Opt::OR)
    } else if c0 == '^' {
        Some(Opt::XOR)
    } else if c0 == '!' {
        Some(Opt::NOT)
    } else if c0 == '~' {
        Some(Opt::REV)
    } else {
        None
    }
}

fn op2(c0: char, c1: char) -> (r: Option<Opt>)
    ensures
        r == op2_of(c0, c1),
{
    if c0 == '&' && c1 == '&' {
        Some(Opt::AT)
    } else if c0 == '|' && c1 == '|' {
        Some(Opt::OT)
    } else if c0 == '>' && c1 == '=' {
        Some(Opt::GE)
    } else if c0 == '<' && c1 == '=' {
        Some(Opt::LE)
    } else if c0 == '=' && c1 == '=' {
        Some(Opt::EQ)
    } else if c0 == '!' && c1 == '=' {
        Some(Opt::NQ)
    } else if c0 == '<' && c1 == '<' {
        Some(Opt::SHL)
    } else if c0 == '>' && c1 == '>' {
        Some(Opt::SHR)
    } else {
        None
    }
}

fn op1(c0: char) -> (r: Option<Opt>)
    ensures
        r == op1_of(c0),
{
    if c0 == '<' {
        Some(Opt::LT)
    } else if c0 == '>' {
        Some(Opt::GT)
    } else if c0 == '+' {
        Some(Opt::ADD)
    } else if c0 == '-' {
        Some(Opt::SUB)
    } else if c0 == '*' {
        Some(Opt::MUL)
    } else if c0 == '/' {
        Some(Opt::DIV)
    } else if c0 == '%' {
        Some(Opt::REM)
    } else if c0 == '&' {
        Some(Opt::AND)
    } else if c0 == '|' {
        Some(Opt::OR)
    } else if c0 == '^' {
        Some(Opt::XOR)
    } else if c0 == '!' {
        Some(Opt::NOT)
    } else if c0 == '~' {
        Some(Opt::REV)
    } else {
        None
    }
}

/// Whether the word is `null` or `nil` in any letter case.
pub open spec fn is_null_word(w: Seq<char>) -> bool {
    (w.len() == 4 && (w[0] == 'n' || w[0] == 'N') && (w[1] == 'u' || w[1] == 'U') && (w[2] == 'l'
        || w[2] == 'L') && (w[3] == 'l' || w[3] == 'L')) || (w.len() == 3 && (w[0] == 'n' || w[0]
        == 'N') && (w[1] == 'i' || w[1] == 'I') && (w[2] == 'l' || w[2] == 'L'))
}

fn null_word(chars: &Vec<char>, a: usize, b: usize) -> (r: bool)
    requires
        a <= b <= chars@.len(),
    ensures
        r == is_null_word(chars@.subrange(a as int, b as int)),
{
    let ghost w = chars@.subrange(a as int, b as int);
    if b - a == 4 {
        let r = (chars[a] == 'n' || chars[a] == 'N') && (chars[a + 1] == 'u' || chars[a + 1] == 'U')
            && (chars[a + 2] == 'l' || chars[a + 2] == 'L') && (chars[a + 3] == 'l' || chars[a + 3]
            == 'L');
        proof {
            let ai = a as int;
            assert(w[0] == chars@[ai] && w[1] == chars@[ai + 1] && w[2] == chars@[ai + 2] && w[3]
                == chars@[ai + 3]);
        }
        r
    } else if b - a == 3 {
        let r = (chars[a] == 'n' || chars[a] == 'N') && (chars[a + 1] == 'i' || chars[a + 1] == 'I')
            && (chars[a + 2] == 'l' || chars[a + 2] == 'L');
        proof {
            let ai = a as int;
            assert(w[0] == chars@[ai] && w[1] == chars@[ai + 1] && w[2] == chars@[ai + 2]);
        }
        r
    } else {
        false
    }
}

// ---------------------------------------------------------------------
// Integer literals
// ---------------------------------------------------------------------
pub open spec fn all_digits(s: Seq<char>) -> bool {
    forall|k: int| 0 <= k < s.len() ==> is_digit(#[trigger] s[k])
}

/// The decimal value of a digit string.
pub open spec fn digits_val(s: Seq<char>) -> int
    decreases s.len(),
{
    if s.len() == 0 {
        0
    } else {
        digits_val(s.drop_last()) * 10 + (s.last() as int - '0' as int)
    }
}

/// What a digit string means as an `i64`: its decimal value when that
/// fits, nothing otherwise.
pub open spec fn digits_to_i64(s: Seq<char>) -> Option<i64> {
    if digits_val(s) <= i64::MAX {
        Some(digits_val(s) as i64)
    } else {
        None
    }
}

proof fn lemma_digits_val_nonneg(s: Seq<char>)
    requires
        all_digits(s),
    ensures
        digits_val(s) >= 0,
    decreases s.len(),
{
    if s.len() > 0 {
        assert(all_digits(s.drop_last()));
        lemma_digits_val_nonneg(s.drop_last());
    }
}

proof fn lemma_digits_val_prefix(s: Seq<char>, k: int)
    requires
        all_digits(s),
        0 <= k <= s.len(),
    ensures
        digits_val(s.subrange(0, k)) <= digits_val(s),
    decreases s.len() - k,
{
    if k == s.len() {
        assert(s.subrange(0, k) =~= s);
    } else {
        lemma_digits_val_prefix(s, k + 1);
        let p = s.subrange(0, k + 1);
        assert(p.drop_last() =~= s.subrange(0, k));
        assert(all_digits(s.subrange(0, k)));
        lemma_digits_val_nonneg(s.subrange(0, k));
        assert(digits_val(p) == digits_val(s.subrange(0, k)) * 10 + (s[k] as int - '0' as int));
        assert(digits_val(s.subrange(0, k)) * 10 >= digits_val(s.subrange(0, k))) by (nonlinear_arith)
            requires
                digits_val(s.subrange(0, k)) >= 0,
        ;
    }
}

/// The decimal value of `chars[a .. b]` as an `i64`, or nothing when
/// it does not fit.
#[verifier::loop_isolation(false)]
fn parse_digits(chars: &Vec<char>, a: usize, b: usize) -> (r: Option<i64>)
    requires
        a <= b <= chars@.len(),
        all_digits(chars@.subrange(a as int, b as int)),
    ensures
        r == digits_to_i64(chars@.subrange(a as int, b as int)),
{
    let ghost text = chars@.subrange(a as int, b as int);
    let mut acc: i64 = 0;
    let mut k: usize = a;
    while k < b
        invariant
            a <= k <= b,
            0 <= acc,
            acc as int == digits_val(chars@.subrange(a as int, k as int)),
        decreases b - k,
    {
        let c = chars[k];
        proof {
            assert(text[k as int - a as int] == chars@[k as int]);
        }
        let d: i64 = (c as u32 - '0' as u32) as i64;
        if acc > (i64::MAX - d) / 10 {
            proof {
                let p = chars@.subrange(a as int, k as int + 1);
                assert(p.drop_last() =~= chars@.subrange(a as int, k as int));
                assert(digits_val(p) == acc as int * 10 + d);
                assert(acc as int * 10 + d > i64::MAX) by (nonlinear_arith)
                    requires
                        acc as int > (i64::MAX - d) / 10,
                        0 <= d <= 9,
                        acc >= 0,
                ;
                assert(forall|kk: int|
                    0 <= kk < text.len() ==> text[kk] == chars@[a as int + kk] && is_digit(
                        #[trigger] text[kk],
                    ));
                assert(p =~= text.subrange(0, k as int + 1 - a as int));
                lemma_digits_val_prefix(text, k as int + 1 - a as int);
            }
            return None;
        }
        proof {
            assert(acc as int * 10 + d <= i64::MAX) by (nonlinear_arith)
                requires
                    acc as int <= (i64::MAX - d) / 10,
                    0 <= d <= 9,
                    acc >= 0,
            ;
            let p = chars@.subrange(a as int, k as int + 1);
            assert(p.drop_last() =~= chars@.subrange(a as int, k as int));
            assert(p.last() == chars@[k as int]);
        }
        acc = acc * 10 + d;
        k = k + 1;
    }
    proof {
        assert(chars@.subrange(a as int, b as int) =~= text);
    }
    Some(acc)
}


// ---------------------------------------------------------------------
// The lexer
// ---------------------------------------------------------------------
/// The token stream that starts at position `i` of the text, or
/// nothing when the text does not lex.  Whitespace is skipped, string
/// literals run to the next matching quote, `/*` opens a comment that
/// runs to the next `*/`, operators match longest first, a numeric
/// literal is digits and dots and holds a float exactly when it holds
/// a dot, and a word is a keyword, a function head when `(` follows it
/// directly, or a field reference.
pub open spec fn spec_lex_from(s: Seq<char>, i: int) -> Option<Seq<SpecElem>>
    decreases s.len() - i,
    when 0 <= i <= s.len()
    via spec_lex_from_decreases
{
    if i >= s.len() {
        Some(Seq::empty())
    } else {
        let c = s[i];
        if c == '\n' || c == '\r' || c == '\t' || c == ' ' {
            spec_lex_from(s, i + 1)
        } else if c == ',' {
            lex_cons(SpecElem::Comma, spec_lex_from(s, i + 1))
        } else if c == '(' {
            lex_cons(SpecElem::LeftSmall, spec_lex_from(s, i + 1))
        } else if c == ')' {
            lex_cons(SpecElem::RightSmall, spec_lex_from(s, i + 1))
        } else if c == '[' {
            lex_cons(SpecElem::LeftMed, spec_lex_from(s, i + 1))
        } else if c == ']' {
            lex_cons(SpecElem::RightMed, spec_lex_from(s, i + 1))
        } else if c == '{' {
            lex_cons(SpecElem::LeftBig, spec_lex_from(s, i + 1))
        } else if c == '}' {
            lex_cons(SpecElem::RightBig, spec_lex_from(s, i + 1))
        } else if c == '"' || c == '\'' {
            match find_char(s, i + 1, c) {
                None => None,
                Some(j) => lex_cons(
                    SpecElem::Calc(SpecCalc::Str(s.subrange(i + 1, j))),
                    spec_lex_from(s, j + 1),
                ),
            }
        } else if c == '/' && i + 1 < s.len() && s[i + 1] == '*' {
            match find_close(s, i) {
                None => None,
                Some(j) => spec_lex_from(s, j + 2),
            }
        } else if i + 1 < s.len() && op2_of(c, s[i + 1]) is Some {
            lex_cons(SpecElem::Opt(op2_of(c, s[i + 1])->0), spec_lex_from(s, i + 2))
        } else if op1_of(c) is Some {
            lex_cons(SpecElem::Opt(op1_of(c)->0), spec_lex_from(s, i + 1))
        } else if is_digit(c) {
            let j = num_end(s, i + 1);
            if has_dot(s, i + 1, j) {
                match float_parse(s.subrange(i, j)) {
                    None => None,
                    Some(nb) => lex_cons(
                        SpecElem::Calc(SpecCalc::Float(nb)),
                        spec_lex_from(s, j),
                    ),
                }
            } else {
                match digits_to_i64(s.subrange(i, j)) {
                    None => None,
                    Some(v) => lex_cons(SpecElem::Calc(SpecCalc::Int(v)), spec_lex_from(s, j)),
                }
            }
        } else if c == '_' {
            None
        } else if is_alpha(c) {
            let j = ident_end(s, i + 1);
            let w = s.subrange(i, j);
            if w == "true"@ {
                lex_cons(SpecElem::Calc(SpecCalc::Bool(true)), spec_lex_from(s, j))
            } else if w == "false"@ {
                lex_cons(SpecElem::Calc(SpecCalc::Bool(false)), spec_lex_from(s, j))
            } else if is_null_word(w) {
                lex_cons(SpecElem::Calc(SpecCalc::Null), spec_lex_from(s, j))
            } else if j < s.len() && s[j] == '(' {
                lex_cons(
                    SpecElem::Calc(SpecCalc::Function(w, Seq::empty())),
                    spec_lex_from(s, j),
                )
            } else {
                lex_cons(SpecElem::Calc(SpecCalc::Field(w)), spec_lex_from(s, j))
            }
        } else {
            None
        }
    }
}

#[via_fn]
proof fn spec_lex_from_decreases(s: Seq<char>, i: int) {
    if 0 <= i < s.len() {
        let c = s[i];
        if c == '"' || c == '\'' {
            lemma_find_char(s, i + 1, c);
        }
        if c == '/' && i + 1 < s.len() && s[i + 1] == '*' {
            lemma_find_close(s, i);
        }
        lemma_num_end(s, i + 1);
        lemma_ident_end(s, i + 1);
    }
}

/// The token sequence of the whole text, or nothing when it does not
/// lex.
pub open spec fn spec_lex(s: Seq<char>) -> Option<Seq<SpecElem>> {
    spec_lex_from(s, 0)
}

/// The position where the numeric literal that started just before
/// `start` ends, and whether a dot occurred.
#[verifier::loop_isolation(false)]
fn scan_num(chars: &Vec<char>, start: usize) -> (r: (usize, bool))
    requires
        start <= chars@.len(),
    ensures
        r.0 as int == num_end(chars@, start as int),
        r.1 == has_dot(chars@, start as int, r.0 as int),
        start <= r.0 <= chars@.len(),
        forall|k: int|
            start <= k < r.0 ==> is_digit(#[trigger] chars@[k]) || chars@[k] == '.',
{
    let n = chars.len();
    let mut j = start;
    let mut dot = false;
    loop
        invariant
            start <= j <= n,
            num_end(chars@, start as int) == num_end(chars@, j as int),
            dot == has_dot(chars@, start as int, j as int),
            forall|k: int|
                start <= k < j ==> is_digit(#[trigger] chars@[k]) || chars@[k] == '.',
        decreases n - j,
    {
        if j >= n {
            return (j, dot);
        }
        let c = chars[j];
        if c == '.' {
            proof {
                assert(has_dot(chars@, start as int, j as int + 1));
            }
            dot = true;
        } else if '0' <= c && c <= '9' {
            proof {
                if has_dot(chars@, start as int, j as int + 1) {
                    let k = choose|k: int|
                        start <= k < j + 1 && chars@[k] == '.';
                    assert(k < j && has_dot(chars@, start as int, j as int));
                }
            }
        } else {
            return (j, dot);
        }
        j = j + 1;
    }
}

/// The position where the identifier that started just before `start`
/// ends.
#[verifier::loop_isolation(false)]
fn scan_ident(chars: &Vec<char>, start: usize) -> (r: usize)
    requires
        start <= chars@.len(),
    ensures
        r as int == ident_end(chars@, start as int),
        start <= r <= chars@.len(),
{
    let n = chars.len();
    let mut j = start;
    loop
        invariant
            start <= j <= n,
            ident_end(chars@, start as int) == ident_end(chars@, j as int),
        decreases n - j,
    {
        if j >= n {
            return j;
        }
        let c = chars[j];
        if ('0' <= c && c <= '9') || c == '_' || c == '.' || char_is_alphabetic(c) {
            j = j + 1;
        } else {
            return j;
        }
    }
}

/// The position of the first `q` at or after `start`.
#[verifier::loop_isolation(false)]
pub fn scan_char(chars: &Vec<char>, start: usize, q: char) -> (r: Option<usize>)
    requires
        start <= chars@.len(),
    ensures
        match r {
            Some(j) => find_char(chars@, start as int, q) == Some(j as int) && start <= j
                < chars@.len(),
            None => find_char(chars@, start as int, q) is None,
        },
{
    let n = chars.len();
    let mut j = start;
    loop
        invariant
            start <= j <= n,
            find_char(chars@, start as int, q) == find_char(chars@, j as int, q),
        decreases n - j,
    {
        if j >= n {
            return None;
        }
        if chars[j] == q {
            return Some(j);
        }
        j = j + 1;
    }
}

/// The position of the first `*/` at or after `start`.
#[verifier::loop_isolation(false)]
fn scan_close(chars: &Vec<char>, start: usize) -> (r: Option<usize>)
    requires
        start <= chars@.len(),
    ensures
        match r {
            Some(j) => find_close(chars@, start as int) == Some(j as int) && start <= j && j + 1
                < chars@.len(),
            None => find_close(chars@, start as int) is None,
        },
{
    let n = chars.len();
    let mut j = start;
    loop
        invariant
            start <= j <= n,
            find_close(chars@, start as int) == find_close(chars@, j as int),
        decreases n - j,
    {
        if j >= n || j + 1 >= n {
            return None;
        }
        if chars[j] == '*' && chars[j + 1] == '/' {
            return Some(j);
        }
        j = j + 1;
    }
}

/// Appends one token whose specification-level form continues the
/// stream.
fn push_tok(
    out: &mut Vec<Element>,
    e: Element,
    Ghost(s): Ghost<Seq<char>>,
    Ghost(rest): Ghost<Option<Seq<SpecElem>>>,
)
    requires
        lex_result(spec_elems_of(old(out)@), lex_cons(e@, rest)) == spec_lex(s),
    ensures
        lex_result(spec_elems_of(final(out)@), rest) == spec_lex(s),
{
    proof {
        lemma_elems_push(out@, e);
        lemma_lex_step(spec_elems_of(out@), e@, rest);
    }
    out.push(e);
}

impl Calc {
    /// The ordered token sequence of the expression text, or the lex
    /// error that stopped it.
    #[verifier::loop_isolation(false)]
    pub fn expression_split(expr: String) -> (r: Result<Vec<Element>, ParseError>)
        ensures
            match r {
                Ok(v) => spec_lex(expr@) == Some(spec_elems_of(v@)),
                Err(_) => spec_lex(expr@) is None,
            },
    {
        let chars = chars_of(expr.as_str());
        let ghost s = chars@;
        let n = chars.len();
        let mut out: Vec<Element> = Vec::new();
        let mut i: usize = 0;
        while i < n
            invariant
                i <= n,
                n == s.len(),
                s == chars@,
                lex_result(spec_elems_of(out@), spec_lex_from(s, i as int)) == spec_lex(s),
            decreases n - i,
        {
            let ghost i0 = i as int;
            let c = chars[i];
            if c == '\n' || c == '\r' || c == '\t' || c == ' ' {
                i = i + 1;
            } else if c == ',' {
                push_tok(&mut out, Element::Comma, Ghost(s), Ghost(spec_lex_from(s, i0 + 1)));
                i = i + 1;
            } else if c == '(' {
                push_tok(&mut out, Element::LeftSmall, Ghost(s), Ghost(spec_lex_from(s, i0 + 1)));
                i = i + 1;
            } else if c == ')' {
                push_tok(&mut out, Element::RightSmall, Ghost(s), Ghost(spec_lex_from(s, i0 + 1)));
                i = i + 1;
            } else if c == '[' {
                push_tok(&mut out, Element::LeftMed, Ghost(s), Ghost(spec_lex_from(s, i0 + 1)));
                i = i + 1;
            } else if c == ']' {
                push_tok(&mut out, Element::RightMed, Ghost(s), Ghost(spec_lex_from(s, i0 + 1)));
                i = i + 1;
            } else if c == '{' {
                push_tok(&mut out, Element::LeftBig, Ghost(s), Ghost(spec_lex_from(s, i0 + 1)));
                i = i + 1;
            } else if c == '}' {
                push_tok(&mut out, Element::RightBig, Ghost(s), Ghost(spec_lex_from(s, i0 + 1)));
                i = i + 1;
            } else if c == '"' || c == '\'' {
                match scan_char(&chars, i + 1, c) {
                    None => {
                        return Err(ParseError::UnterminatedString);
                    },
                    Some(j) => {
                        let word = string_of_range(&chars, i + 1, j);
                        let tok = Element::CALC(Calc::String(word));
                        push_tok(&mut out, tok, Ghost(s), Ghost(spec_lex_from(s, j as int + 1)));
                        i = j + 1;
                    },
                }
            } else if c == '/' && i + 1 < n && chars[i + 1] == '*' {
                match scan_close(&chars, i) {
                    None => {
                        return Err(ParseError::CommentMismatch);
                    },
                    Some(j) => {
                        i = j + 2;
                    },
                }
            } else {
                let two = if i + 1 < n {
                    op2(c, chars[i + 1])
                } else {
                    None
                };
                match two {
                    Some(o) => {
                        push_tok(
                            &mut out,
                            Element::OPT(o),
                            Ghost(s),
                            Ghost(spec_lex_from(s, i0 + 2)),
                        );
                        i = i + 2;
                    },
                    None => {
                        match op1(c) {
                            Some(o) => {
                                push_tok(
                                    &mut out,
                                    Element::OPT(o),
                                    Ghost(s),
                                    Ghost(spec_lex_from(s, i0 + 1)),
                                );
                                i = i + 1;
                            },
                            None => {
                                if '0' <= c && c <= '9' {
                                    let (j, dot) = scan_num(&chars, i + 1);
                                    if dot {
                                        let word = string_of_range(&chars, i, j);
                                        match number_parse(word.as_str()) {
                                            None => {
                                                return Err(ParseError::BadNumber);
                                            },
                                            Some(nb) => {
                                                let tok = Element::CALC(Calc::Float(nb));
                                                push_tok(
                                                    &mut out,
                                                    tok,
                                                    Ghost(s),
                                                    Ghost(spec_lex_from(s, j as int)),
                                                );
                                                i = j;
                                            },
                                        }
                                    } else {
                                        proof {
                                            let text = s.subrange(i0, j as int);
                                            assert forall|k: int|
                                                0 <= k < text.len() implies is_digit(
                                                #[trigger] text[k],
                                            ) by {
                                                assert(text[k] == s[i0 + k]);
                                            }
                                        }
                                        match parse_digits(&chars, i, j) {
                                            None => {
                                                return Err(ParseError::BadNumber);
                                            },
                                            Some(v) => {
                                                let tok = Element::CALC(Calc::Number(v));
                                                push_tok(
                                                    &mut out,
                                                    tok,
                                                    Ghost(s),
                                                    Ghost(spec_lex_from(s, j as int)),
                                                );
                                                i = j;
                                            },
                                        }
                                    }
                                } else if c == '_' {
                                    return Err(ParseError::ReservedUnderscore);
                                } else if char_is_alphabetic(c) {
                                    let j = scan_ident(&chars, i + 1);
                                    let word = string_of_range(&chars, i, j);
                                    let tok: Element = if str_eq(word.as_str(), "true") {
                                        Element::CALC(Calc::Bool(true))
                                    } else if str_eq(word.as_str(), "false") {
                                        Element::CALC(Calc::Bool(false))
                                    } else if null_word(&chars, i, j) {
                                        Element::CALC(Calc::NULL)
                                    } else if j < n && chars[j] == '(' {
                                        let f = Element::CALC(Calc::Function(word, Vec::new()));
                                        proof {
                                            assert(f@->Calc_0->Function_1
                                                =~= Seq::<SpecCalc>::empty());
                                        }
                                        f
                                    } else {
                                        Element::CALC(Calc::Field(word))
                                    };
                                    push_tok(
                                        &mut out,
                                        tok,
                                        Ghost(s),
                                        Ghost(spec_lex_from(s, j as int)),
                                    );
                                    i = j;
                                } else {
                                    return Err(ParseError::UnknownChar);
                                }
                            },
                        }
                    },
                }
            }
        }
        proof {
            assert(spec_elems_of(out@) + Seq::<SpecElem>::empty() =~= spec_elems_of(out@));
        }
        Ok(out)
    }
}


/// Whether the text holds no comment boundary at all: no `/*` and no
/// `*/` anywhere.
pub open spec fn comment_free(s: Seq<char>) -> bool {
    forall|i: int|
        0 <= i < s.len() - 1 ==> !((#[trigger] s[i] == '/' && s[i + 1] == '*') || (s[i] == '*'
            && s[i + 1] == '/'))
}

proof fn lemma_strip_from_comment_free(s: Seq<char>, i: int)
    requires
        0 <= i <= s.len(),
        comment_free(s),
    ensures
        spec_strip_from(s, i, false) == Some(s.subrange(i, s.len() as int)),
    decreases s.len() - i,
{
    if i >= s.len() - 1 {
        if i < s.len() {
            assert(seq![s[i]] =~= s.subrange(i, s.len() as int));
        } else {
            assert(Seq::<char>::empty() =~= s.subrange(i, s.len() as int));
        }
    } else {
        lemma_strip_from_comment_free(s, i + 1);
        assert(seq![s[i]] + s.subrange(i + 1, s.len() as int) =~= s.subrange(i, s.len() as int));
    }
}

/// Law: comment removal is idempotent wherever its result holds no
/// comment boundary.  Removal leaves boundary-free text unchanged, so
/// stripping such a result again gives the same text back.  (A result
/// can hold a boundary: removal can make the character before a
/// comment and the character after it adjacent, and those two may
/// spell a new `/*`; on such a result a second pass fails instead.)
pub proof fn lemma_strip_idempotent(s: Seq<char>, t: Seq<char>)
    requires
        spec_strip(s) == Some(t),
        comment_free(t),
    ensures
        spec_strip(t) == Some(t),
{
    if t.len() > 0 {
        lemma_strip_from_comment_free(t, 0);
        assert(t.subrange(0, t.len() as int) =~= t);
    }
}


/// How one token renders: an operator as its symbol, a leaf as its
/// tree rendering, each punctuation mark as itself.
pub open spec fn spec_elem_render(e: SpecElem) -> Seq<char> {
    match e {
        SpecElem::Opt(o) => crate::calc::spec_opt_str(o),
        SpecElem::Calc(c) => crate::calc::spec_render(c),
        SpecElem::LeftSmall => "("@,
        SpecElem::RightSmall => ")"@,
        SpecElem::LeftMed => "["@,
        SpecElem::RightMed => "]"@,
        SpecElem::LeftBig => "{"@,
        SpecElem::RightBig => "}"@,
        SpecElem::Comma => ","@,
    }
}

impl Element {
    /// The token rendered as text, exactly as [`spec_elem_render`]
    /// says.
    pub fn to_string(&self) -> (r: String)
        ensures
            r@ == spec_elem_render(self@),
    {
        match self {
            Element::OPT(o) => o.as_str().to_owned(),
            Element::CALC(c) => c.to_string(),
            Element::LeftSmall => "(".to_owned(),
            Element::RightSmall => ")".to_owned(),
            Element::LeftMed => "[".to_owned(),
            Element::RightMed => "]".to_owned(),
            Element::LeftBig => "{".to_owned(),
            Element::RightBig => "}".to_owned(),
            Element::Comma => ",".to_owned(),
        }
    }
}

} // verus!

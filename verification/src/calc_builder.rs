//! The compilation pipeline for one expression.
//!
//! Building goes: optionally strip block comments, split the text
//! into tokens, reduce the tokens to one tree.  The strict stripping
//! pass exists because the lexer's own inline comment skip misfires
//! when a comment sits between the two characters of an operator;
//! stripping first avoids that.
use crate::calc::Calc;
use crate::calc::SpecCalc;
use crate::error::ParseError;
use crate::lex::spec_strip;
use crate::parse::spec_expression;
use vstd::prelude::*;

verus! {

/// What building yields: with strict comment handling the text is
/// stripped first and a mismatch refuses the build; otherwise the
/// text compiles as it stands.
pub open spec fn spec_build(strict: bool, s: Seq<char>) -> Option<SpecCalc> {
    if strict {
        match spec_strip(s) {
            None => None,
            Some(t) => spec_expression(t),
        }
    } else {
        spec_expression(s)
    }
}

/// Builds one expression tree from text.
pub struct CalcBuilder {
    disable_fast_parse_annotation: bool,
    expr: String,
}

impl CalcBuilder {
    /// The text this builder will compile.
    pub closed spec fn spec_expr(&self) -> Seq<char> {
        self.expr@
    }

    /// Whether the strict comment-stripping pass runs first.
    pub closed spec fn spec_strict(&self) -> bool {
        self.disable_fast_parse_annotation
    }

    /// A builder for the given expression text, with fast comment
    /// handling.
    pub fn new(expr: &str) -> (r: CalcBuilder)
        ensures
            r.spec_expr() == expr@,
            !r.spec_strict(),
    {
        CalcBuilder { disable_fast_parse_annotation: false, expr: expr.to_owned() }
    }

    /// The same builder with strict comment handling: comments are
    /// stripped before lexing.
    pub fn disable_fast_parse_annotation(self) -> (r: CalcBuilder)
        ensures
            r.spec_expr() == self.spec_expr(),
            r.spec_strict(),
    {
        CalcBuilder { disable_fast_parse_annotation: true, expr: self.expr }
    }

    /// The compiled tree, or the first error of the pipeline.
    pub fn build(self) -> (r: Result<Calc, ParseError>)
        ensures
            match r {
                Ok(c) => spec_build(self.spec_strict(), self.spec_expr()) == Some(c@),
                Err(_) => spec_build(self.spec_strict(), self.spec_expr()) is None,
            },
    {
        let CalcBuilder { disable_fast_parse_annotation, expr } = self;
        if disable_fast_parse_annotation {
            match Calc::parse_remove_annotation(expr) {
                Err(e) => Err(e),
                Ok(t) => Calc::expression_parse(t),
            }
        } else {
            Calc::expression_parse(expr)
        }
    }
}

} // verus!

//! The error kinds of the engine.
//!
//! Lexing and tree building fail with a [`ParseError`] when a rule is
//! registered; no partial engine comes out of that.  Evaluation fails
//! with an [`EvalError`]; of its kinds only a missing input field is
//! soft, and only at the predicate boundary, where the engine treats
//! the rule as non-matching.  Every other evaluation error aborts the
//! whole flow call.
use vstd::prelude::*;

verus! {

/// A distinguished condition: an input field was not found.  Carries
/// the missing path segment.
#[derive(Debug, Default, PartialEq)]
pub struct NotFoundFieldError(pub String);

/// Why an expression failed to compile.
#[derive(Debug, PartialEq)]
pub enum ParseError {
    /// A `/*` or `*/` without its partner, or one inside a comment.
    CommentMismatch,
    /// A string literal without its closing quote.
    UnterminatedString,
    /// A numeric literal that does not parse or does not fit.
    BadNumber,
    /// Text beginning with `_`, which is reserved.
    ReservedUnderscore,
    /// A character no token starts with.
    UnknownChar,
    /// An empty token stream where one value was expected.
    EmptyExpression,
    /// A binary operator with nothing to its left.
    MissingLeftOperand,
    /// A unary-only operator with something to its left.
    UnaryWithLeft,
    /// A function head not followed by `(`.
    FunctionParen,
    /// A value where no operator joins it to the one before.
    DanglingValue,
    /// `(`, `)`, `[` or `]` without its partner.
    BracketMismatch,
    /// `{` or `}`, which are reserved.
    ReservedBrace,
    /// A comma outside an array or argument list.
    StrayComma,
    /// An assignment without the `=` between path and expression.
    AssignFormat,
    /// Rule text without exactly one `when` and one `then`.
    RuleFormat,
    /// Rule text that does not start with the word `rule`.
    RuleTag,
    /// Rule text without a name after `rule`.
    RuleName,
    /// A rule naming an engine this engine does not provide.
    RuleEngine,
}

/// The specification-level form of an evaluation error.
pub enum SpecErr {
    /// An input field was not found; soft at the predicate boundary.
    NotFoundField(Seq<char>),
    /// A field was not found while a function argument was evaluated;
    /// hard everywhere.
    ArgNotFoundField(Seq<char>),
    /// A non-mapping stood in the middle of a field path.
    NotObject(Seq<char>),
    /// A value of the wrong kind was coerced to a number.
    CannotCoerce,
    /// A float operation left the finite range, or a float stood where
    /// only integers may.
    BadFloatOperand,
    /// An operator was applied to the wrong number of operands.
    BadArity,
    /// Integer division or remainder by zero.
    DivideByZero,
    /// A shift by less than zero or by 64 or more.
    ShiftOutOfRange,
    /// A function name was not registered.
    FunctionNotFound(Seq<char>),
    /// An output path ran into a non-mapping.
    OutputNotObject,
    /// An error a registered function reported.
    Custom(Seq<char>),
}

/// Why an evaluation failed.
#[derive(Debug, PartialEq)]
pub enum EvalError {
    NotFoundField(NotFoundFieldError),
    ArgNotFoundField(String),
    NotObject(String),
    CannotCoerce,
    BadFloatOperand,
    BadArity,
    DivideByZero,
    ShiftOutOfRange,
    FunctionNotFound(String),
    OutputNotObject,
    Custom(String),
}

impl View for EvalError {
    type V = SpecErr;

    open spec fn view(&self) -> SpecErr {
        match self {
            EvalError::NotFoundField(f) => SpecErr::NotFoundField(f.0@),
            EvalError::ArgNotFoundField(f) => SpecErr::ArgNotFoundField(f@),
            EvalError::NotObject(p) => SpecErr::NotObject(p@),
            EvalError::CannotCoerce => SpecErr::CannotCoerce,
            EvalError::BadFloatOperand => SpecErr::BadFloatOperand,
            EvalError::BadArity => SpecErr::BadArity,
            EvalError::DivideByZero => SpecErr::DivideByZero,
            EvalError::ShiftOutOfRange => SpecErr::ShiftOutOfRange,
            EvalError::FunctionNotFound(n) => SpecErr::FunctionNotFound(n@),
            EvalError::OutputNotObject => SpecErr::OutputNotObject,
            EvalError::Custom(m) => SpecErr::Custom(m@),
        }
    }
}

impl EvalError {
    /// Whether this is the soft field-not-found condition that the
    /// predicate boundary swallows to `false`.
    pub fn is_not_found_field(&self) -> (r: bool)
        ensures
            r == (self@ is NotFoundField),
    {
        match self {
            EvalError::NotFoundField(_) => true,
            _ => false,
        }
    }

    /// A copy whose view is the view of the original.
    pub fn duplicate(&self) -> (r: EvalError)
        ensures
            r@ == self@,
    {
        match self {
            EvalError::NotFoundField(f) => EvalError::NotFoundField(NotFoundFieldError(
                f.0.clone(),
            )),
            EvalError::ArgNotFoundField(f) => EvalError::ArgNotFoundField(f.clone()),
            EvalError::NotObject(p) => EvalError::NotObject(p.clone()),
            EvalError::CannotCoerce => EvalError::CannotCoerce,
            EvalError::BadFloatOperand => EvalError::BadFloatOperand,
            EvalError::BadArity => EvalError::BadArity,
            EvalError::DivideByZero => EvalError::DivideByZero,
            EvalError::ShiftOutOfRange => EvalError::ShiftOutOfRange,
            EvalError::FunctionNotFound(n) => EvalError::FunctionNotFound(n.clone()),
            EvalError::OutputNotObject => EvalError::OutputNotObject,
            EvalError::Custom(m) => EvalError::Custom(m.clone()),
        }
    }
}

} // verus!

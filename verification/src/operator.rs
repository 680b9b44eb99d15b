use vstd::prelude::*;

verus! {

/// The closed set of operator kinds the calculator understands.
///
/// `Inverse` is the unary minus; every other kind is binary. A higher
/// priority binds tighter, so the tree builder splits a token sequence at
/// the operator with the lowest priority.
#[derive(Clone, Copy, Debug, PartialEq, Eq, Structural)]
pub enum Operator {
    Add,
    Subtract,
    Multiply,
    Divide,
    Pow,
    Inverse,
}

/// How many operands an operator kind applies to.
pub open spec fn spec_count(o: Operator) -> int {
    match o {
        Operator::Inverse => 1,
        _ => 2,
    }
}

/// The binding strength of an operator kind: a higher value binds tighter.
pub open spec fn spec_priority(o: Operator) -> int {
    match o {
        Operator::Add | Operator::Subtract => 1,
        Operator::Multiply | Operator::Divide => 2,
        Operator::Pow => 3,
        Operator::Inverse => 4,
    }
}

/// The glyph an operator kind is written with. `Inverse` shares `-` with
/// `Subtract`.
pub open spec fn spec_symbol(o: Operator) -> char {
    match o {
        Operator::Add => '+',
        Operator::Subtract => '-',
        Operator::Multiply => '*',
        Operator::Divide => '/',
        Operator::Pow => '^',
        Operator::Inverse => '-',
    }
}

impl Operator {
    /// Returns the number of arguments this operator takes.
    pub fn count(&self) -> (r: i32)
        ensures
            r == spec_count(*self),
            r == 1 || r == 2,
    {
        match self {
            Self::Add | Self::Subtract | Self::Multiply | Self::Divide | Self::Pow => 2,
            Self::Inverse => 1,
        }
    }

    /// Returns the priority of this operator.
    pub fn priority(&self) -> (r: i32)
        ensures
            r == spec_priority(*self),
            1 <= r <= 4,
    {
        match self {
            Self::Add | Self::Subtract => 1,
            Self::Multiply | Self::Divide => 2,
            Self::Pow => 3,
            Self::Inverse => 4,
        }
    }

    /// Returns the glyph this operator is written with.
    pub fn symbol(&self) -> (c: char)
        ensures
            c == spec_symbol(*self),
    {
        match self {
            Self::Add => '+',
            Self::Subtract => '-',
            Self::Multiply => '*',
            Self::Divide => '/',
            Self::Pow => '^',
            Self::Inverse => '-',
        }
    }

    /// Reads an operator from its glyph. A bare `-` always reads as the
    /// binary `Subtract`; the lexer alone decides when a minus is unary.
    pub fn from_symbol(c: char) -> (r: Option<Operator>)
        ensures
            r == spec_from_symbol(c),
    {
        match c {
            '+' => Some(Self::Add),
            '-' => Some(Self::Subtract),
            '*' => Some(Self::Multiply),
            '/' => Some(Self::Divide),
            '^' => Some(Self::Pow),
            _ => None,
        }
    }
}

/// Which operator a glyph denotes, if any.
pub open spec fn spec_from_symbol(c: char) -> Option<Operator> {
    match c {
        '+' => Some(Operator::Add),
        '-' => Some(Operator::Subtract),
        '*' => Some(Operator::Multiply),
        '/' => Some(Operator::Divide),
        '^' => Some(Operator::Pow),
        _ => None,
    }
}

} // verus!

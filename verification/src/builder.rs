use vstd::prelude::*;

use crate::error::ErrView;
use crate::error::ParsingError;
use crate::operator::Operator;
use crate::operator::spec_count;
use crate::operator::spec_priority;
use crate::render::token_text;
use crate::token::Numeral;
use crate::token::NumeralV;
use crate::token::ParsingToken;
use crate::token::Tok;
use crate::token::toks_view;
use crate::token::lemma_toks_view_len;
use crate::token::lemma_toks_view_index;
use crate::token::lemma_toks_view_subrange;

verus! {

/// A named, arity-checked operation: the display name the tree renders
/// with, the number of operands it applies to, and the operator kind it was
/// resolved from. The numeric work itself is done by the caller over
/// machine floats; the kind field tells it which computation to run.
#[derive(Debug)]
pub struct Function {
    pub signature: String,
    pub arguments_count: i32,
    pub operator: Operator,
}

/// The mathematical value of a [`Function`].
#[verifier::ext_equal]
pub struct FuncV {
    pub name: Seq<char>,
    pub arity: int,
    pub op: Operator,
}

impl View for Function {
    type V = FuncV;

    open spec fn view(&self) -> FuncV {
        FuncV { name: self.signature@, arity: self.arguments_count as int, op: self.operator }
    }
}

/// The display name of the operation an operator kind resolves to.
pub open spec fn op_name(o: Operator) -> Seq<char> {
    match o {
        Operator::Add => "add"@,
        Operator::Subtract => "sub"@,
        Operator::Multiply => "mul"@,
        Operator::Divide => "div"@,
        Operator::Pow => "pow"@,
        Operator::Inverse => "inv"@,
    }
}

/// The one operation each operator kind resolves to: its name, and the
/// operator's own argument count.
pub open spec fn func_of(o: Operator) -> FuncV {
    FuncV { name: op_name(o), arity: spec_count(o), op: o }
}

impl Function {
    /// Builds an operation from its parts.
    pub fn new(signature: String, arguments_count: i32, operator: Operator) -> (r: Self)
        ensures
            r@ == (FuncV { name: signature@, arity: arguments_count as int, op: operator }),
    {
        Self { signature, arguments_count, operator }
    }

    /// The binary addition operation.
    pub fn add() -> (r: Self)
        ensures
            r@ == func_of(Operator::Add),
    {
        Self::new(String::from_str("add"), 2, Operator::Add)
    }

    /// The binary subtraction operation.
    pub fn subtract() -> (r: Self)
        ensures
            r@ == func_of(Operator::Subtract),
    {
        Self::new(String::from_str("sub"), 2, Operator::Subtract)
    }

    /// The binary multiplication operation.
    pub fn multiply() -> (r: Self)
        ensures
            r@ == func_of(Operator::Multiply),
    {
        Self::new(String::from_str("mul"), 2, Operator::Multiply)
    }

    /// The binary division operation.
    pub fn divide() -> (r: Self)
        ensures
            r@ == func_of(Operator::Divide),
    {
        Self::new(String::from_str("div"), 2, Operator::Divide)
    }

    /// The unary negation operation.
    pub fn inverse() -> (r: Self)
        ensures
            r@ == func_of(Operator::Inverse),
    {
        Self::new(String::from_str("inv"), 1, Operator::Inverse)
    }

    /// The binary power operation.
    pub fn pow() -> (r: Self)
        ensures
            r@ == func_of(Operator::Pow),
    {
        Self::new(String::from_str("pow"), 2, Operator::Pow)
    }

    /// Resolves an operator kind to its operation.
    pub fn from_operator(operator: &Operator) -> (r: Self)
        ensures
            r@ == func_of(*operator),
    {
        match operator {
            Operator::Add => Self::add(),
            Operator::Subtract => Self::subtract(),
            Operator::Multiply => Self::multiply(),
            Operator::Divide => Self::divide(),
            Operator::Pow => Self::pow(),
            Operator::Inverse => Self::inverse(),
        }
    }

    /// Whether a list of `n` operands fits this operation's arity — the
    /// check the caller must make before running the numeric work.
    pub fn arity_matches(&self, n: usize) -> (b: bool)
        ensures
            b <==> n as int == self@.arity,
    {
        n == self.arguments_count as usize && self.arguments_count >= 0
    }
}

/// An expression tree node: a bare number, or an operation applied to
/// ordered operand subtrees.
#[derive(Debug)]
pub enum Token {
    Operator(Function, Vec<Token>),
    Number(Numeral),
}

/// The mathematical value of a [`Token`] tree.
#[verifier::ext_equal]
pub enum ExprV {
    Apply(FuncV, Seq<ExprV>),
    Num(NumeralV),
}

pub open spec fn expr_view(t: Token) -> ExprV
    decreases t,
{
    match t {
        Token::Number(n) => ExprV::Num(n@),
        Token::Operator(f, args) => ExprV::Apply(f@, exprs_view(args@)),
    }
}

pub open spec fn exprs_view(s: Seq<Token>) -> Seq<ExprV>
    decreases s,
{
    if s.len() == 0 {
        Seq::empty()
    } else {
        exprs_view(s.drop_last()).push(expr_view(s.last()))
    }
}

impl View for Token {
    type V = ExprV;

    open spec fn view(&self) -> ExprV {
        expr_view(*self)
    }
}

pub proof fn lemma_exprs_view_len(s: Seq<Token>)
    ensures
        exprs_view(s).len() == s.len(),
    decreases s,
{
    if s.len() > 0 {
        lemma_exprs_view_len(s.drop_last());
    }
}

pub proof fn lemma_exprs_view_index(s: Seq<Token>, i: int)
    requires
        0 <= i < s.len(),
    ensures
        exprs_view(s)[i] == expr_view(s[i]),
    decreases s,
{
    lemma_exprs_view_len(s);
    if i < s.len() - 1 {
        lemma_exprs_view_index(s.drop_last(), i);
        lemma_exprs_view_len(s.drop_last());
    }
}

/// Every application in a well-formed tree carries the operation its
/// operator kind resolves to, and exactly as many operands as that
/// operation's arity — so evaluation can never meet an arity mismatch.
pub open spec fn expr_wf(e: ExprV) -> bool
    decreases e,
{
    match e {
        ExprV::Num(_) => true,
        ExprV::Apply(f, args) => f == func_of(f.op) && f.arity == args.len() && exprs_wf(args),
    }
}

pub open spec fn exprs_wf(s: Seq<ExprV>) -> bool
    decreases s,
{
    if s.len() == 0 {
        true
    } else {
        exprs_wf(s.drop_last()) && expr_wf(s.last())
    }
}

/// The number of nodes a token holds, counting itself and, for a group,
/// everything inside it.
pub open spec fn tok_size(t: Tok) -> nat
    decreases t,
{
    match t {
        Tok::Num(_) => 1,
        Tok::Op(_) => 1,
        Tok::Group(items) => 1 + toks_size(items),
    }
}

pub open spec fn toks_size(s: Seq<Tok>) -> nat
    decreases s,
{
    if s.len() == 0 {
        0
    } else {
        tok_size(s[0]) + toks_size(s.drop_first())
    }
}

pub proof fn lemma_toks_size_at_least_len(s: Seq<Tok>)
    ensures
        toks_size(s) >= s.len(),
    decreases s,
{
    if s.len() > 0 {
        lemma_toks_size_at_least_len(s.drop_first());
        assert(tok_size(s[0]) >= 1) by {
            match s[0] {
                Tok::Num(_) => {},
                Tok::Op(_) => {},
                Tok::Group(_) => {},
            }
        }
    }
}

pub proof fn lemma_toks_size_split(s: Seq<Tok>, k: int)
    requires
        0 <= k <= s.len(),
    ensures
        toks_size(s) == toks_size(s.subrange(0, k)) + toks_size(s.subrange(k, s.len() as int)),
    decreases k,
{
    if k == 0 {
        assert(s.subrange(0, 0) =~= Seq::empty());
        assert(s.subrange(0, s.len() as int) =~= s);
    } else {
        let rest = s.drop_first();
        lemma_toks_size_split(rest, k - 1);
        assert(s.subrange(0, k).drop_first() =~= rest.subrange(0, k - 1));
        assert(s.subrange(0, k)[0] == s[0]);
        assert(s.subrange(k, s.len() as int) =~= rest.subrange(k - 1, rest.len() as int));
    }
}

/// The leftmost lowest-priority operator among `toks[i..]`, starting from
/// the best candidate found so far: the scan the tree builder uses to pick
/// its split point. Only a strictly lower priority replaces the candidate,
/// so on a tie the earliest occurrence is kept.
pub open spec fn lowest_from(toks: Seq<Tok>, i: int, best: Option<int>) -> Option<int>
    decreases toks.len() - i,
{
    if !(0 <= i < toks.len()) {
        best
    } else {
        let best2 = match toks[i] {
            Tok::Op(o) => match best {
                None => Some(i),
                Some(b) => if spec_priority(o) < prio_at(toks, b) {
                    Some(i)
                } else {
                    best
                },
            },
            _ => best,
        };
        lowest_from(toks, i + 1, best2)
    }
}

/// The priority of the operator token at `b`; meaningful only where
/// `toks[b]` is an operator mark.
pub open spec fn prio_at(toks: Seq<Tok>, b: int) -> int {
    match toks[b] {
        Tok::Op(o) => spec_priority(o),
        _ => 0,
    }
}

/// The index the tree builder splits a token sequence at: the leftmost of
/// the operators with the lowest priority, if there is any operator at all.
pub open spec fn lowest_index(toks: Seq<Tok>) -> Option<int> {
    lowest_from(toks, 0, None)
}

/// The message of the error a lone non-number token raises.
pub open spec fn invalid_token_number_msg(t: Tok) -> Seq<char> {
    "Invalid token: "@ + token_text(t) + ", expected number"@
}

/// The message of the error raised when several values stand with no
/// operator between them.
pub open spec fn many_numbers_msg() -> Seq<char> {
    "There are many numbers in the input, expected operator"@
}

pub open spec fn unindexed_err(msg: Seq<char>) -> ErrView {
    ErrView { msg, base: None::<Seq<char>>, index: None::<int> }
}

/// The tree a token sequence builds into: the functional mirror of
/// [`Token::new`]. A single number stands for itself and a single group
/// builds from its contents; a longer sequence splits at the leftmost
/// lowest-priority operator, a unary operator taking everything after it
/// and a binary operator the slices on both sides. Splitting at the
/// leftmost of equal-priority operators leans the tree to the right, so
/// `1 - 2 - 3` builds as `1 - (2 - 3)`.
pub open spec fn spec_build(toks: Seq<Tok>) -> Result<ExprV, ErrView>
    decreases toks_size(toks),
    via spec_build_decreases
{
    if toks.len() == 1 {
        match toks[0] {
            Tok::Num(n) => Ok(ExprV::Num(n)),
            Tok::Group(items) => spec_build(items),
            Tok::Op(_) => Err(unindexed_err(invalid_token_number_msg(toks[0]))),
        }
    } else {
        match lowest_index(toks) {
            None => Err(unindexed_err(many_numbers_msg())),
            Some(k) => {
                if 0 <= k < toks.len() && toks[k] is Op {
                    let o = toks[k]->Op_0;
                    if spec_count(o) == 1 {
                        match spec_build(toks.subrange(k + 1, toks.len() as int)) {
                            Ok(right) => Ok(ExprV::Apply(func_of(o), seq![right])),
                            Err(e) => Err(e),
                        }
                    } else {
                        match spec_build(toks.subrange(0, k)) {
                            Ok(left) => match spec_build(
                                toks.subrange(k + 1, toks.len() as int),
                            ) {
                                Ok(right) => Ok(ExprV::Apply(func_of(o), seq![left, right])),
                                Err(e) => Err(e),
                            },
                            Err(e) => Err(e),
                        }
                    }
                } else {
                    // no scan yields a split index outside the sequence or
                    // at anything but an operator mark
                    Err(unindexed_err(many_numbers_msg()))
                }
            },
        }
    }
}

#[via_fn]
proof fn spec_build_decreases(toks: Seq<Tok>) {
    if toks.len() == 1 {
        if toks[0] is Group {
            assert(toks_size(toks) == tok_size(toks[0]) + toks_size(toks.drop_first()));
        }
    } else {
        match lowest_index(toks) {
            Some(k) => {
                if 0 <= k < toks.len() && toks[k] is Op {
                    lemma_toks_size_split(toks, k + 1);
                    lemma_toks_size_split(toks, k);
                    lemma_toks_size_at_least_len(toks.subrange(0, k + 1));
                    lemma_toks_size_at_least_len(toks.subrange(k, toks.len() as int));
                    lemma_toks_size_at_least_len(toks.subrange(k + 1, toks.len() as int));
                    lemma_toks_size_at_least_len(toks.subrange(0, k));
                }
            },
            None => {},
        }
    }
}

/// The value of a tree-builder result: the tree view on success, the error
/// view on failure.
pub open spec fn expr_result_view(r: Result<Token, ParsingError>) -> Result<ExprV, ErrView> {
    match r {
        Ok(t) => Ok(expr_view(t)),
        Err(e) => Err(e@),
    }
}

proof fn lemma_exprs_view_one(a: Seq<Token>)
    requires
        a.len() == 1,
    ensures
        exprs_view(a) == seq![expr_view(a[0])],
{
    assert(a.drop_last() =~= Seq::<Token>::empty());
    assert(exprs_view(Seq::<Token>::empty()) =~= Seq::<ExprV>::empty());
    assert(a.last() == a[0]);
    assert(exprs_view(a) =~= seq![expr_view(a[0])]);
}

proof fn lemma_exprs_view_two(a: Seq<Token>)
    requires
        a.len() == 2,
    ensures
        exprs_view(a) == seq![expr_view(a[0]), expr_view(a[1])],
{
    let d = a.drop_last();
    lemma_exprs_view_one(d);
    assert(d[0] == a[0]);
    assert(exprs_view(a) =~= seq![expr_view(a[0]), expr_view(a[1])]);
}

proof fn lemma_exprs_wf_one(e: Seq<ExprV>)
    requires
        e.len() == 1,
        expr_wf(e[0]),
    ensures
        exprs_wf(e),
{
    assert(e.drop_last() =~= Seq::<ExprV>::empty());
    assert(exprs_wf(e.drop_last()));
    assert(e.last() == e[0]);
}

proof fn lemma_exprs_wf_two(e: Seq<ExprV>)
    requires
        e.len() == 2,
        expr_wf(e[0]),
        expr_wf(e[1]),
    ensures
        exprs_wf(e),
{
    let d = e.drop_last();
    assert(d[0] == e[0]);
    lemma_exprs_wf_one(d);
    assert(e.last() == e[1]);
}

impl Token {
    /// Builds the expression tree of a token sequence, or fails with the
    /// first error. The result, success and failure alike, is exactly what
    /// the functional builder [`spec_build`] yields, and a built tree is
    /// well formed: every application holds exactly its operation's arity.
    pub fn new(input: &[ParsingToken]) -> (r: Result<Token, ParsingError>)
        ensures
            expr_result_view(r) == spec_build(toks_view(input@)),
            r is Ok ==> expr_wf(expr_view(r->Ok_0)),
        decreases toks_size(toks_view(input@)),
    {
        let ghost toks = toks_view(input@);
        proof {
            lemma_toks_view_len(input@);
        }
        if input.len() == 1 {
            proof {
                lemma_toks_view_index(input@, 0);
            }
            match &input[0] {
                ParsingToken::Number(n) => Ok(Token::Number(n.duplicate())),
                ParsingToken::Parenthesis(p) => {
                    proof {
                        assert(toks.drop_first() =~= Seq::empty());
                        assert(toks_size(toks) == tok_size(toks[0]) + toks_size(
                            toks.drop_first(),
                        ));
                    }
                    Self::new(p.as_slice())
                },
                ParsingToken::Operator(_) => {
                    let mut m = String::from_str("Invalid token: ");
                    let txt = input[0].to_text();
                    m.append(txt.as_str());
                    m.append(", expected number");
                    proof {
                        assert(m@ =~= invalid_token_number_msg(toks[0]));
                    }
                    Err(ParsingError::not_indexed(m))
                },
            }
        } else {
            let mut lowest_priority: Option<i32> = None;
            let mut lowest_priority_index: Option<usize> = None;
            let mut j: usize = 0;
            while j < input.len()
                invariant
                    toks == toks_view(input@),
                    toks.len() == input@.len(),
                    j <= input@.len(),
                    match (lowest_priority, lowest_priority_index) {
                        (Some(lp), Some(b)) => b < j && toks[b as int] is Op && lp as int
                            == prio_at(toks, b as int),
                        (None, None) => true,
                        _ => false,
                    },
                    lowest_from(
                        toks,
                        j as int,
                        match lowest_priority_index {
                            Some(b) => Some(b as int),
                            None => None,
                        },
                    ) == lowest_index(toks),
                decreases input@.len() - j,
            {
                proof {
                    lemma_toks_view_index(input@, j as int);
                }
                match &input[j] {
                    ParsingToken::Operator(o) => {
                        match lowest_priority {
                            None => {
                                lowest_priority = Some(o.priority());
                                lowest_priority_index = Some(j);
                            },
                            Some(lp) => {
                                if o.priority() < lp {
                                    // not <= : on a tie the leftmost operator is kept
                                    lowest_priority = Some(o.priority());
                                    lowest_priority_index = Some(j);
                                }
                            },
                        }
                    },
                    _ => {},
                }
                j = j + 1;
            }
            match lowest_priority_index {
                None => Err(
                    ParsingError::not_indexed(
                        String::from_str("There are many numbers in the input, expected operator"),
                    ),
                ),
                Some(k) => {
                    proof {
                        lemma_toks_view_index(input@, k as int);
                    }
                    match &input[k] {
                        ParsingToken::Operator(o) => {
                            if o.count() == 1 {
                                // a unary operator applies to everything after the split
                                let rest = vstd::slice::slice_subrange(input, k + 1, input.len());
                                proof {
                                    lemma_toks_view_subrange(input@, k as int + 1, input@.len() as int);
                                    lemma_toks_size_split(toks, k as int + 1);
                                    lemma_toks_size_at_least_len(toks.subrange(0, k as int + 1));
                                }
                                match Self::new(rest) {
                                    Ok(right) => {
                                        let f = Function::from_operator(o);
                                        let mut args: Vec<Token> = Vec::new();
                                        args.push(right);
                                        proof {
                                            lemma_exprs_view_one(args@);
                                            let ev = ExprV::Apply(f@, exprs_view(args@));
                                            lemma_exprs_wf_one(exprs_view(args@));
                                            assert(expr_wf(ev));
                                        }
                                        Ok(Token::Operator(f, args))
                                    },
                                    Err(e) => Err(e),
                                }
                            } else {
                                // the count is 1 or 2 by its contract, so this
                                // split is binary: no other arity can arise
                                let left_slice = vstd::slice::slice_subrange(input, 0, k);
                                proof {
                                    lemma_toks_view_subrange(input@, 0, k as int);
                                    lemma_toks_view_subrange(input@, k as int + 1, input@.len() as int);
                                    lemma_toks_size_split(toks, k as int);
                                    lemma_toks_size_split(toks, k as int + 1);
                                    lemma_toks_size_at_least_len(
                                        toks.subrange(k as int, toks.len() as int),
                                    );
                                    lemma_toks_size_at_least_len(toks.subrange(0, k as int + 1));
                                }
                                match Self::new(left_slice) {
                                    Ok(left) => {
                                        let rest = vstd::slice::slice_subrange(
                                            input,
                                            k + 1,
                                            input.len(),
                                        );
                                        match Self::new(rest) {
                                            Ok(right) => {
                                                let f = Function::from_operator(o);
                                                let mut args: Vec<Token> = Vec::new();
                                                args.push(left);
                                                args.push(right);
                                                proof {
                                                    lemma_exprs_view_two(args@);
                                                    let ev = ExprV::Apply(
                                                        f@,
                                                        exprs_view(args@),
                                                    );
                                                    lemma_exprs_wf_two(exprs_view(args@));
                                                    assert(expr_wf(ev));
                                                }
                                                Ok(Token::Operator(f, args))
                                            },
                                            Err(e) => Err(e),
                                        }
                                    },
                                    Err(e) => Err(e),
                                }
                            }
                        },
                        _ => {
                            // the split index always holds an operator mark
                            proof {
                                assert(false);
                            }
                            Err(ParsingError::not_indexed(String::new()))
                        },
                    }
                },
            }
        }
    }
}

} // verus!
use vstd::prelude::*;

use crate::builder::ExprV;
use crate::builder::Token;
use crate::builder::expr_view;
use crate::builder::exprs_view;
use crate::builder::expr_wf;
use crate::builder::func_of;
use crate::operator::Operator;
use crate::operator::spec_symbol;
use crate::token::Numeral;
use crate::token::NumeralV;
use crate::token::ParsingToken;
use crate::token::Tok;
use crate::token::tok_view;
use crate::token::toks_view;
use crate::token::lemma_toks_view_len;
use crate::token::lemma_toks_view_index;

verus! {

/// Relies on `String::push`: appends exactly one character at the end.
#[verifier::external_body]
fn push_char(s: &mut String, c: char)
    ensures
        final(s)@ == old(s)@.push(c),
{
    s.push(c);
}

/// Appends every character of `v` to `out`, in order.
fn append_chars(out: &mut String, v: &Vec<char>)
    ensures
        final(out)@ == old(out)@ + v@,
{
    let mut j: usize = 0;
    while j < v.len()
        invariant
            j <= v@.len(),
            out@ == old(out)@ + v@.subrange(0, j as int),
        decreases v@.len() - j,
    {
        push_char(out, v[j]);
        proof {
            assert(old(out)@ + v@.subrange(0, j as int + 1) =~= (old(out)@ + v@.subrange(
                0,
                j as int,
            )).push(v@[j as int]));
        }
        j = j + 1;
    }
    proof {
        assert(v@.subrange(0, v@.len() as int) =~= v@);
    }
}

/// The text of a numeral: its integer digits, and, when there are any
/// fractional digits, the decimal point and those digits.
pub open spec fn numeral_text(n: NumeralV) -> Seq<char> {
    if n.frac_part.len() > 0 {
        n.int_part + seq!['.'] + n.frac_part
    } else {
        n.int_part
    }
}

impl Numeral {
    /// Renders the numeral's digit text.
    pub fn to_text(&self) -> (r: String)
        ensures
            r@ == numeral_text(self@),
    {
        let mut out = String::new();
        append_chars(&mut out, &self.int_part);
        if self.frac_part.len() > 0 {
            push_char(&mut out, '.');
            append_chars(&mut out, &self.frac_part);
            proof {
                assert(out@ =~= numeral_text(self@));
            }
        } else {
            proof {
                assert(out@ =~= numeral_text(self@));
            }
        }
        out
    }
}

/// The lexical text of one token: a number's digits verbatim, an operator
/// glyph between single spaces, a group's contents between parentheses.
pub open spec fn token_text(t: Tok) -> Seq<char>
    decreases t,
{
    match t {
        Tok::Num(n) => numeral_text(n),
        Tok::Op(o) => seq![' ', spec_symbol(o), ' '],
        Tok::Group(items) => seq!['('] + tokens_text(items) + seq![')'],
    }
}

/// The lexical text of a token sequence: the tokens' texts, concatenated.
pub open spec fn tokens_text(s: Seq<Tok>) -> Seq<char>
    decreases s,
{
    if s.len() == 0 {
        Seq::empty()
    } else {
        tokens_text(s.drop_last()) + token_text(s.last())
    }
}

impl ParsingToken {
    /// Renders the token back into expression text.
    pub fn to_text(&self) -> (r: String)
        ensures
            r@ == token_text(tok_view(*self)),
        decreases *self,
    {
        match self {
            ParsingToken::Number(n) => n.to_text(),
            ParsingToken::Operator(o) => {
                let mut out = String::new();
                push_char(&mut out, ' ');
                push_char(&mut out, o.symbol());
                push_char(&mut out, ' ');
                proof {
                    assert(out@ =~= token_text(tok_view(*self)));
                }
                out
            },
            ParsingToken::Parenthesis(p) => {
                let mut out = String::new();
                push_char(&mut out, '(');
                let inner = tokens_to_text(p);
                out.append(inner.as_str());
                push_char(&mut out, ')');
                proof {
                    assert(out@ =~= token_text(tok_view(*self)));
                }
                out
            },
        }
    }
}

/// Renders a token sequence back into expression text: the reconstructed
/// lexical form of the input.
pub fn tokens_to_text(tokens: &Vec<ParsingToken>) -> (r: String)
    ensures
        r@ == tokens_text(toks_view(tokens@)),
    decreases tokens@,
{
    proof {
        lemma_toks_view_len(tokens@);
    }
    let mut out = String::new();
    let mut j: usize = 0;
    while j < tokens.len()
        invariant
            j <= tokens@.len(),
            toks_view(tokens@).len() == tokens@.len(),
            out@ == tokens_text(toks_view(tokens@).subrange(0, j as int)),
        decreases tokens@.len() - j,
    {
        let piece = tokens[j].to_text();
        out.append(piece.as_str());
        proof {
            lemma_toks_view_index(tokens@, j as int);
            let tv = toks_view(tokens@);
            assert(tv.subrange(0, j as int + 1).drop_last() =~= tv.subrange(0, j as int));
            assert(tv.subrange(0, j as int + 1).last() == tv[j as int]);
        }
        j = j + 1;
    }
    proof {
        assert(toks_view(tokens@).subrange(0, toks_view(tokens@).len() as int) =~= toks_view(
            tokens@,
        ));
    }
    out
}

/// The display text of an expression tree: a literal as its digits, an
/// application as its operation's name around the parenthesized operand
/// texts, separated by commas.
pub open spec fn expr_text(e: ExprV) -> Seq<char>
    decreases e,
{
    match e {
        ExprV::Num(n) => numeral_text(n),
        ExprV::Apply(f, args) => f.name + seq!['('] + args_text(args) + seq![')'],
    }
}

/// The operand texts, separated by `, `.
pub open spec fn args_text(s: Seq<ExprV>) -> Seq<char>
    decreases s,
{
    if s.len() == 0 {
        Seq::empty()
    } else if s.len() == 1 {
        expr_text(s[0])
    } else {
        args_text(s.drop_last()) + seq![',', ' '] + expr_text(s.last())
    }
}

impl Token {
    /// Renders the tree as `name(operand, operand, …)` / literal text.
    pub fn to_text(&self) -> (r: String)
        ensures
            r@ == expr_text(expr_view(*self)),
        decreases *self,
    {
        match self {
            Token::Number(n) => n.to_text(),
            Token::Operator(f, args) => {
                let mut out = String::new();
                out.append(f.signature.as_str());
                push_char(&mut out, '(');
                let inner = args_to_text(args);
                out.append(inner.as_str());
                push_char(&mut out, ')');
                proof {
                    assert(out@ =~= expr_text(expr_view(*self)));
                }
                out
            },
        }
    }
}

/// Renders a tree's operand list, the operands separated by `, `.
fn args_to_text(args: &Vec<Token>) -> (r: String)
    ensures
        r@ == args_text(exprs_view(args@)),
    decreases args@,
{
    proof {
        crate::builder::lemma_exprs_view_len(args@);
    }
    let ghost av = exprs_view(args@);
    let mut out = String::new();
    let mut j: usize = 0;
    while j < args.len()
        invariant
            av == exprs_view(args@),
            av.len() == args@.len(),
            j <= args@.len(),
            out@ == (if j == 0 {
                Seq::<char>::empty()
            } else if j < args@.len() {
                args_text(av.subrange(0, j as int)) + seq![',', ' ']
            } else {
                args_text(av.subrange(0, j as int))
            }),
        decreases args@.len() - j,
    {
        let piece = args[j].to_text();
        out.append(piece.as_str());
        if j < args.len() - 1 {
            push_char(&mut out, ',');
            push_char(&mut out, ' ');
        }
        proof {
            crate::builder::lemma_exprs_view_index(args@, j as int);
            let sub1 = av.subrange(0, j as int + 1);
            assert(sub1.drop_last() =~= av.subrange(0, j as int));
            assert(sub1.last() == av[j as int]);
            if j == 0 {
                assert(sub1[0] == av[0]);
                assert(args_text(sub1) == expr_text(av[0]));
            }
            if j as int + 1 < av.len() {
                assert(out@ =~= args_text(sub1) + seq![',', ' ']);
            } else {
                assert(out@ =~= args_text(sub1));
            }
        }
        j = j + 1;
    }
    proof {
        assert(av.subrange(0, av.len() as int) =~= av);
        if av.len() == 0 {
            assert(out@ =~= args_text(av));
        }
    }
    out
}

/// The tree-reconstruction display of a successfully built tree is plain
/// `name(…)`/literal text: a literal renders as its numeral's digits, and a
/// well-formed application renders as one of the six operation names around
/// the parenthesized, `, `-separated renderings of its one or two operands.
/// Nothing further is claimed: re-reading the rendering through the lexer
/// is not promised to give the tree back.
pub proof fn lemma_tree_text_shape(e: ExprV)
    ensures
        e is Num ==> expr_text(e) == numeral_text(e->Num_0),
        e is Apply ==> expr_text(e) == e->Apply_0.name + seq!['('] + args_text(e->Apply_1)
            + seq![')'],
        e is Apply && expr_wf(e) ==> {
            let name = e->Apply_0.name;
            (name == "add"@ || name == "sub"@ || name == "mul"@ || name == "div"@ || name
                == "pow"@ || name == "inv"@) && 1 <= e->Apply_1.len() <= 2
        },
{
    if e is Apply && expr_wf(e) {
        let f = e->Apply_0;
        assert(f == func_of(f.op));
        match f.op {
            Operator::Add => {},
            Operator::Subtract => {},
            Operator::Multiply => {},
            Operator::Divide => {},
            Operator::Pow => {},
            Operator::Inverse => {},
        }
    }
}

} // verus!
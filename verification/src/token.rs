use vstd::prelude::*;

use crate::error::ErrView;
use crate::error::ParsingError;
use crate::operator::Operator;

verus! {

/// The digit text of a number literal: the digits before and after the
/// decimal point. A plain integer has an empty fractional part; a literal
/// that starts with the point gets `0` seeded as its integer part. Numbers
/// travel through the crate as this text; turning it into a machine float
/// is left to the caller, and a numeral with at least one digit always
/// denotes one (overlong ones overflow to infinity, never to an error).
#[derive(Debug)]
pub struct Numeral {
    pub int_part: Vec<char>,
    pub frac_part: Vec<char>,
}

/// The mathematical value of a [`Numeral`].
#[verifier::ext_equal]
pub struct NumeralV {
    pub int_part: Seq<char>,
    pub frac_part: Seq<char>,
}

impl View for Numeral {
    type V = NumeralV;

    open spec fn view(&self) -> NumeralV {
        NumeralV { int_part: self.int_part@, frac_part: self.frac_part@ }
    }
}

/// A lexical token: a number literal, an operator mark, or one fully
/// parenthesized sub-expression holding the tokens between its parentheses.
#[derive(Debug)]
pub enum ParsingToken {
    Number(Numeral),
    Operator(Operator),
    Parenthesis(Vec<ParsingToken>),
}

/// The mathematical value of a [`ParsingToken`].
#[verifier::ext_equal]
pub enum Tok {
    Num(NumeralV),
    Op(Operator),
    Group(Seq<Tok>),
}

pub open spec fn tok_view(t: ParsingToken) -> Tok
    decreases t,
{
    match t {
        ParsingToken::Number(n) => Tok::Num(n@),
        ParsingToken::Operator(o) => Tok::Op(o),
        ParsingToken::Parenthesis(v) => Tok::Group(toks_view(v@)),
    }
}

pub open spec fn toks_view(s: Seq<ParsingToken>) -> Seq<Tok>
    decreases s,
{
    if s.len() == 0 {
        Seq::empty()
    } else {
        toks_view(s.drop_last()).push(tok_view(s.last()))
    }
}

impl View for ParsingToken {
    type V = Tok;

    open spec fn view(&self) -> Tok {
        tok_view(*self)
    }
}

pub broadcast proof fn lemma_toks_view_len(s: Seq<ParsingToken>)
    ensures
        #[trigger] toks_view(s).len() == s.len(),
    decreases s,
{
    if s.len() > 0 {
        lemma_toks_view_len(s.drop_last());
    }
}

pub broadcast proof fn lemma_toks_view_index(s: Seq<ParsingToken>, i: int)
    requires
        0 <= i < s.len(),
    ensures
        #[trigger] toks_view(s)[i] == tok_view(s[i]),
    decreases s,
{
    lemma_toks_view_len(s);
    if i < s.len() - 1 {
        lemma_toks_view_index(s.drop_last(), i);
        lemma_toks_view_len(s.drop_last());
    }
}

pub proof fn lemma_toks_view_subrange(s: Seq<ParsingToken>, a: int, b: int)
    requires
        0 <= a <= b <= s.len(),
    ensures
        toks_view(s.subrange(a, b)) == toks_view(s).subrange(a, b),
{
    lemma_toks_view_len(s);
    lemma_toks_view_len(s.subrange(a, b));
    assert forall|i: int| 0 <= i < b - a implies toks_view(s.subrange(a, b))[i] == toks_view(
        s,
    ).subrange(a, b)[i] by {
        lemma_toks_view_index(s.subrange(a, b), i);
        lemma_toks_view_index(s, a + i);
    }
    assert(toks_view(s.subrange(a, b)) =~= toks_view(s).subrange(a, b));
}

pub proof fn lemma_toks_view_push(s: Seq<ParsingToken>, t: ParsingToken)
    ensures
        toks_view(s.push(t)) == toks_view(s).push(tok_view(t)),
{
    assert(s.push(t).drop_last() =~= s);
    assert(s.push(t).last() == t);
    assert(toks_view(s.push(t)) == toks_view(s).push(tok_view(t)));
}

/// The scanner's running state: the tokens emitted so far, the pending
/// number buffers, whether the pending number has passed its decimal point,
/// the parenthesis depth, and the index where the current outermost
/// parenthesis group began.
#[verifier::ext_equal]
pub struct ScanState {
    pub toks: Seq<Tok>,
    pub int_part: Seq<char>,
    pub frac_part: Seq<char>,
    pub is_float: bool,
    pub depth: int,
    pub start: int,
}

pub open spec fn init_state() -> ScanState {
    ScanState {
        toks: Seq::empty(),
        int_part: Seq::empty(),
        frac_part: Seq::empty(),
        is_float: false,
        depth: 0,
        start: 0,
    }
}

pub open spec fn st_of(
    toks: Seq<Tok>,
    int_part: Seq<char>,
    frac_part: Seq<char>,
    is_float: bool,
    depth: int,
    start: int,
) -> ScanState {
    ScanState { toks, int_part, frac_part, is_float, depth, start }
}

pub open spec fn is_digit(c: char) -> bool {
    '0' <= c && c <= '9'
}

pub open spec fn err_at(s: Seq<char>, msg: Seq<char>, i: int) -> ErrView {
    ErrView { msg, base: Some(s), index: Some(i) }
}

pub open spec fn last_is_group(toks: Seq<Tok>) -> bool {
    toks.len() > 0 && toks.last() is Group
}

pub open spec fn push_op(st: ScanState, o: Operator) -> ScanState {
    ScanState { toks: st.toks.push(Tok::Op(o)), ..st }
}

/// Flushing the pending number: a no-op right after a closed group, an
/// `Invalid number` error when nothing at all is pending, and otherwise a
/// `Number` token built from the buffers, which are then reset.
pub open spec fn flush4(
    toks: Seq<Tok>,
    int_part: Seq<char>,
    frac_part: Seq<char>,
    is_float: bool,
    s: Seq<char>,
    i: int,
) -> Result<(Seq<Tok>, Seq<char>, Seq<char>, bool), ErrView> {
    if last_is_group(toks) {
        Ok((toks, int_part, frac_part, is_float))
    } else if int_part.len() == 0 && frac_part.len() == 0 {
        Err(err_at(s, "Invalid number"@, i))
    } else {
        Ok(
            (
                toks.push(Tok::Num(NumeralV { int_part, frac_part })),
                Seq::empty(),
                Seq::empty(),
                false,
            ),
        )
    }
}

pub open spec fn flush(st: ScanState, s: Seq<char>, i: int) -> Result<ScanState, ErrView> {
    match flush4(st.toks, st.int_part, st.frac_part, st.is_float, s, i) {
        Ok((toks, int_part, frac_part, is_float)) => Ok(
            ScanState { toks, int_part, frac_part, is_float, ..st },
        ),
        Err(e) => Err(e),
    }
}

pub open spec fn flush_then_op(st: ScanState, s: Seq<char>, i: int, o: Operator) -> Result<
    ScanState,
    ErrView,
> {
    match flush(st, s, i) {
        Ok(f) => Ok(push_op(f, o)),
        Err(e) => Err(e),
    }
}

/// One scanner step for the character `s[i]`, for every character except
/// the closing parenthesis (which is the one step that recurses, and so is
/// handled inside [`spec_scan`]). While the depth is positive the scanner
/// is inside an outermost group, whose characters are left to the recursive
/// scan of the group's inside — except that an unknown character still
/// fails at once, against the whole text.
pub open spec fn scan_step(s: Seq<char>, st: ScanState, i: int) -> Result<ScanState, ErrView> {
    let c = s[i];
    if is_digit(c) {
        if st.depth > 0 {
            Ok(st)
        } else {
            let toks = if last_is_group(st.toks) {
                st.toks.push(Tok::Op(Operator::Multiply))
            } else {
                st.toks
            };
            if st.is_float {
                Ok(ScanState { toks, frac_part: st.frac_part.push(c), ..st })
            } else {
                Ok(ScanState { toks, int_part: st.int_part.push(c), ..st })
            }
        }
    } else if c == '.' {
        if st.depth > 0 {
            Ok(st)
        } else if st.is_float {
            Err(err_at(s, "Invalid number"@, i))
        } else {
            let int_part = if st.int_part.len() == 0 {
                seq!['0']
            } else {
                st.int_part
            };
            Ok(ScanState { int_part, is_float: true, ..st })
        }
    } else if c == '+' {
        if st.depth > 0 {
            Ok(st)
        } else {
            flush_then_op(st, s, i, Operator::Add)
        }
    } else if c == '-' {
        if st.depth > 0 {
            Ok(st)
        } else if st.int_part.len() == 0 {
            // Nothing pending reads this minus as unary. The test keys on
            // the buffer alone, so a minus right after a closed group is
            // also read as unary.
            Ok(push_op(st, Operator::Inverse))
        } else {
            flush_then_op(st, s, i, Operator::Subtract)
        }
    } else if c == '*' {
        if st.depth > 0 {
            Ok(st)
        } else {
            flush_then_op(st, s, i, Operator::Multiply)
        }
    } else if c == '/' {
        if st.depth > 0 {
            Ok(st)
        } else {
            flush_then_op(st, s, i, Operator::Divide)
        }
    } else if c == '^' {
        if st.depth > 0 {
            Ok(st)
        } else {
            flush_then_op(st, s, i, Operator::Pow)
        }
    } else if c == '(' {
        // A pending number turns into an implicit multiplication. This is
        // not skipped at positive depth; the flush cannot fail here since
        // the integer buffer is not empty.
        let r = if st.int_part.len() > 0 {
            flush_then_op(st, s, i, Operator::Multiply)
        } else {
            Ok(st)
        };
        match r {
            Ok(st1) => {
                let st2 = if st1.depth == 0 {
                    ScanState { start: i, ..st1 }
                } else {
                    st1
                };
                Ok(ScanState { depth: st2.depth + 1, ..st2 })
            },
            Err(e) => Err(e),
        }
    } else if c == ' ' {
        Ok(st)
    } else {
        Err(err_at(s, "Invalid character"@, i))
    }
}

/// What the scanner does once the whole text is read: an unbalanced depth
/// is an error, and a still-pending number is emitted (its integer part is
/// never empty without the fractional part being empty too, so this flush
/// cannot fail).
pub open spec fn spec_finish(s: Seq<char>, st: ScanState) -> Result<Seq<Tok>, ErrView> {
    if st.depth != 0 {
        Err(err_at(s, "Parenthesis not closed"@, s.len() - 1))
    } else if st.int_part.len() > 0 {
        Ok(st.toks.push(Tok::Num(NumeralV { int_part: st.int_part, frac_part: st.frac_part })))
    } else {
        Ok(st.toks)
    }
}

/// The scanner from position `i` in state `st`: the functional mirror of
/// the lexer's loop. The closing parenthesis that returns the depth to
/// zero emits a `Group` token holding the recursive scan of the characters
/// strictly between the recorded opening index and `i`.
pub open spec fn spec_scan(s: Seq<char>, i: int, st: ScanState) -> Result<Seq<Tok>, ErrView>
    decreases s.len(), s.len() - i,
{
    if !(0 <= i < s.len()) {
        spec_finish(s, st)
    } else if s[i] == ')' {
        let st1 = ScanState { depth: st.depth - 1, ..st };
        if st1.depth == 0 {
            if st.start + 1 == i {
                Err(err_at(s, "Empty parenthesis"@, i - 1))
            } else {
                // In any scan that began at index 0 the recorded start is
                // a real opening parenthesis before `i`; the bound guards
                // the subrange for states that no scan reaches.
                let lo = if 0 <= st.start && st.start + 1 <= i {
                    st.start + 1
                } else {
                    i
                };
                match spec_tokenize(s.subrange(lo, i)) {
                    Ok(inner) => spec_scan(
                        s,
                        i + 1,
                        ScanState { toks: st1.toks.push(Tok::Group(inner)), ..st1 },
                    ),
                    Err(e) => Err(e),
                }
            }
        } else {
            spec_scan(s, i + 1, st1)
        }
    } else {
        match scan_step(s, st, i) {
            Ok(st2) => spec_scan(s, i + 1, st2),
            Err(e) => Err(e),
        }
    }
}

/// The tokens of a text, or the first error the scan runs into.
pub open spec fn spec_tokenize(s: Seq<char>) -> Result<Seq<Tok>, ErrView>
    decreases s.len(), s.len() + 1,
{
    spec_scan(s, 0, init_state())
}

/// The value of a lexer result: the token views on success, the error view
/// on failure.
pub open spec fn tokens_result_view(r: Result<Vec<ParsingToken>, ParsingError>) -> Result<
    Seq<Tok>,
    ErrView,
> {
    match r {
        Ok(v) => Ok(toks_view(v@)),
        Err(e) => Err(e@),
    }
}

/// Whether the most recently emitted token is a parenthesis group.
fn last_is_paren(tokens: &Vec<ParsingToken>) -> (b: bool)
    ensures
        b == last_is_group(toks_view(tokens@)),
{
    proof {
        lemma_toks_view_len(tokens@);
        if tokens@.len() > 0 {
            lemma_toks_view_index(tokens@, tokens@.len() - 1);
        }
    }
    if tokens.len() == 0 {
        false
    } else {
        let idx = tokens.len() - 1;
        match &tokens[idx] {
            ParsingToken::Parenthesis(_) => true,
            _ => false,
        }
    }
}

impl ParsingToken {
    /// Joins the two digit buffers into a numeral. The buffers only ever
    /// hold decimal digits (a seeded `0` included), and any spelling with
    /// at least one digit denotes a machine float, so the one invalid
    /// spelling is the one with no digits at all.
    pub fn build_number(int_part: Vec<char>, frac_part: Vec<char>) -> (r: Result<Numeral, String>)
        ensures
            match r {
                Ok(n) => (int_part@.len() > 0 || frac_part@.len() > 0) && n@ == (NumeralV {
                    int_part: int_part@,
                    frac_part: frac_part@,
                }),
                Err(m) => int_part@.len() == 0 && frac_part@.len() == 0 && m@ == "Invalid number"@,
            },
    {
        if int_part.len() == 0 && frac_part.len() == 0 {
            let mut m = String::new();
            m.append("Invalid number");
            proof {
                assert(m@ =~= "Invalid number"@);
            }
            Err(m)
        } else {
            Ok(Numeral { int_part, frac_part })
        }
    }
}

/// Flushes the pending number: emits a `Number` token from the buffers and
/// resets them, unless the most recent token is a group (then nothing
/// happens), or nothing is pending (then the scan fails at `index`).
fn compute_number(
    int_part: &mut Vec<char>,
    frac_part: &mut Vec<char>,
    tokens: &mut Vec<ParsingToken>,
    is_float: &mut bool,
    source: &str,
    index: usize,
) -> (r: Result<(), ParsingError>)
    ensures
        match flush4(
            toks_view(old(tokens)@),
            old(int_part)@,
            old(frac_part)@,
            *old(is_float),
            source@,
            index as int,
        ) {
            Ok((toks2, int2, frac2, isf2)) => r is Ok && toks_view(final(tokens)@) == toks2
                && final(int_part)@ == int2 && final(frac_part)@ == frac2 && *final(is_float)
                == isf2,
            Err(e) => r is Err && (match r {
                Err(pe) => pe@ == e,
                Ok(_) => false,
            }),
        },
{
    if last_is_paren(tokens) {
        return Ok(());
    }
    let mut ip: Vec<char> = Vec::new();
    let mut fp: Vec<char> = Vec::new();
    core::mem::swap(&mut ip, int_part);
    core::mem::swap(&mut fp, frac_part);
    match ParsingToken::build_number(ip, fp) {
        Ok(n) => {
            let ghost t = ParsingToken::Number(n);
            tokens.push(ParsingToken::Number(n));
            *is_float = false;
            proof {
                lemma_toks_view_push(old(tokens)@, t);
            }
            Ok(())
        },
        Err(m) => Err(ParsingError::indexed(m, String::from_str(source), index)),
    }
}

impl ParsingToken {
    /// Scans `input` left to right into lexical tokens, or fails with the
    /// first positioned error. The result, success and failure alike, is
    /// exactly what the functional scanner [`spec_tokenize`] yields.
    pub fn tokenize(input: &str) -> (r: Result<Vec<ParsingToken>, ParsingError>)
        ensures
            tokens_result_view(r) == spec_tokenize(input@),
        decreases input@.len(),
    {
        let ghost s = input@;
        let n = input.unicode_len();
        let mut tokens: Vec<ParsingToken> = Vec::new();
        let mut int_part: Vec<char> = Vec::new();
        let mut frac_part: Vec<char> = Vec::new();
        let mut is_float = false;
        let mut depth: i128 = 0;
        let mut start: usize = 0;
        let mut i: usize = 0;

        proof {
            assert(st_of(toks_view(tokens@), int_part@, frac_part@, is_float, 0, 0)
                =~= init_state());
        }

        while i < n
            invariant
                n == s.len(),
                s == input@,
                i <= n,
                -(i as int) <= depth as int && depth as int <= i as int,
                depth as int >= 1 ==> start < i,
                spec_scan(
                    s,
                    i as int,
                    st_of(
                        toks_view(tokens@),
                        int_part@,
                        frac_part@,
                        is_float,
                        depth as int,
                        start as int,
                    ),
                ) == spec_tokenize(s),
            decreases n - i,
        {
            let ghost st = st_of(
                toks_view(tokens@),
                int_part@,
                frac_part@,
                is_float,
                depth as int,
                start as int,
            );
            let c = input.get_char(i);
            if '0' <= c && c <= '9' {
                if depth > 0 {
                    // inside an outermost group: left to the recursive scan
                } else {
                    if last_is_paren(&tokens) {
                        // implicit multiplication after a closed group
                        let ghost pre = tokens@;
                        tokens.push(ParsingToken::Operator(Operator::Multiply));
                        proof {
                            lemma_toks_view_push(pre, ParsingToken::Operator(Operator::Multiply));
                        }
                    }
                    if is_float {
                        frac_part.push(c);
                    } else {
                        int_part.push(c);
                    }
                }
                proof {
                    let st2 = st_of(
                        toks_view(tokens@),
                        int_part@,
                        frac_part@,
                        is_float,
                        depth as int,
                        start as int,
                    );
                    assert(scan_step(s, st, i as int) == Ok::<ScanState, ErrView>(st2));
                }
            } else if c == '.' {
                if depth > 0 {
                    // inside an outermost group
                } else if is_float {
                    return Err(
                        ParsingError::indexed(
                            String::from_str("Invalid number"),
                            String::from_str(input),
                            i,
                        ),
                    );
                } else {
                    if int_part.len() == 0 {
                        int_part.push('0');
                        proof {
                            assert(int_part@ =~= seq!['0']);
                        }
                    }
                    is_float = true;
                }
                proof {
                    let st2 = st_of(
                        toks_view(tokens@),
                        int_part@,
                        frac_part@,
                        is_float,
                        depth as int,
                        start as int,
                    );
                    assert(scan_step(s, st, i as int) == Ok::<ScanState, ErrView>(st2));
                }
            } else if c == '+' {
                if depth <= 0 {
                    match compute_number(&mut int_part, &mut frac_part, &mut tokens, &mut is_float, input, i) {
                        Ok(_) => {},
                        Err(e) => {
                            return Err(e);
                        },
                    }
                    let ghost pre = tokens@;
                    tokens.push(ParsingToken::Operator(Operator::Add));
                    proof {
                        lemma_toks_view_push(pre, ParsingToken::Operator(Operator::Add));
                    }
                    proof {
                        let st2 = st_of(
                            toks_view(tokens@),
                            int_part@,
                            frac_part@,
                            is_float,
                            depth as int,
                            start as int,
                        );
                        assert(scan_step(s, st, i as int) == Ok::<ScanState, ErrView>(st2));
                    }
                }
            } else if c == '-' {
                if depth <= 0 {
                    if int_part.len() == 0 {
                        // nothing pending: this minus is unary
                        let ghost pre = tokens@;
                        tokens.push(ParsingToken::Operator(Operator::Inverse));
                        proof {
                            lemma_toks_view_push(pre, ParsingToken::Operator(Operator::Inverse));
                        }
                    } else {
                        match compute_number(&mut int_part, &mut frac_part, &mut tokens, &mut is_float, input, i) {
                            Ok(_) => {},
                            Err(e) => {
                                return Err(e);
                            },
                        }
                        let ghost pre = tokens@;
                        tokens.push(ParsingToken::Operator(Operator::Subtract));
                        proof {
                            lemma_toks_view_push(pre, ParsingToken::Operator(Operator::Subtract));
                        }
                    }
                }
            } else if c == '*' {
                if depth <= 0 {
                    match compute_number(&mut int_part, &mut frac_part, &mut tokens, &mut is_float, input, i) {
                        Ok(_) => {},
                        Err(e) => {
                            return Err(e);
                        },
                    }
                    let ghost pre = tokens@;
                    tokens.push(ParsingToken::Operator(Operator::Multiply));
                    proof {
                        lemma_toks_view_push(pre, ParsingToken::Operator(Operator::Multiply));
                    }
                    proof {
                        let st2 = st_of(
                            toks_view(tokens@),
                            int_part@,
                            frac_part@,
                            is_float,
                            depth as int,
                            start as int,
                        );
                        assert(scan_step(s, st, i as int) == Ok::<ScanState, ErrView>(st2));
                    }
                }
            } else if c == '/' {
                if depth <= 0 {
                    match compute_number(&mut int_part, &mut frac_part, &mut tokens, &mut is_float, input, i) {
                        Ok(_) => {},
                        Err(e) => {
                            return Err(e);
                        },
                    }
                    let ghost pre = tokens@;
                    tokens.push(ParsingToken::Operator(Operator::Divide));
                    proof {
                        lemma_toks_view_push(pre, ParsingToken::Operator(Operator::Divide));
                    }
                    proof {
                        let st2 = st_of(
                            toks_view(tokens@),
                            int_part@,
                            frac_part@,
                            is_float,
                            depth as int,
                            start as int,
                        );
                        assert(scan_step(s, st, i as int) == Ok::<ScanState, ErrView>(st2));
                    }
                }
            } else if c == '^' {
                if depth <= 0 {
                    match compute_number(&mut int_part, &mut frac_part, &mut tokens, &mut is_float, input, i) {
                        Ok(_) => {},
                        Err(e) => {
                            return Err(e);
                        },
                    }
                    let ghost pre = tokens@;
                    tokens.push(ParsingToken::Operator(Operator::Pow));
                    proof {
                        lemma_toks_view_push(pre, ParsingToken::Operator(Operator::Pow));
                    }
                    proof {
                        let st2 = st_of(
                            toks_view(tokens@),
                            int_part@,
                            frac_part@,
                            is_float,
                            depth as int,
                            start as int,
                        );
                        assert(scan_step(s, st, i as int) == Ok::<ScanState, ErrView>(st2));
                    }
                }
            } else if c == '(' {
                if int_part.len() > 0 {
                    // a pending number multiplies the group that follows
                    match compute_number(&mut int_part, &mut frac_part, &mut tokens, &mut is_float, input, i) {
                        Ok(_) => {},
                        Err(e) => {
                            return Err(e);
                        },
                    }
                    let ghost pre = tokens@;
                    tokens.push(ParsingToken::Operator(Operator::Multiply));
                    proof {
                        lemma_toks_view_push(pre, ParsingToken::Operator(Operator::Multiply));
                    }
                }
                if depth == 0 {
                    start = i;
                }
                depth = depth + 1;
                proof {
                    let st2 = st_of(
                        toks_view(tokens@),
                        int_part@,
                        frac_part@,
                        is_float,
                        depth as int,
                        start as int,
                    );
                    assert(scan_step(s, st, i as int) == Ok::<ScanState, ErrView>(st2));
                }
            } else if c == ')' {
                depth = depth - 1;
                if depth == 0 {
                    if start + 1 == i {
                        return Err(
                            ParsingError::indexed(
                                String::from_str("Empty parenthesis"),
                                String::from_str(input),
                                i - 1,
                            ),
                        );
                    }
                    let sub = input.substring_char(start + 1, i);
                    match Self::tokenize(sub) {
                        Ok(inner) => {
                            let ghost pre = tokens@;
                            let ghost t = ParsingToken::Parenthesis(inner);
                            tokens.push(ParsingToken::Parenthesis(inner));
                            proof {
                                lemma_toks_view_push(pre, t);
                                let st2 = st_of(
                                    toks_view(tokens@),
                                    int_part@,
                                    frac_part@,
                                    is_float,
                                    depth as int,
                                    start as int,
                                );
                                assert(spec_scan(s, i as int, st) == spec_scan(
                                    s,
                                    i as int + 1,
                                    st2,
                                ));
                            }
                        },
                        Err(e) => {
                            proof {
                                assert(spec_scan(s, i as int, st) == Err::<Seq<Tok>, ErrView>(e@));
                            }
                            return Err(e);
                        },
                    }
                } else {
                    proof {
                        let st2 = st_of(
                            toks_view(tokens@),
                            int_part@,
                            frac_part@,
                            is_float,
                            depth as int,
                            start as int,
                        );
                        assert(spec_scan(s, i as int, st) == spec_scan(s, i as int + 1, st2));
                    }
                }
            } else if c == ' ' {
                // spaces are ignored
            } else {
                return Err(
                    ParsingError::indexed(
                        String::from_str("Invalid character"),
                        String::from_str(input),
                        i,
                    ),
                );
            }
            i = i + 1;
        }

        if depth != 0 {
            return Err(
                ParsingError::indexed(
                    String::from_str("Parenthesis not closed"),
                    String::from_str(input),
                    n - 1,
                ),
            );
        }
        if int_part.len() > 0 {
            let ghost pre = tokens@;
            let num = Numeral { int_part, frac_part };
            let ghost t = ParsingToken::Number(num);
            tokens.push(ParsingToken::Number(num));
            proof {
                lemma_toks_view_push(pre, t);
            }
        }
        Ok(tokens)
    }
}

/// Copies a character buffer.
fn clone_chars(v: &Vec<char>) -> (r: Vec<char>)
    ensures
        r@ == v@,
{
    let mut out: Vec<char> = Vec::new();
    let mut j: usize = 0;
    while j < v.len()
        invariant
            j <= v@.len(),
            out@ == v@.subrange(0, j as int),
        decreases v@.len() - j,
    {
        out.push(v[j]);
        proof {
            assert(v@.subrange(0, j as int + 1) =~= v@.subrange(0, j as int).push(v@[j as int]));
        }
        j = j + 1;
    }
    proof {
        assert(v@.subrange(0, v@.len() as int) =~= v@);
    }
    out
}

impl Numeral {
    /// An owned copy of this numeral.
    pub fn duplicate(&self) -> (r: Numeral)
        ensures
            r@ == self@,
    {
        Numeral { int_part: clone_chars(&self.int_part), frac_part: clone_chars(&self.frac_part) }
    }
}

} // verus!
use vstd::prelude::*;

use crate::builder::lowest_from;
use crate::builder::lowest_index;
use crate::builder::prio_at;
use crate::error::ErrView;
use crate::token::NumeralV;
use crate::token::ScanState;
use crate::token::Tok;
use crate::token::init_state;
use crate::token::is_digit;
use crate::token::last_is_group;
use crate::token::scan_step;
use crate::token::spec_scan;
use crate::token::spec_tokenize;
use crate::operator::spec_priority;
use crate::token::spec_finish;
use crate::token::flush4;

verus! {

/// A plain decimal literal: one or more characters, all of them digits but
/// for at most one decimal point, and at least one digit among them.
pub open spec fn is_decimal_literal(s: Seq<char>) -> bool {
    &&& s.len() > 0
    &&& forall|i: int| 0 <= i < s.len() ==> is_digit(s[i]) || s[i] == '.'
    &&& forall|i: int, j: int| 0 <= i < j < s.len() ==> !(s[i] == '.' && s[j] == '.')
    &&& exists|i: int| 0 <= i < s.len() && is_digit(s[i])
}

/// Where the decimal point of a literal stands, if anywhere.
pub open spec fn dot_pos(s: Seq<char>) -> Option<int> {
    if exists|k: int| 0 <= k < s.len() && s[k] == '.' {
        Some(choose|k: int| 0 <= k < s.len() && s[k] == '.')
    } else {
        None
    }
}

/// The numeral a decimal literal carries: its digits before and after the
/// point, with `0` seeded as the integer part when no digit precedes the
/// point.
pub open spec fn literal_numeral(s: Seq<char>) -> NumeralV {
    match dot_pos(s) {
        None => NumeralV { int_part: s, frac_part: Seq::empty() },
        Some(d) => NumeralV {
            int_part: if d == 0 {
                seq!['0']
            } else {
                s.subrange(0, d)
            },
            frac_part: s.subrange(d + 1, s.len() as int),
        },
    }
}

/// The scanner's state after reading the first `i` characters of a decimal
/// literal: no token emitted yet, depth zero, and the buffers holding the
/// digits read so far on either side of the point.
spec fn literal_scan_state(s: Seq<char>, i: int, st: ScanState) -> bool {
    &&& st.toks == Seq::<Tok>::empty()
    &&& st.depth == 0
    &&& match dot_pos(s) {
        None => st.int_part == s.subrange(0, i) && st.frac_part == Seq::<char>::empty()
            && !st.is_float,
        Some(d) => if i <= d {
            st.int_part == s.subrange(0, i) && st.frac_part == Seq::<char>::empty()
                && !st.is_float
        } else {
            st.int_part == (if d == 0 {
                seq!['0']
            } else {
                s.subrange(0, d)
            }) && st.frac_part == s.subrange(d + 1, i) && st.is_float
        },
    }
}

proof fn lemma_scan_literal(s: Seq<char>, i: int, st: ScanState)
    requires
        is_decimal_literal(s),
        0 <= i <= s.len(),
        literal_scan_state(s, i, st),
    ensures
        spec_scan(s, i, st) == Ok::<Seq<Tok>, ErrView>(seq![Tok::Num(literal_numeral(s))]),
    decreases s.len() - i,
{
    if i == s.len() {
        match dot_pos(s) {
            None => {
                assert(s.subrange(0, s.len() as int) =~= s);
                assert(st.int_part.len() > 0);
            },
            Some(d) => {
                assert(0 <= d < s.len() && s[d] == '.');
                assert(st.int_part.len() > 0);
                assert(st.frac_part == s.subrange(d + 1, s.len() as int));
            },
        }
        assert(st.toks.push(Tok::Num(NumeralV { int_part: st.int_part, frac_part: st.frac_part }))
            =~= seq![Tok::Num(literal_numeral(s))]);
    } else {
        let c = s[i];
        assert(is_digit(c) || c == '.');
        assert(!last_is_group(st.toks));
        if c == '.' {
            let d = dot_pos(s)->Some_0;
            assert(dot_pos(s) is Some);
            assert(0 <= d < s.len() && s[d] == '.');
            assert(d == i);
            let ip2 = if st.int_part.len() == 0 {
                seq!['0']
            } else {
                st.int_part
            };
            let st2 = ScanState { int_part: ip2, is_float: true, ..st };
            assert(scan_step(s, st, i) == Ok::<ScanState, ErrView>(st2));
            assert(literal_scan_state(s, i + 1, st2)) by {
                assert(s.subrange(0, i) =~= st.int_part);
                if d == 0 {
                    assert(st.int_part =~= Seq::<char>::empty());
                } else {
                    assert(st.int_part.len() == i && i == d);
                }
                assert(s.subrange(d + 1, i + 1) =~= Seq::<char>::empty());
            }
            lemma_scan_literal(s, i + 1, st2);
            assert(spec_scan(s, i, st) == spec_scan(s, i + 1, st2));
        } else {
            assert(c != ')' && c != '(');
            match dot_pos(s) {
                None => {
                    let st2 = ScanState { int_part: st.int_part.push(c), ..st };
                    assert(scan_step(s, st, i) == Ok::<ScanState, ErrView>(st2));
                    assert(st2.int_part =~= s.subrange(0, i + 1));
                    lemma_scan_literal(s, i + 1, st2);
                    assert(spec_scan(s, i, st) == spec_scan(s, i + 1, st2));
                },
                Some(d) => {
                    assert(0 <= d < s.len() && s[d] == '.');
                    assert(i != d);
                    if i < d {
                        let st2 = ScanState { int_part: st.int_part.push(c), ..st };
                        assert(scan_step(s, st, i) == Ok::<ScanState, ErrView>(st2));
                        assert(st2.int_part =~= s.subrange(0, i + 1));
                        lemma_scan_literal(s, i + 1, st2);
                        assert(spec_scan(s, i, st) == spec_scan(s, i + 1, st2));
                    } else {
                        let st2 = ScanState { frac_part: st.frac_part.push(c), ..st };
                        assert(scan_step(s, st, i) == Ok::<ScanState, ErrView>(st2));
                        assert(st2.frac_part =~= s.subrange(d + 1, i + 1));
                        lemma_scan_literal(s, i + 1, st2);
                        assert(spec_scan(s, i, st) == spec_scan(s, i + 1, st2));
                    }
                },
            }
        }
    }
}

/// Law: tokenizing a decimal literal — digits with at most one decimal
/// point and at least one digit — yields exactly one number token, whose
/// numeral is the literal's own digit text, with `0` seeded as the integer
/// part when the literal starts with the point. So `.5` carries the
/// numeral `0.5`, and `3` carries `3` with no fractional digits.
pub proof fn lemma_literal_single_number(s: Seq<char>)
    requires
        is_decimal_literal(s),
    ensures
        spec_tokenize(s) == Ok::<Seq<Tok>, ErrView>(seq![Tok::Num(literal_numeral(s))]),
{
    assert(literal_scan_state(s, 0, init_state())) by {
        assert(s.subrange(0, 0) =~= Seq::<char>::empty());
    }
    lemma_scan_literal(s, 0, init_state());
}

/// A numeral the lexer can emit: at least one integer digit, and nothing
/// but digits on either side of the point. Such a numeral always denotes a
/// machine float.
pub open spec fn numeral_wf(n: NumeralV) -> bool {
    &&& n.int_part.len() > 0
    &&& forall|i: int| 0 <= i < n.int_part.len() ==> is_digit(#[trigger] n.int_part[i])
    &&& forall|i: int| 0 <= i < n.frac_part.len() ==> is_digit(#[trigger] n.frac_part[i])
}

pub open spec fn tok_nums_wf(t: Tok) -> bool
    decreases t,
{
    match t {
        Tok::Num(n) => numeral_wf(n),
        Tok::Op(_) => true,
        Tok::Group(items) => toks_nums_wf(items),
    }
}

pub open spec fn toks_nums_wf(s: Seq<Tok>) -> bool
    decreases s,
{
    if s.len() == 0 {
        true
    } else {
        toks_nums_wf(s.drop_last()) && tok_nums_wf(s.last())
    }
}

pub broadcast proof fn lemma_nums_wf_push(s: Seq<Tok>, t: Tok)
    ensures
        #[trigger] toks_nums_wf(s.push(t)) <==> toks_nums_wf(s) && tok_nums_wf(t),
{
    assert(s.push(t).drop_last() =~= s);
    assert(s.push(t).last() == t);
}

/// What holds of the scanner's state throughout a scan: the tokens emitted
/// so far carry well-formed numerals, the buffers hold digits alone, a
/// pending fractional part means a pending integer part, and float mode is
/// only ever set with an integer digit already read.
spec fn scan_nums_inv(st: ScanState) -> bool {
    &&& toks_nums_wf(st.toks)
    &&& forall|i: int| 0 <= i < st.int_part.len() ==> is_digit(#[trigger] st.int_part[i])
    &&& forall|i: int| 0 <= i < st.frac_part.len() ==> is_digit(#[trigger] st.frac_part[i])
    &&& st.int_part.len() == 0 ==> st.frac_part.len() == 0
    &&& st.is_float ==> st.int_part.len() > 0
}

proof fn lemma_scan_nums_wf(s: Seq<char>, i: int, st: ScanState)
    requires
        0 <= i <= s.len(),
        scan_nums_inv(st),
    ensures
        spec_scan(s, i, st) matches Ok(toks) ==> toks_nums_wf(toks),
    decreases s.len(), s.len() - i,
{
    broadcast use lemma_nums_wf_push;

    if i == s.len() {
        if spec_finish(s, st) matches Ok(toks) {
            if st.int_part.len() > 0 {
                assert(numeral_wf(
                    NumeralV { int_part: st.int_part, frac_part: st.frac_part },
                ));
            }
        }
    } else if s[i] == ')' {
        let st1 = ScanState { depth: st.depth - 1, ..st };
        if st1.depth == 0 {
            if st.start + 1 != i {
                let lo = if 0 <= st.start && st.start + 1 <= i {
                    st.start + 1
                } else {
                    i
                };
                lemma_tokenize_nums_wf(s.subrange(lo, i));
                match spec_tokenize(s.subrange(lo, i)) {
                    Ok(inner) => {
                        lemma_scan_nums_wf(
                            s,
                            i + 1,
                            ScanState { toks: st1.toks.push(Tok::Group(inner)), ..st1 },
                        );
                    },
                    Err(_) => {},
                }
            }
        } else {
            lemma_scan_nums_wf(s, i + 1, st1);
        }
    } else {
        match scan_step(s, st, i) {
            Ok(st2) => {
                assert(scan_nums_inv(st2)) by {
                    if st2.toks != st.toks || st2.int_part != st.int_part || st2.frac_part
                        != st.frac_part {
                        match flush4(st.toks, st.int_part, st.frac_part, st.is_float, s, i) {
                            Ok((toks2, int2, frac2, isf2)) => {
                                if !last_is_group(st.toks) && st.int_part.len() > 0 {
                                    assert(numeral_wf(
                                        NumeralV {
                                            int_part: st.int_part,
                                            frac_part: st.frac_part,
                                        },
                                    ));
                                }
                            },
                            Err(_) => {},
                        }
                    }
                }
                lemma_scan_nums_wf(s, i + 1, st2);
            },
            Err(_) => {},
        }
    }
}

/// Law: every number token of a successful scan — inside groups as well —
/// carries a well-formed numeral: a nonempty run of integer digits and
/// digits alone after the point. So the digit text of every emitted number
/// denotes a machine float, and reading it back cannot fail.
pub proof fn lemma_tokenize_nums_wf(s: Seq<char>)
    ensures
        spec_tokenize(s) matches Ok(toks) ==> toks_nums_wf(toks),
    decreases s.len(),
{
    lemma_scan_nums_wf(s, 0, init_state());
}

proof fn lemma_lowest_from_char(toks: Seq<Tok>, i: int, best: Option<int>)
    requires
        0 <= i <= toks.len(),
        match best {
            None => forall|t: int| 0 <= t < i ==> !(#[trigger] toks[t] is Op),
            Some(b) => 0 <= b < i && toks[b] is Op && (forall|t: int|
                0 <= t < i && #[trigger] toks[t] is Op ==> prio_at(toks, b) <= prio_at(toks, t))
                && (forall|t: int|
                0 <= t < b ==> !(#[trigger] toks[t] is Op) || prio_at(toks, t) > prio_at(
                    toks,
                    b,
                )),
        },
    ensures
        match lowest_from(toks, i, best) {
            None => forall|t: int| 0 <= t < toks.len() ==> !(#[trigger] toks[t] is Op),
            Some(k) => 0 <= k < toks.len() && toks[k] is Op && (forall|t: int|
                0 <= t < toks.len() && #[trigger] toks[t] is Op ==> prio_at(toks, k) <= prio_at(
                    toks,
                    t,
                )) && (forall|t: int|
                0 <= t < k ==> !(#[trigger] toks[t] is Op) || prio_at(toks, t) > prio_at(
                    toks,
                    k,
                )),
        },
    decreases toks.len() - i,
{
    if i < toks.len() {
        match toks[i] {
            Tok::Op(o) => {
                let best2 = match best {
                    None => Some(i),
                    Some(b) => if spec_priority(o) < prio_at(toks, b) {
                        Some(i)
                    } else {
                        best
                    },
                };
                lemma_lowest_from_char(toks, i + 1, best2);
            },
            _ => {
                lemma_lowest_from_char(toks, i + 1, best);
            },
        }
    }
}

/// Law: the index the tree builder splits at is the leftmost operator of
/// lowest priority. When there is no operator at all there is no split;
/// otherwise every operator in the sequence binds at least as tightly as
/// the one at the split, and every operator strictly before it binds
/// strictly tighter. On a priority tie the earliest operator wins — which
/// is what makes trees over equal-priority operators lean right, so that
/// `1 - 2 - 3` builds as `1 - (2 - 3)`.
pub proof fn lemma_split_is_leftmost_lowest(toks: Seq<Tok>)
    ensures
        match lowest_index(toks) {
            None => forall|t: int| 0 <= t < toks.len() ==> !(#[trigger] toks[t] is Op),
            Some(k) => 0 <= k < toks.len() && toks[k] is Op && (forall|t: int|
                0 <= t < toks.len() && #[trigger] toks[t] is Op ==> prio_at(toks, k) <= prio_at(
                    toks,
                    t,
                )) && (forall|t: int|
                0 <= t < k ==> !(#[trigger] toks[t] is Op) || prio_at(toks, t) > prio_at(
                    toks,
                    k,
                )),
        },
{
    lemma_lowest_from_char(toks, 0, None);
}

} // verus!
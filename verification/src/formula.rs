//! Bracket-syntax formulas: `[a b c]` → right-nested nox pairs.
//!
//! Atoms are u64 decimals, reduced into the field; `[a b c]` builds
//! `pair(a, pair(b, c))`. A bracket needs at least two elements, and
//! nesting is capped so adversarial input cannot exhaust the stack.
use crate::execution::prepare::{decimal, decimal_spec};
use crate::execution::relation::ExecutionNoun;
use crate::field::{modulus, P};
use vstd::prelude::*;
use vstd::string::StrSliceExecFns;

verus! {

/// Order arena size for programs run from the command line.
pub const ORDER_SIZE: usize = 65536;

/// Cap on formula nesting depth.
pub const MAX_DEPTH: usize = 64;

/// A lexical token of a formula.
#[derive(Clone, Copy, Debug, PartialEq, Eq, Structural)]
pub enum Token {
    Open,
    Close,
    Num(u64),
}

/// Unicode white space (what `char::is_whitespace` accepts).
pub open spec fn is_white(c: char) -> bool {
    let u = c as u32;
    (0x9 <= u <= 0xd) || u == 0x20 || u == 0x85 || u == 0xa0 || u == 0x1680 || (0x2000 <= u <= 0x200a) || u == 0x2028 || u == 0x2029
        || u == 0x202f || u == 0x205f || u == 0x3000
}

/// An ASCII decimal digit.
pub open spec fn is_digit(c: char) -> bool {
    '0' <= c <= '9'
}

/// The end of the run of digits starting at `i`.
pub open spec fn digits_end(s: Seq<char>, i: int) -> int
    decreases s.len() - i,
{
    if 0 <= i < s.len() && is_digit(s[i]) {
        digits_end(s, i + 1)
    } else {
        i
    }
}

/// The value of a run of decimal digits.
pub open spec fn digits_value(s: Seq<char>) -> nat
    decreases s.len(),
{
    if s.len() == 0 {
        0
    } else {
        digits_value(s.drop_last()) * 10 + (s.last() as u32 - 48) as nat
    }
}

/// A digit run starting at a digit is non-empty, all digits, and maximal.
pub proof fn lemma_digits_end(s: Seq<char>, i: int)
    requires
        0 <= i,
    ensures
        i <= digits_end(s, i),
        0 <= i < s.len() && is_digit(s[i]) ==> i < digits_end(s, i),
        digits_end(s, i) <= s.len() || digits_end(s, i) == i,
        forall|j: int| i <= j < digits_end(s, i) ==> is_digit(#[trigger] s[j]),
        !(0 <= digits_end(s, i) < s.len() && is_digit(s[digits_end(s, i)])),
    decreases s.len() - i,
{
    if 0 <= i < s.len() && is_digit(s[i]) {
        lemma_digits_end(s, i + 1);
    }
}

/// The tokens of `s` from position `i`, or the message of the first
/// unexpected character or number too large for u64.
pub open spec fn lex(s: Seq<char>, i: int) -> Result<Seq<Token>, Seq<char>>
    decreases s.len() - i,
{
    if i < 0 || i >= s.len() {
        Ok(seq![])
    } else if s[i] == '[' {
        match lex(s, i + 1) {
            Ok(t) => Ok(seq![Token::Open] + t),
            Err(m) => Err(m),
        }
    } else if s[i] == ']' {
        match lex(s, i + 1) {
            Ok(t) => Ok(seq![Token::Close] + t),
            Err(m) => Err(m),
        }
    } else if is_white(s[i]) {
        lex(s, i + 1)
    } else if is_digit(s[i]) {
        let e = digits_end(s, i);
        proof {
            lemma_digits_end(s, i);
        }
        let v = digits_value(s.subrange(i, e));
        if v > u64::MAX {
            Err("bad number '"@ + s.subrange(i, e) + "': number too large to fit in target type"@)
        } else {
            match lex(s, e) {
                Ok(t) => Ok(seq![Token::Num(v as u64)] + t),
                Err(m) => Err(m),
            }
        }
    } else {
        Err("unexpected character '"@ + s.subrange(i, i + 1) + "' in formula"@)
    }
}

/// One bracket token more: the tokens so far plus the rest are still the
/// tokens of the whole text.
proof fn lemma_lex_step(s: Seq<char>, i: int, before: Seq<Token>, after: Seq<Token>, t: Token)
    requires
        0 <= i < s.len(),
        (t == Token::Open && s[i] == '[') || (t == Token::Close && s[i] == ']'),
        after == before.push(t),
    ensures
        (match lex(s, i) {
            Ok(r) => Ok(before + r),
            Err(m) => Err::<Seq<Token>, Seq<char>>(m),
        }) == (match lex(s, i + 1) {
            Ok(r) => Ok(after + r),
            Err(m) => Err::<Seq<Token>, Seq<char>>(m),
        }),
{
    match lex(s, i + 1) {
        Ok(r) => {
            assert(lex(s, i) == Ok::<Seq<Token>, Seq<char>>(seq![t] + r));
            assert(before + (seq![t] + r) =~= after + r);
        },
        Err(m) => {
            assert(lex(s, i) == Err::<Seq<Token>, Seq<char>>(m));
        },
    }
}

/// One number token more, as for brackets.
proof fn lemma_lex_num(s: Seq<char>, i: int, before: Seq<Token>, after: Seq<Token>, v: u64)
    requires
        0 <= i < s.len(),
        is_digit(s[i]),
        digits_value(s.subrange(i, digits_end(s, i))) == v,
        after == before.push(Token::Num(v)),
    ensures
        (match lex(s, i) {
            Ok(r) => Ok(before + r),
            Err(m) => Err::<Seq<Token>, Seq<char>>(m),
        }) == (match lex(s, digits_end(s, i)) {
            Ok(r) => Ok(after + r),
            Err(m) => Err::<Seq<Token>, Seq<char>>(m),
        }),
{
    let e = digits_end(s, i);
    lemma_digits_end(s, i);
    match lex(s, e) {
        Ok(r) => {
            assert(lex(s, i) == Ok::<Seq<Token>, Seq<char>>(seq![Token::Num(v)] + r));
            assert(before + (seq![Token::Num(v)] + r) =~= after + r);
        },
        Err(m) => {
            assert(lex(s, i) == Err::<Seq<Token>, Seq<char>>(m));
        },
    }
}

fn is_white_char(c: char) -> (b: bool)
    ensures
        b == is_white(c),
{
    let u = c as u32;
    (0x9 <= u && u <= 0xd) || u == 0x20 || u == 0x85 || u == 0xa0 || u == 0x1680 || (0x2000 <= u && u <= 0x200a) || u == 0x2028
        || u == 0x2029 || u == 0x202f || u == 0x205f || u == 0x3000
}

fn digit_at(input: &str, i: usize) -> (b: bool)
    requires
        i < input@.len(),
    ensures
        b == is_digit(input@[i as int]),
{
    let d = input.get_char(i);
    '0' <= d && d <= '9'
}

/// The tokens of a formula.
pub fn tokenize(input: &str) -> (r: Result<Vec<Token>, String>)
    ensures
        match lex(input@, 0) {
            Ok(t) => r matches Ok(v) && v@ == t,
            Err(m) => r matches Err(e) && e@ == m,
        },
{
    let n = input.unicode_len();
    let ghost s = input@;
    let mut tokens: Vec<Token> = Vec::new();
    let mut i: usize = 0;
    while i < n
        invariant
            i <= n,
            n == s.len(),
            s == input@,
            lex(s, 0) == match lex(s, i as int) {
                Ok(t) => Ok(tokens@ + t),
                Err(m) => Err::<Seq<Token>, Seq<char>>(m),
            },
        decreases n - i,
    {
        let c = input.get_char(i);
        if c == '[' {
            let ghost before = tokens@;
            tokens.push(Token::Open);
            proof {
                lemma_lex_step(s, i as int, before, tokens@, Token::Open);
            }
            i = i + 1;
        } else if c == ']' {
            let ghost before = tokens@;
            tokens.push(Token::Close);
            proof {
                lemma_lex_step(s, i as int, before, tokens@, Token::Close);
            }
            i = i + 1;
        } else if is_white_char(c) {
            proof {
                assert(lex(s, i as int) == lex(s, i + 1));
            }
            i = i + 1;
        } else if '0' <= c && c <= '9' {
            let start = i;
            let mut v: u64 = 0;
            let mut big = false;
            proof {
                lemma_digits_end(s, start as int);
            }
            while i < n && digit_at(input, i)
                invariant
                    start <= i <= n,
                    n == s.len(),
                    s == input@,
                    i <= digits_end(s, start as int),
                    digits_end(s, start as int) <= n,
                    forall|j: int| start <= j < digits_end(s, start as int) ==> is_digit(#[trigger] s[j]),
                    !(0 <= digits_end(s, start as int) < s.len() && is_digit(s[digits_end(s, start as int)])),
                    big == (digits_value(s.subrange(start as int, i as int)) > u64::MAX),
                    !big ==> v as nat == digits_value(s.subrange(start as int, i as int)),
                decreases n - i,
            {
                let d = input.get_char(i);
                let dv = (d as u32 - 48) as u64;
                proof {
                    let run = s.subrange(start as int, i + 1);
                    assert(run.drop_last() =~= s.subrange(start as int, i as int));
                    assert(run.last() == d);
                }
                if !big {
                    if v > (u64::MAX - dv) / 10 {
                        big = true;
                        proof {
                            assert(v * 10 + dv > u64::MAX) by (nonlinear_arith)
                                requires
                                    v > (u64::MAX - dv) / 10,
                                    dv <= 9,
                            ;
                        }
                    } else {
                        proof {
                            assert(v * 10 + dv <= u64::MAX) by (nonlinear_arith)
                                requires
                                    v <= (u64::MAX - dv) / 10,
                                    dv <= 9,
                            ;
                        }
                        v = v * 10 + dv;
                    }
                } else {
                    proof {
                        let prev = digits_value(s.subrange(start as int, i as int));
                        assert(prev * 10 + dv >= prev) by (nonlinear_arith)
                            requires
                                prev >= 0,
                                dv >= 0,
                        ;
                    }
                }
                i = i + 1;
            }
            proof {
                if i < n {
                    assert(!is_digit(s[i as int]));
                }
                assert(i as int == digits_end(s, start as int));
            }
            if big {
                let num = input.substring_char(start, i);
                let mut msg = String::from_str("bad number '");
                msg.append(num);
                msg.append("': number too large to fit in target type");
                return Err(msg);
            }
            let ghost before = tokens@;
            tokens.push(Token::Num(v));
            proof {
                lemma_lex_num(s, start as int, before, tokens@, v);
            }
        } else {
            let other = input.substring_char(i, i + 1);
            let mut msg = String::from_str("unexpected character '");
            msg.append(other);
            msg.append("' in formula");
            return Err(msg);
        }
    }
    proof {
        assert(tokens@ + seq![] =~= tokens@);
    }
    Ok(tokens)
}

/// `acc` with the nouns of `es` paired onto it from the right:
/// nest_onto([a, b], c) = pair(a, pair(b, c)).
pub open spec fn nest_onto(es: Seq<ExecutionNoun>, acc: ExecutionNoun) -> ExecutionNoun
    decreases es.len(),
{
    if es.len() == 0 {
        acc
    } else {
        nest_onto(es.drop_last(), ExecutionNoun::Pair(Box::new(es.last()), Box::new(acc)))
    }
}

/// The right-nested pairs of a bracket's elements: [a b c] = pair(a, pair(b, c)).
pub open spec fn right_nest(es: Seq<ExecutionNoun>) -> ExecutionNoun {
    nest_onto(es.drop_last(), es.last())
}

/// A formula expression from token `pos` at nesting `depth`: the noun and
/// the position after it, or the message of the first error.
pub open spec fn parse_spec(toks: Seq<Token>, pos: int, depth: int) -> Result<(ExecutionNoun, int), Seq<char>>
    decreases toks.len() - pos, 0int,
{
    if depth > MAX_DEPTH {
        Err("formula nesting too deep"@)
    } else if pos < 0 || pos >= toks.len() {
        Err("empty formula"@)
    } else {
        match toks[pos] {
            Token::Num(v) => Ok((ExecutionNoun::Atom((v as nat % modulus()) as u64), pos + 1)),
            Token::Close => Err("unexpected ']'"@),
            Token::Open => match parse_elems(toks, pos + 1, depth) {
                Ok((es, end)) => if es.len() < 2 {
                    Err("a bracket pair needs at least two elements"@)
                } else {
                    Ok((right_nest(es), end))
                },
                Err(m) => Err(m),
            },
        }
    }
}

/// The elements of a bracket from token `pos` up to its closing bracket,
/// and the position after that bracket, or the message of the first error.
pub open spec fn parse_elems(toks: Seq<Token>, pos: int, depth: int) -> Result<(Seq<ExecutionNoun>, int), Seq<char>>
    decreases toks.len() - pos, 1int,
{
    if pos < 0 || pos >= toks.len() {
        Err("unterminated '['"@)
    } else if toks[pos] == Token::Close {
        Ok((seq![], pos + 1))
    } else {
        match parse_spec(toks, pos, depth + 1) {
            Ok((n, p2)) => if p2 <= pos || p2 > toks.len() {
                Err("unterminated '['"@)
            } else {
                match parse_elems(toks, p2, depth) {
                    Ok((rest, end)) => Ok((seq![n] + rest, end)),
                    Err(m) => Err(m),
                }
            },
            Err(m) => Err(m),
        }
    }
}

proof fn lemma_expr_advances(toks: Seq<Token>, pos: int, depth: int)
    ensures
        parse_spec(toks, pos, depth) matches Ok((n, e)) ==> pos < e <= toks.len(),
    decreases toks.len() - pos, 0int,
{
    if 0 <= pos < toks.len() && depth <= MAX_DEPTH && toks[pos] == Token::Open {
        lemma_elems_advance(toks, pos + 1, depth);
    }
}

proof fn lemma_elems_advance(toks: Seq<Token>, pos: int, depth: int)
    ensures
        parse_elems(toks, pos, depth) matches Ok((es, e)) ==> pos < e <= toks.len(),
    decreases toks.len() - pos, 1int,
{
    if 0 <= pos < toks.len() && toks[pos] != Token::Close {
        if let Ok((n, p2)) = parse_spec(toks, pos, depth + 1) {
            if pos < p2 <= toks.len() {
                lemma_elems_advance(toks, p2, depth);
            }
        }
    }
}

/// Parse one expression at `*pos`, advancing past it.
fn parse_expr(tokens: &Vec<Token>, pos: &mut usize, depth: usize) -> (r: Result<ExecutionNoun, String>)
    requires
        *old(pos) <= tokens@.len(),
        depth <= MAX_DEPTH + 1,
    ensures
        match parse_spec(tokens@, *old(pos) as int, depth as int) {
            Ok((n, e)) => r == Ok::<ExecutionNoun, String>(n) && *final(pos) as int == e,
            Err(m) => r matches Err(x) && x@ == m,
        },
    decreases tokens@.len() - *old(pos),
{
    if depth > MAX_DEPTH {
        return Err(String::from_str("formula nesting too deep"));
    }
    if *pos >= tokens.len() {
        return Err(String::from_str("empty formula"));
    }
    match tokens[*pos] {
        Token::Num(v) => {
            *pos = *pos + 1;
            let g = crate::field::Goldilocks::new(v);
            Ok(ExecutionNoun::Atom(g.as_u64()))
        },
        Token::Close => Err(String::from_str("unexpected ']'")),
        Token::Open => {
            let start = *pos;
            *pos = *pos + 1;
            let mut elems: Vec<ExecutionNoun> = Vec::new();
            while *pos >= tokens.len() || tokens[*pos] != Token::Close
                invariant
                    start < *pos <= tokens@.len(),
                    start == *old(pos),
                    tokens@[start as int] == Token::Open,
                    depth <= MAX_DEPTH,
                    parse_elems(tokens@, start + 1, depth as int) == match parse_elems(tokens@, *pos as int, depth as int) {
                        Ok((rest, end)) => Ok((elems@ + rest, end)),
                        Err(m) => Err::<(Seq<ExecutionNoun>, int), Seq<char>>(m),
                    },
                decreases tokens@.len() - *pos,
            {
                if *pos >= tokens.len() {
                    return Err(String::from_str("unterminated '['"));
                }
                let before = *pos;
                proof {
                    lemma_expr_advances(tokens@, before as int, depth + 1);
                }
                let n = parse_expr(tokens, pos, depth + 1)?;
                proof {
                    match parse_elems(tokens@, *pos as int, depth as int) {
                        Ok((rest, end)) => {
                            assert(elems@.push(n) + rest =~= elems@ + (seq![n] + rest));
                        },
                        Err(m) => {},
                    }
                }
                elems.push(n);
            }
            proof {
                assert(elems@ + seq![] =~= elems@);
            }
            *pos = *pos + 1;
            if elems.len() < 2 {
                return Err(String::from_str("a bracket pair needs at least two elements"));
            }
            let ghost all = elems@;
            let mut acc = elems.pop().unwrap();
            proof {
                assert(elems@ == all.drop_last());
            }
            while elems.len() > 0
                invariant
                    right_nest(all) == nest_onto(elems@, acc),
                decreases elems@.len(),
            {
                let e = elems.pop().unwrap();
                acc = ExecutionNoun::Pair(Box::new(e), Box::new(acc));
            }
            Ok(acc)
        },
    }
}

/// Parse a formula into its noun.
pub fn parse(input: &str) -> (r: Result<ExecutionNoun, String>)
    ensures
        match lex(input@, 0) {
            Err(m) => r matches Err(x) && x@ == m,
            Ok(t) => match parse_spec(t, 0, 0) {
                Ok((n, e)) => if e == t.len() {
                    r == Ok::<ExecutionNoun, String>(n)
                } else {
                    r matches Err(m) && m@ == "unexpected trailing tokens after position "@ + decimal_spec(e as nat)
                },
                Err(m) => r matches Err(x) && x@ == m,
            },
        },
{
    let tokens = tokenize(input)?;
    let mut pos: usize = 0;
    let root = parse_expr(&tokens, &mut pos, 0)?;
    if pos != tokens.len() {
        let mut m = String::from_str("unexpected trailing tokens after position ");
        m.append(decimal(pos as u64).as_str());
        return Err(m);
    }
    Ok(root)
}

} // verus!

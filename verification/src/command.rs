//! The command line's own logic: decimal numbers as `u64::from_str` reads
//! them, the option flags, the count of trace rows that need opening data,
//! and the all-zero statement the commands prove against.
use crate::formula::is_digit;
use crate::types::Statement;
use vstd::prelude::*;
use vstd::string::StrSliceExecFns;

verus! {

/// Why a decimal text is not a `u64`.
#[derive(Clone, Copy, Debug, PartialEq, Eq, Structural)]
pub enum NumberError {
    Empty,
    InvalidDigit,
    PosOverflow,
}

impl NumberError {
    /// The text `u64::from_str` reports for this error.
    pub fn message(self) -> (m: &'static str)
        ensures
            m@ == number_message(self),
    {
        match self {
            NumberError::Empty => "cannot parse integer from empty string",
            NumberError::InvalidDigit => "invalid digit found in string",
            NumberError::PosOverflow => "number too large to fit in target type",
        }
    }
}

/// The message of a number error.
pub open spec fn number_message(e: NumberError) -> Seq<char> {
    match e {
        NumberError::Empty => "cannot parse integer from empty string"@,
        NumberError::InvalidDigit => "invalid digit found in string"@,
        NumberError::PosOverflow => "number too large to fit in target type"@,
    }
}

/// The digits of `s` from `i` on, read onto `acc`: the first character
/// that is not a digit, or the first digit that takes the value past
/// `u64::MAX`, decides the error.
pub open spec fn scan_digits(s: Seq<char>, i: int, acc: nat) -> Result<u64, NumberError>
    decreases s.len() - i,
{
    if i < 0 || i >= s.len() {
        Ok(acc as u64)
    } else if !is_digit(s[i]) {
        Err(NumberError::InvalidDigit)
    } else {
        let v = acc * 10 + (s[i] as u32 - 48) as nat;
        if v > u64::MAX {
            Err(NumberError::PosOverflow)
        } else {
            scan_digits(s, i + 1, v)
        }
    }
}

/// A `u64` in decimal: an optional `+` and at least one digit.
pub open spec fn decimal_u64(s: Seq<char>) -> Result<u64, NumberError> {
    if s.len() == 0 {
        Err(NumberError::Empty)
    } else if s[0] == '+' {
        if s.len() == 1 {
            Err(NumberError::InvalidDigit)
        } else {
            scan_digits(s, 1, 0)
        }
    } else {
        scan_digits(s, 0, 0)
    }
}

/// Read a `u64` written in decimal.
pub fn parse_u64(s: &str) -> (r: Result<u64, NumberError>)
    ensures
        r == decimal_u64(s@),
{
    let n = s.unicode_len();
    if n == 0 {
        return Err(NumberError::Empty);
    }
    let mut i: usize = 0;
    if s.get_char(0) == '+' {
        if n == 1 {
            return Err(NumberError::InvalidDigit);
        }
        i = 1;
    }
    let ghost start = i as int;
    let mut acc: u64 = 0;
    while i < n
        invariant
            n == s@.len(),
            n > 0,
            start == (if s@[0] == '+' { 1int } else { 0int }),
            start <= i <= n,
            decimal_u64(s@) == scan_digits(s@, i as int, acc as nat),
        decreases n - i,
    {
        let c = s.get_char(i);
        if !('0' <= c && c <= '9') {
            return Err(NumberError::InvalidDigit);
        }
        let d = (c as u32 - 48) as u64;
        if acc > (u64::MAX - d) / 10 {
            proof {
                assert(acc * 10 + d > u64::MAX) by (nonlinear_arith)
                    requires
                        acc > (u64::MAX - d) / 10,
                        d <= 9,
                ;
            }
            return Err(NumberError::PosOverflow);
        }
        proof {
            assert(acc * 10 + d <= u64::MAX) by (nonlinear_arith)
                requires
                    acc <= (u64::MAX - d) / 10,
                    d <= 9,
            ;
        }
        acc = acc * 10 + d;
        i = i + 1;
    }
    Ok(acc)
}

/// Whether two texts are equal.
fn text_is(s: &str, lit: &str) -> (b: bool)
    ensures
        b == (s@ == lit@),
{
    let n = s.unicode_len();
    if n != lit.unicode_len() {
        return false;
    }
    let mut i: usize = 0;
    while i < n
        invariant
            n == s@.len(),
            n == lit@.len(),
            i <= n,
            forall|j: int| 0 <= j < i ==> s@[j] == lit@[j],
        decreases n - i,
    {
        if s.get_char(i) != lit.get_char(i) {
            return false;
        }
        i = i + 1;
    }
    proof {
        assert(s@ =~= lit@);
    }
    true
}

/// Options of `run` and `pack`.
pub struct Opts {
    pub formula: Option<String>,
    pub object: u64,
    pub budget: u64,
    pub output: Option<String>,
}

/// The options as plain values.
pub struct OptsView {
    pub formula: Option<Seq<char>>,
    pub object: u64,
    pub budget: u64,
    pub output: Option<Seq<char>>,
}

impl Opts {
    pub open spec fn view_of(&self) -> OptsView {
        OptsView {
            formula: match self.formula {
                Some(f) => Some(f@),
                None => None,
            },
            object: self.object,
            budget: self.budget,
            output: match self.output {
                Some(o) => Some(o@),
                None => None,
            },
        }
    }
}

/// The options read from `args[i..]` onto `o`.
pub open spec fn parse_opts(args: Seq<Seq<char>>, i: int, o: OptsView) -> Result<OptsView, Seq<char>>
    decreases args.len() - i,
{
    if i < 0 || i >= args.len() {
        Ok(o)
    } else {
        let a = args[i];
        let has_value = i + 1 < args.len();
        if a == "-e"@ {
            if !has_value {
                Err("-e"@ + " requires a value"@)
            } else {
                parse_opts(args, i + 2, OptsView { formula: Some(args[i + 1]), ..o })
            }
        } else if a == "-o"@ || a == "--output"@ {
            if !has_value {
                Err("-o"@ + " requires a value"@)
            } else {
                parse_opts(args, i + 2, OptsView { output: Some(args[i + 1]), ..o })
            }
        } else if a == "--object"@ {
            if !has_value {
                Err("--object"@ + " requires a value"@)
            } else {
                match decimal_u64(args[i + 1]) {
                    Ok(v) => parse_opts(args, i + 2, OptsView { object: v, ..o }),
                    Err(e) => Err("bad "@ + "--object"@ + ": "@ + number_message(e)),
                }
            }
        } else if a == "--budget"@ {
            if !has_value {
                Err("--budget"@ + " requires a value"@)
            } else {
                match decimal_u64(args[i + 1]) {
                    Ok(v) => parse_opts(args, i + 2, OptsView { budget: v, ..o }),
                    Err(e) => Err("bad "@ + "--budget"@ + ": "@ + number_message(e)),
                }
            }
        } else {
            Err("unexpected argument '"@ + a + "'"@)
        }
    }
}

/// The options before any flag: object 0, budget 1 000 000.
pub open spec fn default_opts() -> OptsView {
    OptsView { formula: None, object: 0, budget: 1_000_000, output: None }
}

/// The texts of the arguments.
pub open spec fn arg_texts(args: Seq<String>) -> Seq<Seq<char>> {
    Seq::new(args.len(), |k: int| args[k]@)
}

/// The value after the flag at `*i`: advances `*i` onto it.
pub fn take(args: &[String], i: &mut usize, flag: &str) -> (r: Result<String, String>)
    requires
        *old(i) < usize::MAX,
    ensures
        *final(i) == *old(i) + 1,
        *final(i) < args@.len() ==> (r matches Ok(v) && v@ == args@[*final(i) as int]@),
        *final(i) >= args@.len() ==> (r matches Err(e) && e@ == flag@ + " requires a value"@),
{
    let n = args.len();
    *i = *i + 1;
    if *i < n {
        Ok(args[*i].clone())
    } else {
        let mut e = String::from_str(flag);
        e.append(" requires a value");
        Err(e)
    }
}

/// The message for a number that did not parse after `flag`.
fn bad_number(flag: &str, e: NumberError) -> (m: String)
    ensures
        m@ == "bad "@ + flag@ + ": "@ + number_message(e),
{
    let mut m = String::from_str("bad ");
    m.append(flag);
    m.append(": ");
    m.append(e.message());
    m
}

impl Opts {
    /// Read the flags `-e`, `-o`/`--output`, `--object` and `--budget`.
    pub fn parse(args: &[String]) -> (r: Result<Opts, String>)
        ensures
            match parse_opts(arg_texts(args@), 0, default_opts()) {
                Ok(v) => r matches Ok(o) && o.view_of() == v,
                Err(m) => r matches Err(e) && e@ == m,
            },
    {
        let mut o = Opts { formula: None, object: 0, budget: 1_000_000, output: None };
        let ghost texts = arg_texts(args@);
        let mut i: usize = 0;
        proof {
            assert(o.view_of() == default_opts());
        }
        while i < args.len()
            invariant
                texts == arg_texts(args@),
                i <= args@.len(),
                parse_opts(texts, 0, default_opts()) == parse_opts(texts, i as int, o.view_of()),
            decreases args@.len() - i,
        {
            let a = args[i].as_str();
            proof {
                assert(texts[i as int] == a@);
                if i + 1 < args@.len() {
                    assert(texts[i + 1] == args@[i + 1]@);
                }
            }
            if text_is(a, "-e") {
                let v = take(args, &mut i, "-e")?;
                o.formula = Some(v);
            } else if text_is(a, "-o") || text_is(a, "--output") {
                let v = take(args, &mut i, "-o")?;
                o.output = Some(v);
            } else if text_is(a, "--object") {
                let v = take(args, &mut i, "--object")?;
                match parse_u64(v.as_str()) {
                    Ok(n) => {
                        o.object = n;
                    },
                    Err(e) => {
                        return Err(bad_number("--object", e));
                    },
                }
            } else if text_is(a, "--budget") {
                let v = take(args, &mut i, "--budget")?;
                match parse_u64(v.as_str()) {
                    Ok(n) => {
                        o.budget = n;
                    },
                    Err(e) => {
                        return Err(bad_number("--budget", e));
                    },
                }
            } else {
                let mut m = String::from_str("unexpected argument '");
                m.append(a);
                m.append("'");
                return Err(m);
            }
            i = i + 1;
        }
        Ok(o)
    }
}

/// How many trace rows are axis (tag 0), hash (15) and look (17) rows.
pub open spec fn tag_count(trace: Seq<[u64; 16]>, tag: u64) -> nat
    decreases trace.len(),
{
    if trace.len() == 0 {
        0
    } else {
        tag_count(trace.drop_last(), tag) + if trace.last()[0] == tag {
            1nat
        } else {
            0nat
        }
    }
}

/// The numbers of axis, hash and look rows of a trace: the rows that need
/// opening data.
pub fn opening_pattern_counts(trace: &[[u64; 16]]) -> (r: (usize, usize, usize))
    ensures
        r.0 == tag_count(trace@, 0),
        r.1 == tag_count(trace@, 15),
        r.2 == tag_count(trace@, 17),
{
    let mut axis: usize = 0;
    let mut hash: usize = 0;
    let mut look: usize = 0;
    let mut t: usize = 0;
    while t < trace.len()
        invariant
            t <= trace@.len(),
            axis == tag_count(trace@.take(t as int), 0),
            hash == tag_count(trace@.take(t as int), 15),
            look == tag_count(trace@.take(t as int), 17),
            axis <= t && hash <= t && look <= t,
        decreases trace@.len() - t,
    {
        proof {
            assert(trace@.take(t + 1).drop_last() =~= trace@.take(t as int));
            assert(trace@.take(t + 1).last() == trace@[t as int]);
        }
        let tag = trace[t][0];
        if tag == 0 {
            axis = axis + 1;
        } else if tag == 15 {
            hash = hash + 1;
        } else if tag == 17 {
            look = look + 1;
        }
        t = t + 1;
    }
    proof {
        assert(trace@.take(trace@.len() as int) =~= trace@);
    }
    (axis, hash, look)
}

/// The statement the commands prove against: all hashes, the focus bound
/// and the state root zero.
pub fn zero_statement() -> (s: Statement)
    ensures
        s.program_hash@ == seq![0u8; 32],
        s.input_hash@ == seq![0u8; 32],
        s.output_hash@ == seq![0u8; 32],
        s.focus_bound == 0,
        s.bbg_root@ == seq![0u8; 32],
{
    let s = Statement { program_hash: [0u8; 32], input_hash: [0u8; 32], output_hash: [0u8; 32], focus_bound: 0, bbg_root: [0u8; 32] };
    proof {
        assert(s.program_hash@ =~= seq![0u8; 32]);
        assert(s.bbg_root@ =~= seq![0u8; 32]);
    }
    s
}

} // verus!

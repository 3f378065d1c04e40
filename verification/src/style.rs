//! Terminal styling for the command-line front end: a gradient ASCII-art
//! mark, a white tagline, a gray spec block and an aligned command list.
//! Color is a `bool` the caller derives from whether stdout is a terminal.
use vstd::prelude::*;

verus! {

/// Red.
pub const R: &'static str = "\x1b[31m";
/// Yellow.
pub const Y: &'static str = "\x1b[33m";
/// Green.
pub const G: &'static str = "\x1b[32m";
/// Cyan.
pub const C: &'static str = "\x1b[36m";
/// Blue.
pub const B: &'static str = "\x1b[34m";
/// Magenta.
pub const M: &'static str = "\x1b[35m";
/// White.
pub const W: &'static str = "\x1b[37m";
/// Gray.
pub const GR: &'static str = "\x1b[90m";
/// Dim.
pub const DIM: &'static str = "\x1b[2m";
/// Reset.
pub const X: &'static str = "\x1b[0m";

/// `s` wrapped in `col` and reset when `color`, else `s` itself.
pub open spec fn paint_spec(color: bool, col: Seq<char>, s: Seq<char>) -> Seq<char> {
    if color {
        col + s + X@
    } else {
        s
    }
}

/// Color `s` with `col` when `color`, else return it plain.
pub fn paint(color: bool, col: &str, s: &str) -> (r: String)
    ensures
        r@ == paint_spec(color, col@, s@),
{
    if color {
        let mut o = String::from_str(col);
        o.append(s);
        o.append(X);
        o
    } else {
        String::from_str(s)
    }
}

/// The banner lines, each with its color.
pub open spec fn banner_lines() -> Seq<(Seq<char>, Seq<char>)> {
    seq![
        (R@, "  ███████╗██╗  ██╗███████╗███╗   ██╗ ██████╗ \n"@),
        (Y@, "  ╚══███╔╝██║  ██║██╔════╝████╗  ██║██╔════╝ \n"@),
        (G@, "    ███╔╝ ███████║█████╗  ██╔██╗ ██║██║  ███╗\n"@),
        (C@, "   ███╔╝  ██╔══██║██╔══╝  ██║╚██╗██║██║   ██║\n"@),
        (B@, "  ███████╗██║  ██║███████╗██║ ╚████║╚██████╔╝\n"@),
        (M@, "  ╚══════╝╚═╝  ╚═╝╚══════╝╚═╝  ╚═══╝ ╚═════╝ \n"@),
        (W@, "  証 — proof system · SuperSpartan · Brakedown\n"@),
    ]
}

/// The painted lines, concatenated.
pub open spec fn painted(color: bool, lines: Seq<(Seq<char>, Seq<char>)>) -> Seq<char>
    decreases lines.len(),
{
    if lines.len() == 0 {
        seq![]
    } else {
        painted(color, lines.drop_last()) + paint_spec(color, lines.last().0, lines.last().1)
    }
}

/// The banner text: a blank line, the painted mark and tagline, a blank
/// line and the gray spec line.
pub open spec fn banner_spec(color: bool) -> Seq<char> {
    "\n"@ + painted(color, banner_lines()) + "\n"@ + paint_spec(color, GR@, "  zero trusted setup · post-quantum · sub-ms verify\n"@)
}

fn push_painted(o: &mut String, color: bool, col: &str, s: &str)
    ensures
        final(o)@ == old(o)@ + paint_spec(color, col@, s@),
{
    let p = paint(color, col, s);
    o.append(p.as_str());
}

/// The gradient ZHENG mark + tagline + spec block.
pub fn banner(color: bool) -> (r: String)
    ensures
        r@ == banner_spec(color),
{
    let mut o = String::from_str("\n");
    let ghost start = o@;
    push_painted(&mut o, color, R, "  ███████╗██╗  ██╗███████╗███╗   ██╗ ██████╗ \n");
    push_painted(&mut o, color, Y, "  ╚══███╔╝██║  ██║██╔════╝████╗  ██║██╔════╝ \n");
    push_painted(&mut o, color, G, "    ███╔╝ ███████║█████╗  ██╔██╗ ██║██║  ███╗\n");
    push_painted(&mut o, color, C, "   ███╔╝  ██╔══██║██╔══╝  ██║╚██╗██║██║   ██║\n");
    push_painted(&mut o, color, B, "  ███████╗██║  ██║███████╗██║ ╚████║╚██████╔╝\n");
    push_painted(&mut o, color, M, "  ╚══════╝╚═╝  ╚═╝╚══════╝╚═╝  ╚═══╝ ╚═════╝ \n");
    push_painted(&mut o, color, W, "  証 — proof system · SuperSpartan · Brakedown\n");
    proof {
        let l = banner_lines();
        reveal_with_fuel(painted, 8);
        assert(l.drop_last().drop_last().drop_last().drop_last().drop_last().drop_last().drop_last() =~= Seq::<(Seq<char>, Seq<char>)>::empty());
        assert(o@ =~= start + painted(color, l));
    }
    o.append("\n");
    push_painted(&mut o, color, GR, "  zero trusted setup · post-quantum · sub-ms verify\n");
    o
}

/// The command lines of the help text (plain), before the gray footer.
pub open spec fn help_commands() -> Seq<char> {
    "  zheng run   -e '<formula>' [--object N] [--budget B]   prove + verify a formula\n"@
        + "  zheng demo  hash                                       prove a Poseidon2 hash\n"@
        + "  zheng eval                                             commit/open/verify a polynomial\n"@
        + "  zheng pack  -e '<formula>' … -o <file>                 write a program capsule\n"@
        + "  zheng prove <file>                                     prove a program capsule\n"@
}

/// The help text: the banner, the command list, and the gray footer.
pub open spec fn help_spec(color: bool) -> Seq<char> {
    banner_spec(color) + "\n"@ + help_commands() + "\n"@
        + paint_spec(color, GR@, "  zheng help                                             print this help\n"@) + "\n"@
        + paint_spec(color, GR@, "  output renders to the terminal; piped, it is a tape chunk stream.\n"@)
        + paint_spec(color, GR@, "  exit: 0 verified · 1 prover/verifier error · 2 usage error\n"@)
}

/// The command list shown by `zheng help`.
pub fn help(color: bool) -> (r: String)
    ensures
        r@ == help_spec(color),
{
    let mut o = banner(color);
    o.append("\n");
    o.append("  zheng run   -e '<formula>' [--object N] [--budget B]   prove + verify a formula\n");
    o.append("  zheng demo  hash                                       prove a Poseidon2 hash\n");
    o.append("  zheng eval                                             commit/open/verify a polynomial\n");
    o.append("  zheng pack  -e '<formula>' … -o <file>                 write a program capsule\n");
    o.append("  zheng prove <file>                                     prove a program capsule\n");
    o.append("\n");
    push_painted(&mut o, color, GR, "  zheng help                                             print this help\n");
    o.append("\n");
    push_painted(&mut o, color, GR, "  output renders to the terminal; piped, it is a tape chunk stream.\n");
    push_painted(&mut o, color, GR, "  exit: 0 verified · 1 prover/verifier error · 2 usage error\n");
    proof {
        assert(o@ =~= help_spec(color));
    }
    o
}

/// No escape character: nothing that starts a color code.
pub open spec fn no_escape(s: Seq<char>) -> bool {
    forall|i: int| 0 <= i < s.len() ==> s[i] != '\x1b'
}

proof fn lemma_no_escape_concat(a: Seq<char>, b: Seq<char>)
    requires
        no_escape(a),
        no_escape(b),
    ensures
        no_escape(a + b),
{
    assert forall|i: int| 0 <= i < (a + b).len() implies (a + b)[i] != '\x1b' by {
        if i < a.len() {
            assert((a + b)[i] == a[i]);
        } else {
            assert((a + b)[i] == b[i - a.len()]);
        }
    }
}

proof fn lemma_plain_lines(lines: Seq<(Seq<char>, Seq<char>)>)
    requires
        forall|i: int| 0 <= i < lines.len() ==> no_escape(#[trigger] lines[i].1),
    ensures
        no_escape(painted(false, lines)),
    decreases lines.len(),
{
    if lines.len() > 0 {
        lemma_plain_lines(lines.drop_last());
        assert(lines.drop_last().len() < lines.len());
        assert(no_escape(lines[lines.len() - 1].1));
        lemma_no_escape_concat(painted(false, lines.drop_last()), lines.last().1);
    } else {
        assert(no_escape(painted(false, lines)));
    }
}

/// The plain banner and help carry no color code, and the help text
/// begins with the banner, whether colored or not.
pub proof fn lemma_plain_text(color: bool)
    ensures
        no_escape(banner_spec(false)),
        no_escape(help_spec(false)),
        help_spec(color).subrange(0, banner_spec(color).len() as int) == banner_spec(color),
{
    reveal_strlit("  ███████╗██╗  ██╗███████╗███╗   ██╗ ██████╗ \n");
    reveal_strlit("  ╚══███╔╝██║  ██║██╔════╝████╗  ██║██╔════╝ \n");
    reveal_strlit("    ███╔╝ ███████║█████╗  ██╔██╗ ██║██║  ███╗\n");
    reveal_strlit("   ███╔╝  ██╔══██║██╔══╝  ██║╚██╗██║██║   ██║\n");
    reveal_strlit("  ███████╗██║  ██║███████╗██║ ╚████║╚██████╔╝\n");
    reveal_strlit("  ╚══════╝╚═╝  ╚═╝╚══════╝╚═╝  ╚═══╝ ╚═════╝ \n");
    reveal_strlit("  証 — proof system · SuperSpartan · Brakedown\n");
    reveal_strlit("  zero trusted setup · post-quantum · sub-ms verify\n");
    reveal_strlit("\n");
    reveal_strlit("  zheng run   -e '<formula>' [--object N] [--budget B]   prove + verify a formula\n");
    reveal_strlit("  zheng demo  hash                                       prove a Poseidon2 hash\n");
    reveal_strlit("  zheng eval                                             commit/open/verify a polynomial\n");
    reveal_strlit("  zheng pack  -e '<formula>' … -o <file>                 write a program capsule\n");
    reveal_strlit("  zheng prove <file>                                     prove a program capsule\n");
    reveal_strlit("  zheng help                                             print this help\n");
    reveal_strlit("  output renders to the terminal; piped, it is a tape chunk stream.\n");
    reveal_strlit("  exit: 0 verified · 1 prover/verifier error · 2 usage error\n");
    assert(no_escape("  ███████╗██╗  ██╗███████╗███╗   ██╗ ██████╗ \n"@));
    assert(no_escape("  ╚══███╔╝██║  ██║██╔════╝████╗  ██║██╔════╝ \n"@));
    assert(no_escape("    ███╔╝ ███████║█████╗  ██╔██╗ ██║██║  ███╗\n"@));
    assert(no_escape("   ███╔╝  ██╔══██║██╔══╝  ██║╚██╗██║██║   ██║\n"@));
    assert(no_escape("  ███████╗██║  ██║███████╗██║ ╚████║╚██████╔╝\n"@));
    assert(no_escape("  ╚══════╝╚═╝  ╚═╝╚══════╝╚═╝  ╚═══╝ ╚═════╝ \n"@));
    assert(no_escape("  証 — proof system · SuperSpartan · Brakedown\n"@));
    assert(no_escape("  zero trusted setup · post-quantum · sub-ms verify\n"@));
    assert(no_escape("\n"@));
    assert(no_escape("  zheng run   -e '<formula>' [--object N] [--budget B]   prove + verify a formula\n"@));
    assert(no_escape("  zheng demo  hash                                       prove a Poseidon2 hash\n"@));
    assert(no_escape("  zheng eval                                             commit/open/verify a polynomial\n"@));
    assert(no_escape("  zheng pack  -e '<formula>' … -o <file>                 write a program capsule\n"@));
    assert(no_escape("  zheng prove <file>                                     prove a program capsule\n"@));
    assert(no_escape("  zheng help                                             print this help\n"@));
    assert(no_escape("  output renders to the terminal; piped, it is a tape chunk stream.\n"@));
    assert(no_escape("  exit: 0 verified · 1 prover/verifier error · 2 usage error\n"@));
    let l = banner_lines();
    assert forall|i: int| 0 <= i < l.len() implies no_escape(#[trigger] l[i].1) by {
    }
    lemma_plain_lines(l);
    let a = "\n"@ + painted(false, l);
    lemma_no_escape_concat("\n"@, painted(false, l));
    lemma_no_escape_concat(a, "\n"@);
    lemma_no_escape_concat(a + "\n"@, "  zero trusted setup · post-quantum · sub-ms verify\n"@);
    let b = banner_spec(false);
    lemma_no_escape_concat(b, "\n"@);
    lemma_no_escape_concat(b + "\n"@, help_commands());
    assert(no_escape(help_commands())) by {
        let c1 = "  zheng run   -e '<formula>' [--object N] [--budget B]   prove + verify a formula\n"@;
        let c2 = "  zheng demo  hash                                       prove a Poseidon2 hash\n"@;
        let c3 = "  zheng eval                                             commit/open/verify a polynomial\n"@;
        let c4 = "  zheng pack  -e '<formula>' … -o <file>                 write a program capsule\n"@;
        let c5 = "  zheng prove <file>                                     prove a program capsule\n"@;
        lemma_no_escape_concat(c1, c2);
        lemma_no_escape_concat(c1 + c2, c3);
        lemma_no_escape_concat(c1 + c2 + c3, c4);
        lemma_no_escape_concat(c1 + c2 + c3 + c4, c5);
    }
    let h1 = b + "\n"@ + help_commands();
    lemma_no_escape_concat(h1, "\n"@);
    let h2 = h1 + "\n"@;
    lemma_no_escape_concat(h2, "  zheng help                                             print this help\n"@);
    let h3 = h2 + "  zheng help                                             print this help\n"@;
    lemma_no_escape_concat(h3, "\n"@);
    let h4 = h3 + "\n"@;
    lemma_no_escape_concat(h4, "  output renders to the terminal; piped, it is a tape chunk stream.\n"@);
    let h5 = h4 + "  output renders to the terminal; piped, it is a tape chunk stream.\n"@;
    lemma_no_escape_concat(h5, "  exit: 0 verified · 1 prover/verifier error · 2 usage error\n"@);
    assert(help_spec(false) == h5 + "  exit: 0 verified · 1 prover/verifier error · 2 usage error\n"@);
    let hc = help_spec(color);
    let bc = banner_spec(color);
    assert(hc.subrange(0, bc.len() as int) =~= bc);
}

} // verus!

//! Decoding a statement's flat prefix tokens back into its program noun,
//! and the proof that decoding inverts the prefix encoding.
use crate::execution::relation::ExecutionNoun;
use crate::execution::statement::{encode_error, encode_spec, ExecutionStatement, NounToken, MAX_DEPTH, MAX_PROGRAM_NODES};
use crate::field::P;
use vstd::prelude::*;

verus! {

/// A program a statement may carry: canonical atoms, within the depth limit.
pub open spec fn decodable(n: ExecutionNoun) -> bool {
    n.canonical() && n.depth() <= MAX_DEPTH
}

/// The tokens of a decoder stack, top (last) first.
pub open spec fn stack_tokens(st: Seq<(ExecutionNoun, usize)>) -> Seq<NounToken>
    decreases st.len(),
{
    if st.len() == 0 {
        seq![]
    } else {
        encode_spec(st.last().0) + stack_tokens(st.drop_last())
    }
}

/// The nouns of a decoder stack, top first.
pub open spec fn top_first(st: Seq<(ExecutionNoun, usize)>) -> Seq<ExecutionNoun> {
    Seq::new(st.len(), |k: int| st[st.len() - 1 - k].0)
}

/// The complete subtrees whose encodings, left to right, make up the
/// encoding of `n` from token `i` on.
pub open spec fn forest(n: ExecutionNoun, i: int) -> Seq<ExecutionNoun>
    decreases n,
{
    if i <= 0 {
        seq![n]
    } else {
        match n {
            ExecutionNoun::Atom(_) => seq![],
            ExecutionNoun::Pair(a, b) => {
                let la = encode_spec(*a).len() as int;
                if i <= 1 + la {
                    forest(*a, i - 1) + seq![*b]
                } else {
                    forest(*b, i - 1 - la)
                }
            },
        }
    }
}

proof fn lemma_encode_nonempty(n: ExecutionNoun)
    ensures
        encode_spec(n).len() >= 1,
        encode_spec(n).len() == n.size(),
    decreases n,
{
    match n {
        ExecutionNoun::Atom(_) => {},
        ExecutionNoun::Pair(a, b) => {
            lemma_encode_nonempty(*a);
            lemma_encode_nonempty(*b);
        },
    }
}

/// The forest at the end of the encoding is empty.
proof fn lemma_forest_end(n: ExecutionNoun)
    ensures
        forest(n, encode_spec(n).len() as int) =~= Seq::<ExecutionNoun>::empty(),
    decreases n,
{
    lemma_encode_nonempty(n);
    match n {
        ExecutionNoun::Atom(_) => {},
        ExecutionNoun::Pair(a, b) => {
            lemma_encode_nonempty(*a);
            lemma_encode_nonempty(*b);
            let la = encode_spec(*a).len() as int;
            let lb = encode_spec(*b).len() as int;
            assert(encode_spec(n).len() == 1 + la + lb);
            lemma_forest_end(*b);
        },
    }
}

/// Every member of a forest is a subtree: no deeper, and canonical when `n` is.
proof fn lemma_forest_subtrees(n: ExecutionNoun, i: int)
    requires
        0 <= i <= encode_spec(n).len(),
    ensures
        forall|k: int|
            0 <= k < forest(n, i).len() ==> (#[trigger] forest(n, i)[k]).depth() <= n.depth() && (n.canonical()
                ==> forest(n, i)[k].canonical()),
    decreases n,
{
    if i <= 0 {
        assert(forest(n, i) =~= seq![n]);
    } else {
        match n {
            ExecutionNoun::Atom(_) => {},
            ExecutionNoun::Pair(a, b) => {
                assert(a.depth() <= n.depth() && b.depth() <= n.depth());
                lemma_encode_nonempty(*a);
                let la = encode_spec(*a).len() as int;
                if i <= 1 + la {
                    lemma_forest_subtrees(*a, i - 1);
                    let f = forest(n, i);
                    assert(f == forest(*a, i - 1) + seq![*b]);
                    assert forall|k: int| 0 <= k < f.len() implies (#[trigger] f[k]).depth() <= n.depth() && (n.canonical() ==> f[k].canonical()) by {
                        if k < forest(*a, i - 1).len() {
                            assert(f[k] == forest(*a, i - 1)[k]);
                        } else {
                            assert(f[k] == *b);
                        }
                    }
                } else {
                    assert(encode_spec(n) == seq![NounToken::Pair] + encode_spec(*a) + encode_spec(*b));
                    assert(encode_spec(n).len() == 1 + la + encode_spec(*b).len());
                    lemma_forest_subtrees(*b, i - 1 - la);
                    assert(forest(n, i) == forest(*b, i - 1 - la));
                }
            },
        }
    }
}

/// One decoding step: the token at `i − 1` either adds its atom in front
/// of the forest at `i`, or joins the forest's first two members.
proof fn lemma_forest_step(n: ExecutionNoun, i: int)
    requires
        0 < i <= encode_spec(n).len(),
    ensures
        ({
            let t = encode_spec(n)[i - 1];
            let f = forest(n, i);
            match t {
                NounToken::Atom(v) => forest(n, i - 1) == seq![ExecutionNoun::Atom(v)] + f,
                NounToken::Pair => f.len() >= 2 && forest(n, i - 1) == seq![
                    ExecutionNoun::Pair(Box::new(f[0]), Box::new(f[1])),
                ] + f.subrange(2, f.len() as int),
            }
        }),
    decreases n,
{
    lemma_encode_nonempty(n);
    match n {
        ExecutionNoun::Atom(v) => {
            assert(forest(n, 1) =~= Seq::<ExecutionNoun>::empty());
            assert(forest(n, 0) =~= seq![ExecutionNoun::Atom(v)]);
        },
        ExecutionNoun::Pair(a, b) => {
            lemma_encode_nonempty(*a);
            lemma_encode_nonempty(*b);
            let la = encode_spec(*a).len() as int;
            let enc = encode_spec(n);
            assert(enc == seq![NounToken::Pair] + encode_spec(*a) + encode_spec(*b));
            if i == 1 {
                assert(enc[0] == NounToken::Pair);
                assert(forest(*a, 0) =~= seq![*a]);
                let f = forest(n, 1);
                assert(f =~= seq![*a, *b]);
                assert(forest(n, 0) =~= seq![ExecutionNoun::Pair(Box::new(f[0]), Box::new(f[1]))] + f.subrange(2, f.len() as int));
            } else if i <= 1 + la {
                lemma_forest_step(*a, i - 1);
                assert(enc[i - 1] == encode_spec(*a)[i - 2]);
                let fa = forest(*a, i - 1);
                let f = forest(n, i);
                assert(f == fa + seq![*b]);
                match enc[i - 1] {
                    NounToken::Atom(v) => {
                        assert(forest(n, i - 1) =~= seq![ExecutionNoun::Atom(v)] + f);
                    },
                    NounToken::Pair => {
                        assert(f[0] == fa[0] && f[1] == fa[1]);
                        assert(f.subrange(2, f.len() as int) =~= fa.subrange(2, fa.len() as int) + seq![*b]);
                        assert(forest(n, i - 1) =~= seq![ExecutionNoun::Pair(Box::new(f[0]), Box::new(f[1]))] + f.subrange(2, f.len() as int));
                    },
                }
            } else {
                let j = i - 1 - la;
                lemma_forest_step(*b, j);
                assert(enc[i - 1] == encode_spec(*b)[j - 1]);
                if j == 1 {
                    lemma_forest_end(*a);
                    assert(forest(n, i - 1) =~= seq![*b]);
                    assert(forest(*b, 0) =~= seq![*b]);
                }
            }
        },
    }
}

proof fn lemma_stack_tokens_push(st: Seq<(ExecutionNoun, usize)>, e: (ExecutionNoun, usize))
    ensures
        stack_tokens(st.push(e)) == encode_spec(e.0) + stack_tokens(st),
{
    assert(st.push(e).drop_last() =~= st);
}

/// The nouns of a decoding stack.
pub open spec fn stack_nouns(stack: Seq<(ExecutionNoun, usize)>) -> Seq<ExecutionNoun> {
    Seq::new(stack.len(), |k: int| stack[k].0)
}

/// The decoder's stack after reading tokens `i-1` down to 0 onto `stack`,
/// or the message of the first token it refuses: a non-canonical atom, a
/// pair with fewer than two nouns beneath it, or a pair past the depth
/// limit.
pub open spec fn decode_run(prog: Seq<NounToken>, i: int, stack: Seq<ExecutionNoun>) -> Result<Seq<ExecutionNoun>, Seq<char>>
    decreases i,
{
    if i <= 0 || i > prog.len() {
        Ok(stack)
    } else {
        match prog[i - 1] {
            NounToken::Atom(v) => if v >= P {
                Err("noncanonical program atom"@)
            } else {
                decode_run(prog, i - 1, stack.push(ExecutionNoun::Atom(v)))
            },
            NounToken::Pair => if stack.len() < 2 {
                Err("malformed program prefix"@)
            } else {
                let node = ExecutionNoun::Pair(Box::new(stack.last()), Box::new(stack[stack.len() - 2]));
                if node.depth() > MAX_DEPTH {
                    Err("program depth limit"@)
                } else {
                    decode_run(prog, i - 1, stack.drop_last().drop_last().push(node))
                }
            },
        }
    }
}

/// What decoding a program of acceptable size gives.
pub open spec fn decode_result(prog: Seq<NounToken>) -> Result<ExecutionNoun, Seq<char>> {
    match decode_run(prog, prog.len() as int, seq![]) {
        Err(m) => Err(m),
        Ok(st) => if st.len() != 1 {
            Err("trailing program tokens"@)
        } else {
            Ok(st[0])
        },
    }
}

impl ExecutionStatement {
    /// Decode the program's prefix tokens into its noun.
    ///
    /// On success the noun's encoding is exactly the program; every
    /// program that is the encoding of a canonical noun within the depth
    /// limit (and within the node limit) decodes to that noun.
    pub fn program_noun(&self) -> (r: Result<ExecutionNoun, String>)
        ensures
            self.program@.len() == 0 || self.program@.len() > MAX_PROGRAM_NODES ==> (r matches Err(e) && e@ == "program size limit"@),
            0 < self.program@.len() <= MAX_PROGRAM_NODES ==> match decode_result(self.program@) {
                Ok(n) => r == Ok::<ExecutionNoun, String>(n),
                Err(m) => r matches Err(e) && e@ == m,
            },
            r matches Ok(n) ==> encode_spec(n) == self.program@ && decodable(n),
            forall|n: ExecutionNoun|
                decodable(n) && #[trigger] encode_spec(n) == self.program@ && self.program@.len() <= MAX_PROGRAM_NODES
                    ==> r == Ok::<ExecutionNoun, String>(n),
    {
        let prog = &self.program;
        if prog.len() == 0 || prog.len() > MAX_PROGRAM_NODES {
            proof {
                assert forall|n: ExecutionNoun| decodable(n) && #[trigger] encode_spec(n) == self.program@ && self.program@.len() <= MAX_PROGRAM_NODES implies false by {
                    lemma_encode_nonempty(n);
                }
            }
            return Err(String::from_str("program size limit"));
        }
        let ghost len = prog@.len() as int;
        let mut stack: Vec<(ExecutionNoun, usize)> = Vec::new();
        let mut i: usize = prog.len();
        proof {
            assert forall|n: ExecutionNoun| decodable(n) && #[trigger] encode_spec(n) == prog@ implies top_first(stack@) == forest(n, i as int) by {
                lemma_forest_end(n);
            }
            assert(prog@.subrange(i as int, len) =~= Seq::<NounToken>::empty());
            assert(stack_nouns(stack@) =~= Seq::<ExecutionNoun>::empty());
        }
        while i > 0
            invariant
                i <= prog@.len(),
                len == prog@.len(),
                *prog == self.program,
                stack_tokens(stack@) == prog@.subrange(i as int, len),
                forall|k: int| 0 <= k < stack@.len() ==> (#[trigger] stack@[k]).1 == stack@[k].0.depth() && decodable(stack@[k].0),
                forall|n: ExecutionNoun| decodable(n) && #[trigger] encode_spec(n) == prog@ ==> top_first(stack@) == forest(n, i as int),
                decode_run(prog@, len, seq![]) == decode_run(prog@, i as int, stack_nouns(stack@)),
                0 < len <= MAX_PROGRAM_NODES,
            decreases i,
        {
            let ghost before = stack@;
            match &prog[i - 1] {
                NounToken::Atom(v) => {
                    if *v >= P {
                        proof {
                            assert forall|n: ExecutionNoun| decodable(n) && #[trigger] encode_spec(n) == prog@ implies false by {
                                lemma_forest_step(n, i as int);
                                lemma_forest_subtrees(n, i - 1);
                                assert(forest(n, i - 1)[0] == ExecutionNoun::Atom(*v));
                            }
                        }
                        return Err(String::from_str("noncanonical program atom"));
                    }
                    stack.push((ExecutionNoun::Atom(*v), 0));
                    proof {
                        assert(stack_nouns(stack@) =~= stack_nouns(before).push(ExecutionNoun::Atom(*v)));
                        lemma_stack_tokens_push(before, (ExecutionNoun::Atom(*v), 0usize));
                        assert(prog@.subrange(i - 1, len) =~= seq![NounToken::Atom(*v)] + prog@.subrange(i as int, len));
                        assert forall|n: ExecutionNoun| decodable(n) && #[trigger] encode_spec(n) == prog@ implies top_first(stack@) == forest(n, i - 1) by {
                            lemma_forest_step(n, i as int);
                            assert(top_first(stack@) =~= seq![ExecutionNoun::Atom(*v)] + top_first(before));
                        }
                    }
                },
                NounToken::Pair => {
                    if stack.len() < 2 {
                        proof {
                            assert forall|n: ExecutionNoun| decodable(n) && #[trigger] encode_spec(n) == prog@ implies false by {
                                lemma_forest_step(n, i as int);
                            }
                        }
                        return Err(String::from_str("malformed program prefix"));
                    }
                    let (a, da) = stack.pop().unwrap();
                    let (b, db) = stack.pop().unwrap();
                    let ghost rest = stack@;
                    proof {
                        assert(before =~= rest.push((b, db)).push((a, da)));
                        lemma_stack_tokens_push(rest.push((b, db)), (a, da));
                        lemma_stack_tokens_push(rest, (b, db));
                        assert(before[before.len() - 1] == (a, da));
                        assert(before[before.len() - 2] == (b, db));
                    }
                    let depth = if da > db {
                        1 + da
                    } else {
                        1 + db
                    };
                    if depth > MAX_DEPTH {
                        proof {
                            assert(stack_nouns(before).last() == a);
                            assert(stack_nouns(before)[stack_nouns(before).len() - 2] == b);
                            assert(ExecutionNoun::Pair(Box::new(a), Box::new(b)).depth() == depth);
                            assert forall|n: ExecutionNoun| decodable(n) && #[trigger] encode_spec(n) == prog@ implies false by {
                                lemma_forest_step(n, i as int);
                                lemma_forest_subtrees(n, i - 1);
                                let f = forest(n, i as int);
                                assert(f[0] == top_first(before)[0]);
                                assert(f[1] == top_first(before)[1]);
                                assert(forest(n, i - 1)[0] == ExecutionNoun::Pair(Box::new(a), Box::new(b)));
                            }
                        }
                        return Err(String::from_str("program depth limit"));
                    }
                    let node = ExecutionNoun::Pair(Box::new(a), Box::new(b));
                    stack.push((node, depth));
                    proof {
                        assert(stack_nouns(before).last() == a);
                        assert(stack_nouns(before)[stack_nouns(before).len() - 2] == b);
                        assert(node.depth() == depth);
                        assert(stack_nouns(stack@) =~= stack_nouns(before).drop_last().drop_last().push(node));
                        lemma_stack_tokens_push(rest, (node, depth));
                        assert(prog@.subrange(i - 1, len) =~= seq![NounToken::Pair] + prog@.subrange(i as int, len));
                        assert(encode_spec(node) == seq![NounToken::Pair] + encode_spec(a) + encode_spec(b));
                        assert(stack_tokens(stack@) =~= prog@.subrange(i - 1, len));
                        assert forall|k: int| 0 <= k < stack@.len() implies (#[trigger] stack@[k]).1 == stack@[k].0.depth() && decodable(stack@[k].0) by {
                            if k < rest.len() {
                                assert(stack@[k] == before[k]);
                            }
                        }
                        assert forall|n: ExecutionNoun| decodable(n) && #[trigger] encode_spec(n) == prog@ implies top_first(stack@) == forest(n, i - 1) by {
                            lemma_forest_step(n, i as int);
                            let f = forest(n, i as int);
                            assert(top_first(before) == f);
                            assert(f[0] == a && f[1] == b);
                            assert(top_first(stack@) =~= seq![node] + f.subrange(2, f.len() as int));
                        }
                    }
                },
            }
            i = i - 1;
        }
        if stack.len() != 1 {
            proof {
                assert(decode_run(prog@, 0, stack_nouns(stack@)) == Ok::<Seq<ExecutionNoun>, Seq<char>>(stack_nouns(stack@)));
                assert forall|n: ExecutionNoun| decodable(n) && #[trigger] encode_spec(n) == self.program@ && self.program@.len() <= MAX_PROGRAM_NODES implies false by {
                    assert(top_first(stack@) == forest(n, 0));
                }
            }
            return Err(String::from_str("trailing program tokens"));
        }
        let ghost fin = stack@;
        let (n, _) = stack.pop().unwrap();
        proof {
            assert(decode_run(prog@, 0, stack_nouns(fin)) == Ok::<Seq<ExecutionNoun>, Seq<char>>(stack_nouns(fin)));
            assert(stack_nouns(fin)[0] == n);
            assert(fin[0].0 == n);
            assert(fin.drop_last() =~= Seq::<(ExecutionNoun, usize)>::empty());
            assert(stack_tokens(fin) == encode_spec(n) + stack_tokens(fin.drop_last()));
            assert(prog@.subrange(0, len) =~= prog@);
            assert(encode_spec(n) =~= prog@);
            assert(decodable(fin[0].0));
            assert forall|m: ExecutionNoun| decodable(m) && #[trigger] encode_spec(m) == self.program@ && self.program@.len() <= MAX_PROGRAM_NODES implies n == m by {
                assert(top_first(fin) == forest(m, 0));
                assert(forest(m, 0) =~= seq![m]);
                assert(top_first(fin)[0] == fin[0].0);
            }
        }
        Ok(n)
    }
}

proof fn lemma_accepted_bounds(n: ExecutionNoun, depth: nat, count: nat)
    requires
        encode_error(n, depth, count) is None,
    ensures
        n.canonical(),
        depth + n.depth() <= MAX_DEPTH,
        count + encode_spec(n).len() <= MAX_PROGRAM_NODES,
    decreases n,
{
    match n {
        ExecutionNoun::Atom(_) => {},
        ExecutionNoun::Pair(a, b) => {
            lemma_accepted_bounds(*a, depth + 1, count + 1);
            lemma_accepted_bounds(*b, depth + 1, count + 1 + encode_spec(*a).len());
        },
    }
}

/// Every program that `encode_program` accepts is one that `program_noun`
/// decodes back: canonical, within the depth limit, and with an encoding
/// within the node limit.
pub proof fn lemma_encoded_programs_decode(n: ExecutionNoun)
    requires
        encode_error(n, 0, 0) is None,
    ensures
        decodable(n),
        encode_spec(n).len() <= MAX_PROGRAM_NODES,
{
    lemma_accepted_bounds(n, 0, 0);
}

} // verus!

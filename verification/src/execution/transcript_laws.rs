//! The transcript encoding of an execution statement is injective: two
//! statements with the same transcript bytes are the same statement.
use crate::execution::statement::{
    execution_tag, execution_transcript, le_bytes, list_bytes, token_bytes, tokens_bytes, values_bytes, ExecutionStatement,
    NounToken,
};
use vstd::prelude::*;

verus! {

proof fn lemma_byte_eq(x: u64, y: u64)
    requires
        (x & 0xffu64) as u8 == (y & 0xffu64) as u8,
    ensures
        x & 0xffu64 == y & 0xffu64,
{
    assert((x & 0xffu64) as u8 == (y & 0xffu64) as u8 ==> x & 0xffu64 == y & 0xffu64) by (bit_vector);
}

proof fn lemma_byte_at(a: u64, b: u64, i: int)
    requires
        0 <= i < 8,
        le_bytes(a) == le_bytes(b),
    ensures
        ((a >> ((8 * i) as u64)) & 0xffu64) == ((b >> ((8 * i) as u64)) & 0xffu64),
{
    assert(le_bytes(a)[i] == le_bytes(b)[i]);
    assert(le_bytes(a)[i] == ((a >> ((8 * i) as u64)) & 0xffu64) as u8);
    assert(le_bytes(b)[i] == ((b >> ((8 * i) as u64)) & 0xffu64) as u8);
    lemma_byte_eq(a >> ((8 * i) as u64), b >> ((8 * i) as u64));
}

/// Eight little-endian bytes determine the value.
proof fn lemma_le_injective(a: u64, b: u64)
    requires
        le_bytes(a) == le_bytes(b),
    ensures
        a == b,
{
    lemma_byte_at(a, b, 0);
    lemma_byte_at(a, b, 1);
    lemma_byte_at(a, b, 2);
    lemma_byte_at(a, b, 3);
    lemma_byte_at(a, b, 4);
    lemma_byte_at(a, b, 5);
    lemma_byte_at(a, b, 6);
    lemma_byte_at(a, b, 7);
    assert((a >> 0u64) == a) by (bit_vector);
    assert((b >> 0u64) == b) by (bit_vector);
    assert(
        (a & 0xffu64) == (b & 0xffu64) && ((a >> 8u64) & 0xffu64) == ((b >> 8u64) & 0xffu64) && ((a >> 16u64) & 0xffu64) == ((b >> 16u64)
            & 0xffu64) && ((a >> 24u64) & 0xffu64) == ((b >> 24u64) & 0xffu64) && ((a >> 32u64) & 0xffu64) == ((b >> 32u64) & 0xffu64) && ((a
            >> 40u64) & 0xffu64) == ((b >> 40u64) & 0xffu64) && ((a >> 48u64) & 0xffu64) == ((b >> 48u64) & 0xffu64) && ((a >> 56u64) & 0xffu64)
            == ((b >> 56u64) & 0xffu64) ==> a == b
    ) by (bit_vector);
}

/// The token encodings of a sequence read from the front.
proof fn lemma_tokens_front(p: Seq<NounToken>)
    requires
        p.len() > 0,
    ensures
        tokens_bytes(p) == token_bytes(p[0]) + tokens_bytes(p.drop_first()),
    decreases p.len(),
{
    if p.len() == 1 {
        assert(p.drop_last().len() == 0);
        assert(p.drop_first().len() == 0);
        assert(p.last() == p[0]);
        assert(tokens_bytes(p.drop_first()) == Seq::<u8>::empty());
        assert(tokens_bytes(p.drop_last()) == Seq::<u8>::empty());
        assert(tokens_bytes(p) == tokens_bytes(p.drop_last()) + token_bytes(p.last()));
        assert(token_bytes(p[0]) + Seq::<u8>::empty() =~= token_bytes(p[0]));
        assert(Seq::<u8>::empty() + token_bytes(p[0]) =~= token_bytes(p[0]));
    } else {
        let d = p.drop_last();
        lemma_tokens_front(d);
        assert(d[0] == p[0]);
        assert(d.drop_first() =~= p.drop_first().drop_last());
        assert(p.drop_first().last() == p.last());
        assert(tokens_bytes(p.drop_first()) == tokens_bytes(p.drop_first().drop_last()) + token_bytes(p.drop_first().last()));
        assert(tokens_bytes(p) == tokens_bytes(d) + token_bytes(p.last()));
        assert(tokens_bytes(d) == token_bytes(p[0]) + tokens_bytes(d.drop_first()));
        assert(tokens_bytes(p) =~= token_bytes(p[0]) + tokens_bytes(p.drop_first()));
    }
}

/// Token encodings are prefix-free: equal counts and equal bytes give
/// equal tokens and equal remainders.
proof fn lemma_tokens_decode(p1: Seq<NounToken>, p2: Seq<NounToken>, r1: Seq<u8>, r2: Seq<u8>)
    requires
        p1.len() == p2.len(),
        tokens_bytes(p1) + r1 == tokens_bytes(p2) + r2,
    ensures
        p1 == p2,
        r1 == r2,
    decreases p1.len(),
{
    if p1.len() == 0 {
        assert(tokens_bytes(p1) + r1 =~= r1);
        assert(tokens_bytes(p2) + r2 =~= r2);
        assert(p1 =~= p2);
    } else {
        lemma_tokens_front(p1);
        lemma_tokens_front(p2);
        let t1 = token_bytes(p1[0]);
        let t2 = token_bytes(p2[0]);
        let q1 = tokens_bytes(p1.drop_first()) + r1;
        let q2 = tokens_bytes(p2.drop_first()) + r2;
        let all = tokens_bytes(p1) + r1;
        assert(all =~= t1 + q1);
        assert(tokens_bytes(p2) + r2 =~= t2 + q2);
        assert(all[0] == t1[0] && all[0] == t2[0]);
        match (p1[0], p2[0]) {
            (NounToken::Atom(v1), NounToken::Atom(v2)) => {
                assert(all.subrange(1, 9) =~= le_bytes(v1));
                assert(all.subrange(1, 9) =~= le_bytes(v2));
                lemma_le_injective(v1, v2);
                assert(all.subrange(9, all.len() as int) =~= q1);
                assert(all.subrange(9, all.len() as int) =~= q2);
            },
            (NounToken::Pair, NounToken::Pair) => {
                assert(all.subrange(1, all.len() as int) =~= q1);
                assert(all.subrange(1, all.len() as int) =~= q2);
            },
            _ => {},
        }
        lemma_tokens_decode(p1.drop_first(), p2.drop_first(), r1, r2);
        assert(p1 =~= seq![p1[0]] + p1.drop_first());
        assert(p2 =~= seq![p2[0]] + p2.drop_first());
    }
}

proof fn lemma_values_len(s: Seq<u64>)
    ensures
        values_bytes(s).len() == 8 * s.len(),
    decreases s.len(),
{
    if s.len() > 0 {
        lemma_values_len(s.drop_last());
    }
}

/// Equal counts and equal bytes give equal values.
proof fn lemma_values_decode(s1: Seq<u64>, s2: Seq<u64>)
    requires
        s1.len() == s2.len(),
        values_bytes(s1) == values_bytes(s2),
    ensures
        s1 == s2,
    decreases s1.len(),
{
    if s1.len() == 0 {
        assert(s1 =~= s2);
    } else {
        let n = s1.len() as int;
        lemma_values_len(s1.drop_last());
        lemma_values_len(s2.drop_last());
        let v = values_bytes(s1);
        assert(v.subrange(0, 8 * (n - 1)) =~= values_bytes(s1.drop_last()));
        assert(values_bytes(s2).subrange(0, 8 * (n - 1)) =~= values_bytes(s2.drop_last()));
        assert(v.subrange(8 * (n - 1), 8 * n) =~= le_bytes(s1.last()));
        assert(values_bytes(s2).subrange(8 * (n - 1), 8 * n) =~= le_bytes(s2.last()));
        lemma_values_decode(s1.drop_last(), s2.drop_last());
        lemma_le_injective(s1.last(), s2.last());
        assert(s1 =~= s1.drop_last().push(s1.last()));
        assert(s2 =~= s2.drop_last().push(s2.last()));
    }
}

/// A length-prefixed list followed by more bytes reads back as the list
/// and the rest.
proof fn lemma_list_decode(s1: Seq<u64>, s2: Seq<u64>, r1: Seq<u8>, r2: Seq<u8>)
    requires
        s1.len() <= u64::MAX,
        s2.len() <= u64::MAX,
        list_bytes(s1) + r1 == list_bytes(s2) + r2,
    ensures
        s1 == s2,
        r1 == r2,
{
    let a = list_bytes(s1) + r1;
    lemma_values_len(s1);
    lemma_values_len(s2);
    assert(a.subrange(0, 8) =~= le_bytes(s1.len() as u64));
    assert((list_bytes(s2) + r2).subrange(0, 8) =~= le_bytes(s2.len() as u64));
    lemma_le_injective(s1.len() as u64, s2.len() as u64);
    let n = 8 + 8 * (s1.len() as int);
    assert(a.subrange(8, n) =~= values_bytes(s1));
    assert((list_bytes(s2) + r2).subrange(8, n) =~= values_bytes(s2));
    lemma_values_decode(s1, s2);
    assert(a.subrange(n, a.len() as int) =~= r1);
    assert((list_bytes(s2) + r2).subrange(n, a.len() as int) =~= r2);
}

/// The transcript in nested form: tag, program count, then the rest.
proof fn lemma_transcript_shape(s: ExecutionStatement)
    ensures
        execution_transcript(&s) == execution_tag() + (le_bytes(s.program@.len() as u64) + (tokens_bytes(s.program@) + (list_bytes(
            s.public_input@,
        ) + (list_bytes(s.public_output@) + (le_bytes(s.cycles) + le_bytes(s.budget)))))),
{
    assert(execution_transcript(&s) =~= execution_tag() + (le_bytes(s.program@.len() as u64) + (tokens_bytes(s.program@) + (list_bytes(
        s.public_input@,
    ) + (list_bytes(s.public_output@) + (le_bytes(s.cycles) + le_bytes(s.budget)))))));
}

/// Bytes after a fixed-length prefix.
proof fn lemma_after(a: Seq<u8>, b: Seq<u8>, c: Seq<u8>, d: Seq<u8>)
    requires
        a + b == c + d,
        a.len() == c.len(),
    ensures
        a == c,
        b == d,
{
    assert(a =~= (a + b).subrange(0, a.len() as int));
    assert(c =~= (c + d).subrange(0, c.len() as int));
    assert(b =~= (a + b).subrange(a.len() as int, (a + b).len() as int));
    assert(d =~= (c + d).subrange(c.len() as int, (c + d).len() as int));
}

/// The transcript bytes determine the statement: program, public input,
/// public output, cycles and budget.
pub proof fn lemma_transcript_injective(s1: ExecutionStatement, s2: ExecutionStatement)
    requires
        s1.program@.len() <= u64::MAX && s1.public_input@.len() <= u64::MAX && s1.public_output@.len() <= u64::MAX,
        s2.program@.len() <= u64::MAX && s2.public_input@.len() <= u64::MAX && s2.public_output@.len() <= u64::MAX,
        execution_transcript(&s1) == execution_transcript(&s2),
    ensures
        s1.program@ == s2.program@,
        s1.public_input@ == s2.public_input@,
        s1.public_output@ == s2.public_output@,
        s1.cycles == s2.cycles,
        s1.budget == s2.budget,
{
    let tag = execution_tag();
    let tail1 = le_bytes(s1.cycles) + le_bytes(s1.budget);
    let tail2 = le_bytes(s2.cycles) + le_bytes(s2.budget);
    let r1 = list_bytes(s1.public_input@) + (list_bytes(s1.public_output@) + tail1);
    let r2 = list_bytes(s2.public_input@) + (list_bytes(s2.public_output@) + tail2);
    lemma_transcript_shape(s1);
    lemma_transcript_shape(s2);
    lemma_after(tag, le_bytes(s1.program@.len() as u64) + (tokens_bytes(s1.program@) + r1), tag, le_bytes(s2.program@.len() as u64) + (
    tokens_bytes(s2.program@) + r2));
    lemma_after(le_bytes(s1.program@.len() as u64), tokens_bytes(s1.program@) + r1, le_bytes(s2.program@.len() as u64), tokens_bytes(
        s2.program@,
    ) + r2);
    lemma_le_injective(s1.program@.len() as u64, s2.program@.len() as u64);
    lemma_tokens_decode(s1.program@, s2.program@, r1, r2);
    lemma_list_decode(s1.public_input@, s2.public_input@, list_bytes(s1.public_output@) + tail1, list_bytes(s2.public_output@) + tail2);
    lemma_list_decode(s1.public_output@, s2.public_output@, tail1, tail2);
    lemma_after(le_bytes(s1.cycles), le_bytes(s1.budget), le_bytes(s2.cycles), le_bytes(s2.budget));
    lemma_le_injective(s1.cycles, s2.cycles);
    lemma_le_injective(s1.budget, s2.budget);
}

} // verus!

//! What a choice between two plain texts means: `a|b` matches an input
//! exactly when `a` or `b` occurs in it.
use vstd::prelude::*;
use vstd::utf8::{encode_utf8, is_ascii_chars, is_ascii_chars_encode_utf8};
use crate::unit::Unit;
use crate::groups::Assembly;
use crate::grammar::{
    Parse, parse, parse_loop, step, initial_parse, flush, close_alternation, plain, has_start,
    has_end, is_quantifier, quantifier_at, alternation_of, clear_sides,
};
use crate::semantics::{
    Text, MState, Compiled, byte_len, search, attempt, parts_loop, part_step, Flow, unitary,
    alternation, nested_noncapturing, group_loop, plain_step, with_matched, char_at,
};
use crate::literal::{
    is_plain_char, is_plain_text, occurs_in, occurs_at, well_encoded, lemma_ascii_boundary,
    lemma_encode_nonempty,
};
use crate::search::{outcome, finishes, match_result, lemma_outcome_unique};

verus! {

/// The compiler reads a run of plain characters, not followed by a
/// quantifier, as pending literal text.
pub proof fn lemma_parse_run(pat: Seq<char>, he: bool, stop: int, p: Parse)
    requires
        0 <= p.k <= stop <= pat.len(),
        forall|i: int| p.k <= i < stop ==> is_plain_char(#[trigger] pat[i]),
        stop < pat.len() ==> !is_quantifier(pat[stop]),
        he ==> stop <= pat.len() - 1,
    ensures
        parse_loop(pat, he, p) == parse_loop(
            pat,
            he,
            Parse { k: stop, text: p.text + pat.subrange(p.k, stop), ..p },
        ),
    decreases stop - p.k,
{
    if p.k < stop {
        let c = pat[p.k];
        assert(quantifier_at(pat, p.k + 1) is None) by {
            if p.k + 1 < stop {
                assert(is_plain_char(pat[p.k + 1]));
            }
        }
        let q = Parse { k: p.k + 1, text: p.text.push(c), ..p };
        assert(step(pat, p) == Some(q));
        lemma_parse_run(pat, he, stop, q);
        assert(q.text + pat.subrange(q.k, stop) =~= p.text + pat.subrange(p.k, stop));
    } else {
        assert(pat.subrange(p.k, stop) =~= Seq::<char>::empty());
        assert(p.text + pat.subrange(p.k, stop) =~= p.text);
        assert(Parse { k: stop, text: p.text + pat.subrange(p.k, stop), ..p } == p);
    }
}

/// The unit that `a|b` compiles to.
pub open spec fn choice_unit(pa: Seq<u8>, pb: Seq<u8>) -> Unit {
    Unit::Alternation(
        Box::new(Unit::NonCapturingGroup(seq![Unit::PlainText(pa)])),
        Box::new(Unit::NonCapturingGroup(seq![Unit::PlainText(pb)])),
    )
}

pub open spec fn choice_compiled(pa: Seq<u8>, pb: Seq<u8>) -> Compiled {
    Compiled { parts: seq![choice_unit(pa, pb)], start: None, end: None, groups: 0 }
}

/// The pattern `a|b`.
pub open spec fn choice_pattern(a: Seq<char>, b: Seq<char>) -> Seq<char> {
    a + seq!['|'] + b
}

/// Compiling `a|b`, for plain texts `a` and `b`, gives one alternation of
/// two groups of literal text.
pub proof fn lemma_parse_choice(a: Seq<char>, b: Seq<char>)
    requires
        a.len() > 0,
        b.len() > 0,
        is_plain_text(a),
        is_plain_text(b),
        a[0] != '^',
        b.last() != '$',
    ensures
        parse(choice_pattern(a, b)) == Some(choice_compiled(encode_utf8(a), encode_utf8(b))),
{
    let pat = choice_pattern(a, b);
    let n = a.len() as int;
    assert(pat[0] == a[0]);
    assert(pat.last() == b.last());
    assert(!has_start(pat));
    assert(!has_end(pat));
    assert(pat[n] == '|');
    let p0 = initial_parse(pat);
    assert forall|i: int| 0 <= i < n implies is_plain_char(#[trigger] pat[i]) by {
        assert(pat[i] == a[i]);
    }
    lemma_parse_run(pat, false, n, p0);
    assert(pat.subrange(0, n) =~= a);
    let p1 = Parse { k: n, text: a, ..p0 };
    assert(p0.text + pat.subrange(0, n) =~= a);
    let ua = plain(a);
    let asm1 = Assembly { parts: seq![ua], ..p0.assembly };
    assert(p0.assembly.parts.push(ua) =~= seq![ua]);
    assert(flush(p1) == Some(Parse { text: Seq::empty(), assembly: asm1, ..p1 }));
    let p2 = Parse {
        k: n + 1,
        text: Seq::empty(),
        is_alternation: true,
        assembly: Assembly { first_alternation: true, ..asm1 },
        ..p1
    };
    assert(step(pat, p1) == Some(p2));
    assert forall|i: int| n + 1 <= i < pat.len() implies is_plain_char(#[trigger] pat[i]) by {
        assert(pat[i] == b[i - n - 1]);
    }
    lemma_parse_run(pat, false, pat.len() as int, p2);
    assert(pat.subrange(n + 1, pat.len() as int) =~= b);
    assert(Seq::<char>::empty() + pat.subrange(n + 1, pat.len() as int) =~= b);
    let p3 = Parse { k: pat.len() as int, text: b, ..p2 };
    assert(parse_loop(pat, false, p1) == parse_loop(pat, false, p2));
    assert(parse_loop(pat, false, p3) == Some(p3));
    let ub = plain(b);
    let asm4 = Assembly {
        parts: Seq::empty(),
        group1: seq![ua],
        group2: seq![ub],
        first_alternation: false,
        ..p3.assembly
    };
    assert(Seq::<Unit>::empty().push(ub) =~= seq![ub]);
    let p4 = Parse { text: Seq::empty(), assembly: asm4, ..p3 };
    assert(flush(p3) == Some(p4));
    let alt = alternation_of(asm4);
    assert(alt == choice_unit(encode_utf8(a), encode_utf8(b)));
    let p5 = clear_sides(
        Parse { is_alternation: false, assembly: Assembly { parts: seq![alt], ..asm4 }, ..p4 },
    );
    assert(Seq::<Unit>::empty().push(alt) =~= seq![alt]);
    assert(close_alternation(p4) == Some(p5));
}

/// A group of one literal text, tried at a position of an ASCII input:
/// it matches exactly when the text stands there, and then moves past it.
proof fn lemma_group_plain(f: nat, p: Seq<u8>, t: Text, nx: Option<Unit>, s: MState)
    requires
        f >= 3,
        well_encoded(t),
        is_ascii_chars(t.chars),
        s.matched,
        s.cursor < byte_len(t),
        byte_len(t) + p.len() <= usize::MAX,
    ensures
        unitary(f, Unit::NonCapturingGroup(seq![Unit::PlainText(p)]), t, false, false, true, nx, s)
            == Some(
            MState {
                matched: occurs_at(p, t.bytes, s.cursor as int),
                cursor: if occurs_at(p, t.bytes, s.cursor as int) {
                    (s.cursor + p.len()) as usize
                } else {
                    s.cursor
                },
                ..s
            },
        ),
{
    let j = s.cursor as int;
    is_ascii_chars_encode_utf8(t.chars);
    assert(char_at(t, s.cursor) is Some);
    if j + p.len() <= byte_len(t) {
        lemma_ascii_boundary(t, j);
        lemma_ascii_boundary(t, j + p.len());
    }
    let ch = seq![Unit::PlainText(p)];
    let g1 = (f - 1) as nat;
    let r = plain_step(p, t, false, false, with_matched(s, true));
    assert(unitary((g1 - 1) as nat, Unit::PlainText(p), t, false, false, true, nx, with_matched(s, true)) == r);
    assert(r is Some);
    if r->0.matched {
        assert(group_loop((g1 - 1) as nat, ch, 1, t, true, nx, false, true, with_matched(r->0, s.matched))
            == Some((true, with_matched(r->0, s.matched))));
    }
    assert(group_loop(g1, ch, 0, t, true, nx, false, true, s) is Some);
    assert(nested_noncapturing(f, ch, t, true, nx, s) is Some);
}

/// Trying `a|b` at one position of an ASCII input tells whether `a` or `b`
/// stands there.
proof fn lemma_attempt_choice(f: nat, pa: Seq<u8>, pb: Seq<u8>, t: Text, j: usize)
    requires
        f >= 3,
        well_encoded(t),
        is_ascii_chars(t.chars),
        j < byte_len(t),
        byte_len(t) + pa.len() <= usize::MAX,
        byte_len(t) + pb.len() <= usize::MAX,
    ensures
        ({
            let m = occurs_at(pa, t.bytes, j as int) || occurs_at(pb, t.bytes, j as int);
            attempt(f, choice_compiled(pa, pb), t, j) == Some((m, m))
        }),
{
    let cp = choice_compiled(pa, pb);
    let s0 = MState {
        matched: true,
        cursor: j,
        backrefs: Seq::new(cp.groups, |k: int| Seq::<u8>::empty()),
        group_index: 0,
    };
    let ga = Unit::NonCapturingGroup(seq![Unit::PlainText(pa)]);
    let gb = Unit::NonCapturingGroup(seq![Unit::PlainText(pb)]);
    lemma_group_plain(f, pa, t, None, with_matched(s0, true));
    let r1 = unitary(f, ga, t, false, false, true, None, with_matched(s0, true))->0;
    lemma_group_plain(f, pb, t, None, MState { matched: true, cursor: s0.cursor, ..r1 });
    let alt = alternation(f + 1, ga, gb, t, false, false, true, None, s0);
    assert(alt is Some);
    let r = alt->0;
    assert(r.matched == (occurs_at(pa, t.bytes, j as int) || occurs_at(pb, t.bytes, j as int)));
    assert(part_step(f, cp.parts, 0, t, s0) == Some(Flow::Next(r)));
    assert(parts_loop(f, cp.parts, 1, t, r) == Some(r));
}

/// `a` or `b` stands at position `k` of `bytes`.
pub open spec fn either_at(pa: Seq<u8>, pb: Seq<u8>, bytes: Seq<u8>, k: int) -> bool {
    occurs_at(pa, bytes, k) || occurs_at(pb, bytes, k)
}

/// Trying `a|b` from position `j` on finds whether `a` or `b` stands at
/// some position from `j` on.
proof fn lemma_search_choice(f: nat, pa: Seq<u8>, pb: Seq<u8>, t: Text, j: int, m: bool)
    requires
        f >= 3,
        well_encoded(t),
        is_ascii_chars(t.chars),
        0 <= j < byte_len(t),
        byte_len(t) + pa.len() <= usize::MAX,
        byte_len(t) + pb.len() <= usize::MAX,
    ensures
        search(f, choice_compiled(pa, pb), t, j, m) == Some(
            exists|k: int|
                j <= k < byte_len(t) && #[trigger] either_at(pa, pb, t.bytes, k),
        ),
    decreases byte_len(t) - j,
{
    lemma_attempt_choice(f, pa, pb, t, j as usize);
    let hit = either_at(pa, pb, t.bytes, j);
    if !hit {
        if j + 1 < byte_len(t) {
            lemma_search_choice(f, pa, pb, t, j + 1, false);
            assert forall|k: int|
                j <= k < byte_len(t) && #[trigger] either_at(pa, pb, t.bytes, k) implies j + 1 <= k by {}
        } else {
            assert forall|k: int| j <= k < byte_len(t) implies !#[trigger] either_at(pa, pb, t.bytes, k) by {}
        }
    }
}

/// `a|b`, for plain texts `a` and `b`, matches a non-empty ASCII input
/// exactly when `a` or `b` occurs in it; matching it always finishes.
pub proof fn law_choice_match(t: Text, a: Seq<char>, b: Seq<char>)
    requires
        a.len() > 0,
        b.len() > 0,
        is_plain_text(a),
        is_plain_text(b),
        a[0] != '^',
        b.last() != '$',
        well_encoded(t),
        is_ascii_chars(t.chars),
        0 < byte_len(t),
        byte_len(t) + encode_utf8(a).len() <= usize::MAX,
        byte_len(t) + encode_utf8(b).len() <= usize::MAX,
    ensures
        finishes(t, choice_pattern(a, b)),
        match_result(t, choice_pattern(a, b)) == (occurs_in(encode_utf8(a), t.bytes) || occurs_in(
            encode_utf8(b),
            t.bytes,
        )),
{
    let pat = choice_pattern(a, b);
    let pa = encode_utf8(a);
    let pb = encode_utf8(b);
    lemma_parse_choice(a, b);
    lemma_encode_nonempty(a);
    lemma_encode_nonempty(b);
    assert(pat.len() != 1);
    lemma_search_choice(3, pa, pb, t, 0, true);
    assert(outcome(t, pat, 3) is Some);
    let f0 = choose|fuel: nat| outcome(t, pat, fuel) is Some;
    lemma_outcome_unique(t, pat, f0, 3);
    let found = exists|k: int|
        0 <= k < byte_len(t) && #[trigger] either_at(pa, pb, t.bytes, k);
    if found {
        let k = choose|k: int|
            0 <= k < byte_len(t) && #[trigger] either_at(pa, pb, t.bytes, k);
        if occurs_at(pa, t.bytes, k) {
            assert(t.bytes.subrange(k, k + pa.len()) == pa);
            assert(occurs_in(pa, t.bytes));
        } else {
            assert(occurs_at(pb, t.bytes, k));
            assert(t.bytes.subrange(k, k + pb.len()) == pb);
            assert(occurs_in(pb, t.bytes));
        }
    }
    if occurs_in(pa, t.bytes) {
        let k = choose|k: int| 0 <= k && k + pa.len() <= t.bytes.len() && #[trigger] t.bytes.subrange(k, k + pa.len()) == pa;
        assert(occurs_at(pa, t.bytes, k));
        assert(either_at(pa, pb, t.bytes, k));
    }
    if occurs_in(pb, t.bytes) {
        let k = choose|k: int| 0 <= k && k + pb.len() <= t.bytes.len() && #[trigger] t.bytes.subrange(k, k + pb.len()) == pb;
        assert(occurs_at(pb, t.bytes, k));
        assert(either_at(pa, pb, t.bytes, k));
    }
}

} // verus!

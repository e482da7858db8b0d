//! What patterns of plain text mean: a pattern made of plain characters
//! looks for that text anywhere in the input, `^text` at its start and
//! `text$` at its end; the empty pattern matches every input, and a pattern
//! of more than one character matches the empty input.
use vstd::prelude::*;
use vstd::utf8::{
    encode_utf8, is_ascii_chars, is_char_boundary, encode_utf8_valid_utf8, is_ascii_chars_encode_utf8,
    is_char_boundary_start_end_of_seq, is_char_boundary_iff_is_leading_byte,
};
use crate::unit::Unit;
use crate::groups::{Assembly, add_unit, add_unit_ok};
use crate::grammar::{
    Parse, parse, parse_loop, step, initial_parse, flush, close_alternation, finish, plain,
    has_start, has_end, is_quantifier, quantifier_at, add_part,
};
use crate::semantics::{
    Text, MState, Compiled, byte_len, search, attempt, parts_loop, part_step, Flow, unitary,
    plain_step, slice, bump, last_spacing,
};
use crate::search::{outcome, finishes, match_result, lemma_outcome_unique};

verus! {

/// A character that stands for itself wherever it is in a pattern (`^` and
/// `$` do so except at the very start and end).
pub open spec fn is_plain_char(c: char) -> bool {
    c != '\\' && c != '.' && c != '[' && c != '|' && c != '(' && c != ')' && !is_quantifier(c)
}

/// A sequence of plain characters.
pub open spec fn is_plain_text(s: Seq<char>) -> bool {
    forall|i: int| 0 <= i < s.len() ==> is_plain_char(#[trigger] s[i])
}

/// Whether `p` occurs in `b`.
pub open spec fn occurs_in(p: Seq<u8>, b: Seq<u8>) -> bool {
    exists|j: int| 0 <= j && j + p.len() <= b.len() && #[trigger] b.subrange(j, j + p.len()) == p
}

/// The compiler reads a run of plain characters as pending literal text.
proof fn lemma_parse_plain_run(pat: Seq<char>, stop: int, p: Parse)
    requires
        0 <= p.k <= stop <= pat.len(),
        forall|i: int| p.k <= i < stop ==> is_plain_char(#[trigger] pat[i]),
        stop == if has_end(pat) {
            pat.len() - 1
        } else {
            pat.len() as int
        },
    ensures
        parse_loop(pat, has_end(pat), p) == parse_loop(
            pat,
            has_end(pat),
            Parse { k: stop, text: p.text + pat.subrange(p.k, stop), ..p },
        ),
    decreases stop - p.k,
{
    if p.k < stop {
        let c = pat[p.k];
        assert(quantifier_at(pat, p.k + 1) is None) by {
            if p.k + 1 < stop {
                assert(is_plain_char(pat[p.k + 1]));
            }
        }
        let q = Parse { k: p.k + 1, text: p.text.push(c), ..p };
        assert(step(pat, p) == Some(q));
        lemma_parse_plain_run(pat, stop, q);
        assert(q.text + pat.subrange(q.k, stop) =~= p.text + pat.subrange(p.k, stop));
    } else {
        assert(pat.subrange(p.k, stop) =~= Seq::<char>::empty());
        assert(p.text + pat.subrange(p.k, stop) =~= p.text);
        assert(Parse { k: stop, text: p.text + pat.subrange(p.k, stop), ..p } == p);
    }
}

/// Compiling plain text (with `^` before it or `$` after it) gives one
/// literal unit.
pub proof fn lemma_parse_plain(pat: Seq<char>, from: int, to: int)
    requires
        from == if has_start(pat) {
            1int
        } else {
            0int
        },
        to == if has_end(pat) {
            pat.len() - 1
        } else {
            pat.len() as int
        },
        from < to,
        is_plain_text(pat.subrange(from, to)),
        !(has_start(pat) && has_end(pat)),
    ensures
        parse(pat) == Some(
            Compiled {
                parts: if has_start(pat) || has_end(pat) {
                    Seq::empty()
                } else {
                    seq![plain(pat.subrange(from, to))]
                },
                start: if has_start(pat) {
                    Some(plain(pat.subrange(from, to)))
                } else {
                    None
                },
                end: if has_end(pat) {
                    Some(plain(pat.subrange(from, to)))
                } else {
                    None
                },
                groups: 0,
            },
        ),
{
    let p0 = initial_parse(pat);
    assert forall|i: int| p0.k <= i < to implies is_plain_char(#[trigger] pat[i]) by {
        assert(pat.subrange(from, to)[i - from] == pat[i]);
    }
    lemma_parse_plain_run(pat, to, p0);
    let p1 = Parse { k: to, text: p0.text + pat.subrange(from, to), ..p0 };
    assert(p1.text =~= pat.subrange(from, to));
    assert(parse_loop(pat, has_end(pat), p1) == Some(p1));
    let text = pat.subrange(from, to);
    let p2 = Parse {
        text: Seq::empty(),
        assembly: Assembly { parts: seq![plain(text)], ..p1.assembly },
        ..p1
    };
    assert(p1.assembly.parts.push(plain(text)) =~= seq![plain(text)]);
    assert(flush(p1) == Some(p2));
    assert(close_alternation(p2) == Some(p2));
    if has_start(pat) {
        assert(seq![plain(text)].drop_first() =~= Seq::<Unit>::empty());
    }
    if has_end(pat) {
        assert(seq![plain(text)].drop_last() =~= Seq::<Unit>::empty());
    }
}

/// Whether `p` stands in `b` at position `j`.
pub open spec fn occurs_at(p: Seq<u8>, b: Seq<u8>, j: int) -> bool {
    0 <= j && j + p.len() <= b.len() && b.subrange(j, j + p.len()) == p
}

pub open spec fn plain_compiled(p: Seq<u8>) -> Compiled {
    Compiled { parts: seq![Unit::PlainText(p)], start: None, end: None, groups: 0 }
}

/// Trying literal text at one position tells whether the text stands there.
proof fn lemma_attempt_plain(f: nat, p: Seq<u8>, t: Text, j: usize)
    requires
        j < byte_len(t),
        attempt(f, plain_compiled(p), t, j) is Some,
    ensures
        attempt(f, plain_compiled(p), t, j) == Some(
            (occurs_at(p, t.bytes, j as int), occurs_at(p, t.bytes, j as int)),
        ),
{
    let cp = plain_compiled(p);
    let s0 = MState {
        matched: true,
        cursor: j,
        backrefs: Seq::new(cp.groups, |k: int| Seq::<u8>::empty()),
        group_index: 0,
    };
    assert(part_step(f, cp.parts, 0, t, s0) is Some);
    match part_step(f, cp.parts, 0, t, s0)->0 {
        Flow::Next(r) => {
            assert(parts_loop(f, cp.parts, 1, t, r) == Some(r));
        },
        Flow::Stop(_) => {},
    }
}

/// Trying literal text from position `j` on finds whether it stands at some
/// position from `j` on.
proof fn lemma_search_plain(f: nat, p: Seq<u8>, t: Text, j: int, m: bool)
    requires
        0 <= j < byte_len(t) <= usize::MAX,
        p.len() > 0,
        search(f, plain_compiled(p), t, j, m) is Some,
    ensures
        search(f, plain_compiled(p), t, j, m)->0 == exists|k: int|
            j <= k < byte_len(t) && #[trigger] occurs_at(p, t.bytes, k),
    decreases byte_len(t) - j,
{
    let cp = plain_compiled(p);
    if j <= usize::MAX {
        lemma_attempt_plain(f, p, t, j as usize);
        let hit = occurs_at(p, t.bytes, j);
        if !hit {
            if j + 1 < byte_len(t) {
                lemma_search_plain(f, p, t, j + 1, false);
                assert forall|k: int| j <= k < byte_len(t) && #[trigger] occurs_at(p, t.bytes, k)
                    implies j + 1 <= k by {}
            } else {
                assert forall|k: int| j <= k < byte_len(t) implies !#[trigger] occurs_at(p, t.bytes, k) by {}
            }
        }
    }
}

/// The encoding of a non-empty text is not empty.
pub proof fn lemma_encode_nonempty(s: Seq<char>)
    requires
        s.len() > 0,
    ensures
        encode_utf8(s).len() > 0,
{
    assert(encode_utf8(s) == vstd::utf8::encode_scalar(s[0] as u32) + encode_utf8(s.drop_first()));
}

/// A pattern of plain text (of two characters or more, that neither starts
/// with `^` nor ends with `$`) matches a non-empty input exactly when the
/// text occurs in it.
pub proof fn law_plain_text_occurs(t: Text, pat: Seq<char>, fuel: nat)
    requires
        pat.len() >= 2,
        !has_start(pat),
        !has_end(pat),
        is_plain_text(pat),
        0 < byte_len(t) <= usize::MAX,
        outcome(t, pat, fuel) is Some,
    ensures
        outcome(t, pat, fuel)->0 == occurs_in(encode_utf8(pat), t.bytes),
{
    assert(pat.subrange(0, pat.len() as int) =~= pat);
    lemma_parse_plain(pat, 0, pat.len() as int);
    let p = encode_utf8(pat);
    lemma_encode_nonempty(pat);
    assert(parse(pat) == Some(plain_compiled(p)));
    lemma_search_plain(fuel, p, t, 0, true);
    if occurs_in(p, t.bytes) {
        let j = choose|j: int| 0 <= j && j + p.len() <= t.bytes.len() && #[trigger] t.bytes.subrange(j, j + p.len()) == p;
        assert(occurs_at(p, t.bytes, j));
    }
    if exists|k: int| 0 <= k < byte_len(t) && #[trigger] occurs_at(p, t.bytes, k) {
        let k = choose|k: int| 0 <= k < byte_len(t) && #[trigger] occurs_at(p, t.bytes, k);
        assert(t.bytes.subrange(k, k + p.len()) == p);
    }
}

/// A pattern `^text` (plain text, not ending with `$`) matches a non-empty
/// input exactly when the input begins with the text.
pub proof fn law_anchored_start(t: Text, pat: Seq<char>, fuel: nat)
    requires
        pat.len() >= 2,
        has_start(pat),
        !has_end(pat),
        is_plain_text(pat.subrange(1, pat.len() as int)),
        0 < byte_len(t),
        outcome(t, pat, fuel) is Some,
    ensures
        ({
            let p = encode_utf8(pat.subrange(1, pat.len() as int));
            outcome(t, pat, fuel)->0 == (p.len() <= byte_len(t) && t.bytes.subrange(0, p.len() as int)
                == p)
        }),
{
    lemma_parse_plain(pat, 1, pat.len() as int);
    let cp = parse(pat)->0;
    let s0 = MState {
        matched: true,
        cursor: 0,
        backrefs: Seq::new(cp.groups, |k: int| Seq::<u8>::empty()),
        group_index: 0,
    };
    assert(attempt(fuel, cp, t, 0) is Some);
    let s1 = unitary(fuel, cp.start->0, t, true, false, true, None, s0)->0;
    if s1.matched {
        assert(parts_loop(fuel, cp.parts, 0, t, s1) == Some(s1));
    }
}

/// The compiled form of `text$`.
pub open spec fn end_compiled(p: Seq<u8>) -> Compiled {
    Compiled { parts: Seq::empty(), start: None, end: Some(Unit::PlainText(p)), groups: 0 }
}

/// Whether `b` ends with `p`.
pub open spec fn ends_with(p: Seq<u8>, b: Seq<u8>) -> bool {
    p.len() <= b.len() && b.subrange(b.len() - p.len(), b.len() as int) == p
}

/// Every attempt of `text$` tells whether the input ends with the text.
proof fn lemma_attempt_end(f: nat, p: Seq<u8>, t: Text, j: usize)
    requires
        p.len() > 0,
        attempt(f, end_compiled(p), t, j) is Some,
    ensures
        attempt(f, end_compiled(p), t, j) == Some((ends_with(p, t.bytes), ends_with(p, t.bytes))),
{
    let cp = end_compiled(p);
    let s0 = MState {
        matched: true,
        cursor: j,
        backrefs: Seq::new(cp.groups, |k: int| Seq::<u8>::empty()),
        group_index: 0,
    };
    assert(parts_loop(f, cp.parts, 0, t, s0) == Some(s0));
    assert(last_spacing(Unit::PlainText(p)) == Some((p.len() - 1) as u32));
}

/// Trying `text$` from position `j` on tells whether the input ends with
/// the text.
proof fn lemma_search_end(f: nat, p: Seq<u8>, t: Text, j: int, m: bool)
    requires
        0 <= j < byte_len(t) <= usize::MAX,
        p.len() > 0,
        search(f, end_compiled(p), t, j, m) is Some,
    ensures
        search(f, end_compiled(p), t, j, m)->0 == ends_with(p, t.bytes),
    decreases byte_len(t) - j,
{
    lemma_attempt_end(f, p, t, j as usize);
    if !ends_with(p, t.bytes) && j + 1 < byte_len(t) {
        lemma_search_end(f, p, t, j + 1, false);
    }
}

/// A pattern `text$` (plain text, not starting with `^`) matches a non-empty
/// input exactly when the input ends with the text.
pub proof fn law_anchored_end(t: Text, pat: Seq<char>, fuel: nat)
    requires
        pat.len() >= 2,
        has_end(pat),
        !has_start(pat),
        is_plain_text(pat.subrange(0, pat.len() - 1)),
        0 < byte_len(t) <= usize::MAX,
        outcome(t, pat, fuel) is Some,
    ensures
        outcome(t, pat, fuel)->0 == ends_with(
            encode_utf8(pat.subrange(0, pat.len() - 1)),
            t.bytes,
        ),
{
    lemma_parse_plain(pat, 0, pat.len() - 1);
    let p = encode_utf8(pat.subrange(0, pat.len() - 1));
    lemma_encode_nonempty(pat.subrange(0, pat.len() - 1));
    assert(parse(pat) == Some(end_compiled(p)));
    lemma_search_end(fuel, p, t, 0, true);
}

/// The empty pattern matches every input.
pub proof fn law_empty_pattern(t: Text, fuel: nat)
    ensures
        outcome(t, Seq::empty(), fuel) == Some(true),
{
    let pat = Seq::<char>::empty();
    let p0 = initial_parse(pat);
    assert(parse_loop(pat, false, p0) == Some(p0));
    let cp = Compiled { parts: Seq::empty(), start: None, end: None, groups: 0 };
    assert(parse(pat) == Some(cp));
    if byte_len(t) > 0 {
        let s0 = MState {
            matched: true,
            cursor: 0,
            backrefs: Seq::new(cp.groups, |k: int| Seq::<u8>::empty()),
            group_index: 0,
        };
        assert(parts_loop(fuel, cp.parts, 0, t, s0) == Some(s0));
        assert(attempt(fuel, cp, t, 0) == Some((true, true)));
    }
}

/// A pattern of more than one character that compiles matches the empty
/// input.
pub proof fn law_empty_input(t: Text, pat: Seq<char>, fuel: nat)
    requires
        byte_len(t) == 0,
        pat.len() != 1,
        parse(pat) is Some,
    ensures
        outcome(t, pat, fuel) == Some(true),
{
}


/// An input line read from a string: its bytes encode its characters.
pub open spec fn well_encoded(t: Text) -> bool {
    t.bytes == encode_utf8(t.chars)
}

/// Every position of an ASCII input, its end included, lies between two
/// characters.
pub proof fn lemma_ascii_boundary(t: Text, i: int)
    requires
        well_encoded(t),
        is_ascii_chars(t.chars),
        0 <= i <= byte_len(t),
    ensures
        is_char_boundary(t.bytes, i),
{
    encode_utf8_valid_utf8(t.chars);
    is_ascii_chars_encode_utf8(t.chars);
    if i == byte_len(t) {
        is_char_boundary_start_end_of_seq(t.bytes);
    } else {
        let c = t.chars[i];
        assert('\0' <= c <= '\u{7f}');
        assert(c as u8 == t.bytes[i]);
        assert((c as u32) <= 0x7f);
        let b = t.bytes[i];
        assert(b <= 0x7f) by {
            let cu: u32 = c as u32;
            assert(cu <= 0x7f ==> (cu as u8) <= 0x7f) by (bit_vector);
            assert(c as u8 == (c as u32) as u8);
        }
        is_char_boundary_iff_is_leading_byte(t.bytes, i);
    }
}

/// Looking for literal text in an ASCII input finishes from every position.
proof fn lemma_search_plain_finishes(f: nat, p: Seq<u8>, t: Text, j: int, m: bool)
    requires
        well_encoded(t),
        is_ascii_chars(t.chars),
        0 <= j,
        byte_len(t) + p.len() <= usize::MAX,
    ensures
        search(f, plain_compiled(p), t, j, m) is Some,
    decreases byte_len(t) - j,
{
    if j < byte_len(t) {
        let cp = plain_compiled(p);
        let s0 = MState {
            matched: true,
            cursor: j as usize,
            backrefs: Seq::new(cp.groups, |k: int| Seq::<u8>::empty()),
            group_index: 0,
        };
        if j + p.len() <= byte_len(t) {
            lemma_ascii_boundary(t, j);
            lemma_ascii_boundary(t, j + p.len());
        }
        assert(part_step(f, cp.parts, 0, t, s0) is Some);
        match part_step(f, cp.parts, 0, t, s0)->0 {
            Flow::Next(r) => {
                assert(parts_loop(f, cp.parts, 1, t, r) == Some(r));
            },
            Flow::Stop(_) => {},
        }
        assert(attempt(f, cp, t, j as usize) is Some);
        let a = attempt(f, cp, t, j as usize)->0;
        lemma_search_plain_finishes(f, p, t, j + 1, a.1);
    }
}

/// Looking for `^text` in an input finishes.
proof fn lemma_search_start_finishes(f: nat, cp: Compiled, p: Seq<u8>, t: Text, j: int, m: bool)
    requires
        f >= 1,
        cp == (Compiled { parts: Seq::empty(), start: Some(Unit::PlainText(p)), end: None, groups: 0 }),
        0 <= j,
        p.len() <= usize::MAX,
    ensures
        search(f, cp, t, j, m) is Some,
    decreases byte_len(t) - j,
{
    if j < byte_len(t) && j <= usize::MAX {
        let s0 = MState {
            matched: true,
            cursor: j as usize,
            backrefs: Seq::new(cp.groups, |k: int| Seq::<u8>::empty()),
            group_index: 0,
        };
        if j == 0 {
            let s1 = unitary(f, Unit::PlainText(p), t, true, false, true, None, s0);
            assert(s1 is Some);
            assert(parts_loop(f, cp.parts, 0, t, s1->0) == Some(s1->0));
        }
        assert(attempt(f, cp, t, j as usize) is Some);
        let a = attempt(f, cp, t, j as usize)->0;
        lemma_search_start_finishes(f, cp, p, t, j + 1, a.1);
    }
}

/// Looking for `text$` in an input at least as long as the text less one
/// byte finishes.
proof fn lemma_search_end_finishes(f: nat, p: Seq<u8>, t: Text, j: int, m: bool)
    requires
        f >= 1,
        1 <= p.len() <= byte_len(t) + 1,
        p.len() - 1 <= u32::MAX,
        byte_len(t) + 1 <= usize::MAX,
        0 <= j,
    ensures
        search(f, end_compiled(p), t, j, m) is Some,
    decreases byte_len(t) - j,
{
    if j < byte_len(t) {
        let cp = end_compiled(p);
        let s0 = MState {
            matched: true,
            cursor: j as usize,
            backrefs: Seq::new(cp.groups, |k: int| Seq::<u8>::empty()),
            group_index: 0,
        };
        assert(parts_loop(f, cp.parts, 0, t, s0) == Some(s0));
        assert(last_spacing(Unit::PlainText(p)) == Some((p.len() - 1) as u32));
        assert(attempt(f, cp, t, j as usize) is Some);
        let a = attempt(f, cp, t, j as usize)->0;
        lemma_search_end_finishes(f, p, t, j + 1, a.1);
    }
}

/// The literal text of a pattern `text`, `^text` or `text$`.
pub open spec fn literal_body(pat: Seq<char>) -> Seq<char> {
    pat.subrange(
        if has_start(pat) {
            1int
        } else {
            0int
        },
        if has_end(pat) {
            pat.len() - 1
        } else {
            pat.len() as int
        },
    )
}

/// Matching a pattern of plain text (`text`, `^text` or `text$`, of two
/// characters or more, not both anchored) finishes with any fuel from one
/// on: `text` on an ASCII input, `^text` on any input, and `text$` on an
/// input at least as long as the text less one byte (the run fails on a
/// shorter input).
pub proof fn lemma_plain_text_finishes(t: Text, pat: Seq<char>, fuel: nat)
    requires
        fuel >= 1,
        pat.len() >= 2,
        !(has_start(pat) && has_end(pat)),
        literal_body(pat).len() > 0,
        is_plain_text(literal_body(pat)),
        byte_len(t) + encode_utf8(literal_body(pat)).len() <= usize::MAX,
        !has_start(pat) && !has_end(pat) ==> well_encoded(t) && is_ascii_chars(t.chars),
        has_end(pat) ==> encode_utf8(literal_body(pat)).len() <= byte_len(t) + 1
            && encode_utf8(literal_body(pat)).len() - 1 <= u32::MAX,
    ensures
        outcome(t, pat, fuel) is Some,
        finishes(t, pat),
{
    let from: int = if has_start(pat) {
        1int
    } else {
        0int
    };
    let to: int = if has_end(pat) {
        pat.len() - 1
    } else {
        pat.len() as int
    };
    let body = literal_body(pat);
    let p = encode_utf8(body);
    lemma_parse_plain(pat, from, to);
    lemma_encode_nonempty(body);
    if has_start(pat) {
        lemma_search_start_finishes(fuel, parse(pat)->0, p, t, 0, true);
    } else if has_end(pat) {
        assert(parse(pat) == Some(end_compiled(p)));
        lemma_search_end_finishes(fuel, p, t, 0, true);
    } else {
        assert(parse(pat) == Some(plain_compiled(p)));
        lemma_search_plain_finishes(fuel, p, t, 0, true);
    }
}

/// A pattern of plain text (two characters or more, no anchor) matches a
/// non-empty ASCII input exactly when the text occurs in it; matching it
/// always finishes.
pub proof fn law_plain_text_match(t: Text, pat: Seq<char>)
    requires
        pat.len() >= 2,
        !has_start(pat),
        !has_end(pat),
        is_plain_text(pat),
        well_encoded(t),
        is_ascii_chars(t.chars),
        0 < byte_len(t),
        byte_len(t) + encode_utf8(pat).len() <= usize::MAX,
    ensures
        finishes(t, pat),
        match_result(t, pat) == occurs_in(encode_utf8(pat), t.bytes),
{
    assert(literal_body(pat) =~= pat);
    lemma_plain_text_finishes(t, pat, 1);
    let f0 = choose|fuel: nat| outcome(t, pat, fuel) is Some;
    lemma_outcome_unique(t, pat, f0, 1);
    law_plain_text_occurs(t, pat, 1);
}

} // verus!

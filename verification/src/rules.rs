//! What the single units mean, stated directly in terms of the characters of
//! the input: which characters the classes accept, that the wildcard takes
//! any character, which character a class anchored at the end tests, and
//! what a capturing group records.
use vstd::prelude::*;
use vstd::utf8::{is_ascii_chars, is_ascii_chars_encode_utf8};
use crate::unit::Unit;
use crate::semantics::{
    Text, MState, Flow, unitary, part_step, class_step, char_at, group_loop, nested_capturing,
    byte_len, with_matched, fail, Compiled, attempt, search, parts_loop, last_spacing, top_repeat,
    top_plus, top_star, top_lookahead, plain_step, nested_noncapturing,
};
use crate::unit::is_neg_char_group;
use crate::grammar::{
    parse, parse_loop, step, initial_parse, flush, close_alternation, finish, has_start, has_end,
    find_close, lemma_find_close, escape_unit, add_quantified, quantifier_at, add_part,
};
use crate::literal::{
    well_encoded, is_plain_char, is_plain_text, occurs_at, lemma_ascii_boundary, lemma_encode_nonempty,
};
use crate::choice::lemma_parse_run;
use crate::grammar::{Parse, plain, quantified};
use crate::groups::Assembly;
use vstd::utf8::encode_utf8;
use crate::search::{outcome, finishes, match_result, lemma_outcome_unique};

verus! {

/// The characters each one-character unit accepts, written out: `\d` the
/// digits `0` to `9`; `\w` the digits, the letters `a` to `z` and `A` to `Z`
/// and `_`; `[g]` the characters of `g`; `[^g]` every other character.
pub open spec fn accepts(u: Unit, c: char) -> bool {
    match u {
        Unit::Digit => '0' <= c && c <= '9',
        Unit::AlphaNumeric => ('0' <= c && c <= '9') || ('a' <= c && c <= 'z') || ('A' <= c && c
            <= 'Z') || c == '_',
        Unit::CharGroup(g) => exists|i: int| 0 <= i < g.len() && g[i] == c,
        Unit::NegCharGroup(g) => forall|i: int| 0 <= i < g.len() ==> g[i] != c,
        _ => false,
    }
}

pub open spec fn is_one_char_unit(u: Unit) -> bool {
    u is Digit || u is AlphaNumeric || u is CharGroup || u is NegCharGroup
}

/// The state after a one-character unit at the cursor: one position on when
/// it accepts the character there, the same place with the flag down when
/// it does not.
pub open spec fn after_char(u: Unit, c: char, s: MState) -> MState {
    if accepts(u, c) {
        MState { cursor: (s.cursor + 1) as usize, ..s }
    } else {
        MState { matched: false, ..s }
    }
}

/// A one-character unit inside a pattern tests the character at the cursor:
/// it moves one position on if it accepts the character, and otherwise
/// fails in place; nothing else changes.
pub proof fn law_one_char_unit(
    f: nat,
    u: Unit,
    t: Text,
    st: bool,
    en: bool,
    inc: bool,
    nx: Option<Unit>,
    s: MState,
)
    requires
        f >= 1,
        is_one_char_unit(u),
        s.cursor < t.chars.len(),
        s.cursor + 1 <= usize::MAX,
    ensures
        unitary(f, u, t, st, en, inc, nx, s) == Some(after_char(u, t.chars[s.cursor as int], s)),
{
    let c = t.chars[s.cursor as int];
    assert(char_at(t, s.cursor) == Some(c));
    match u {
        Unit::CharGroup(g) => {
            if g.contains(c) {
                let i = choose|i: int| 0 <= i < g.len() && g[i] == c;
                assert(0 <= i < g.len() && g[i] == c);
            }
        },
        Unit::NegCharGroup(g) => {
            if !g.contains(c) {
                assert forall|i: int| 0 <= i < g.len() implies g[i] != c by {
                    assert(!(g[i] == c));
                }
            } else {
                let i = choose|i: int| 0 <= i < g.len() && g[i] == c;
                assert(0 <= i < g.len() && g[i] == c);
            }
        },
        _ => {},
    }
    assert(unitary(f, u, t, st, en, inc, nx, s) == class_step(u, t, s));
}

/// A one-character unit at the top level of a pattern tests the character
/// at the cursor: matching goes on one position further if it accepts it,
/// and stops with a failure otherwise.
pub proof fn law_one_char_part(f: nat, parts: Seq<Unit>, i: int, t: Text, s: MState)
    requires
        0 <= i < parts.len(),
        is_one_char_unit(parts[i]),
        s.cursor < t.chars.len(),
        s.cursor + 1 <= usize::MAX,
    ensures
        part_step(f, parts, i, t, s) == Some(
            if accepts(parts[i], t.chars[s.cursor as int]) {
                Flow::Next(MState { cursor: (s.cursor + 1) as usize, ..s })
            } else {
                Flow::Stop(MState { matched: false, ..s })
            },
        ),
{
    let u = parts[i];
    law_one_char_unit(1, u, t, false, false, false, None, s);
    assert(char_at(t, s.cursor) == Some(t.chars[s.cursor as int]));
}

/// The wildcard takes any character: inside a pattern it moves one position
/// on and changes nothing else.
pub proof fn law_wildcard_unit(
    f: nat,
    t: Text,
    st: bool,
    en: bool,
    inc: bool,
    nx: Option<Unit>,
    s: MState,
)
    requires
        f >= 1,
        s.cursor + 1 <= usize::MAX,
    ensures
        unitary(f, Unit::Wildcard, t, st, en, inc, nx, s) == Some(
            MState { cursor: (s.cursor + 1) as usize, ..s },
        ),
{
}

/// The wildcard at the top level of a pattern takes any character: matching
/// goes on one position further, with nothing else changed.
pub proof fn law_wildcard_part(f: nat, parts: Seq<Unit>, i: int, t: Text, s: MState)
    requires
        0 <= i < parts.len(),
        parts[i] is Wildcard,
        s.cursor + 1 <= usize::MAX,
    ensures
        part_step(f, parts, i, t, s) == Some(Flow::Next(MState { cursor: (s.cursor + 1) as usize, ..s })),
{
}


/// The children of a group report a failure only with the flag down.
proof fn lemma_group_loop_fails_down(
    f: nat,
    ch: Seq<Unit>,
    i: nat,
    t: Text,
    inc: bool,
    nx: Option<Unit>,
    capturing: bool,
    s: MState,
)
    ensures
        group_loop(f, ch, i, t, inc, nx, capturing, true, s) matches Some((lm, r)) ==> (lm
            || !r.matched),
    decreases f,
{
    if i < ch.len() && f > 0 && !(capturing && !(s.cursor < byte_len(t))) {
        let lnext = if i + 1 <= ch.len() - 1 {
            Some(ch[i + 1 as int])
        } else {
            nx
        };
        let o = unitary((f - 1) as nat, ch[i as int], t, false, false, inc, lnext, with_matched(s, true));
        if o is Some && o->0.matched {
            lemma_group_loop_fails_down(
                (f - 1) as nat,
                ch,
                i + 1,
                t,
                inc,
                nx,
                capturing,
                with_matched(o->0, s.matched),
            );
        }
    }
}

/// A capturing group inside a pattern that matches records, as the capture
/// of its index, the input bytes from where its match started to where it
/// ended. This holds whether it counts as a new group or is run again with
/// the same index (as under `+` or `*`, where the last repetition that
/// matches is what stays recorded).
pub proof fn law_capture_records_match(
    f: nat,
    ch: Seq<Unit>,
    t: Text,
    st: bool,
    en: bool,
    inc: bool,
    nx: Option<Unit>,
    s: MState,
)
    requires
        s.matched,
        unitary(f, Unit::CapturingGroup(ch), t, st, en, inc, nx, s) matches Some(r) && r.matched,
    ensures
        ({
            let r = unitary(f, Unit::CapturingGroup(ch), t, st, en, inc, nx, s)->0;
            let gi: int = if inc {
                s.group_index + 1
            } else {
                s.group_index as int
            };
            &&& 1 <= gi <= r.backrefs.len()
            &&& s.cursor <= r.cursor <= t.bytes.len()
            &&& r.backrefs[gi - 1] == t.bytes.subrange(s.cursor as int, r.cursor as int)
        }),
{
    assert(unitary(f, Unit::CapturingGroup(ch), t, st, en, inc, nx, s) == nested_capturing(
        f,
        ch,
        t,
        inc,
        nx,
        s,
    ));
    let gi: usize = if inc {
        (s.group_index + 1) as usize
    } else {
        s.group_index
    };
    let s1 = MState { group_index: gi, ..s };
    lemma_group_loop_fails_down((f - 1) as nat, ch, 0, t, inc, nx, true, s1);
}

/// A pattern made of one one-character unit and `$`.
pub open spec fn end_class_compiled(u: Unit) -> Compiled {
    Compiled { parts: Seq::empty(), start: None, end: Some(u), groups: 0 }
}

/// Every attempt of a one-character unit anchored at the end tests the last
/// character of a non-empty ASCII input.
proof fn lemma_attempt_end_class(f: nat, u: Unit, t: Text, j: usize)
    requires
        f >= 1,
        is_one_char_unit(u),
        well_encoded(t),
        is_ascii_chars(t.chars),
        j < byte_len(t),
        byte_len(t) + 1 <= usize::MAX,
    ensures
        ({
            let m = accepts(u, t.chars.last());
            attempt(f, end_class_compiled(u), t, j) == Some((m, m))
        }),
{
    is_ascii_chars_encode_utf8(t.chars);
    let cp = end_class_compiled(u);
    let s0 = MState {
        matched: true,
        cursor: j,
        backrefs: Seq::new(cp.groups, |k: int| Seq::<u8>::empty()),
        group_index: 0,
    };
    assert(parts_loop(f, cp.parts, 0, t, s0) == Some(s0));
    assert(last_spacing(u) == Some(1u32));
    let s3 = MState { cursor: (byte_len(t) - 1) as usize, ..s0 };
    law_one_char_unit(f, u, t, false, true, true, None, s3);
}

/// Trying a one-character unit anchored at the end from position `j` on
/// tests the last character of a non-empty ASCII input.
proof fn lemma_search_end_class(f: nat, u: Unit, t: Text, j: int, m: bool)
    requires
        f >= 1,
        is_one_char_unit(u),
        well_encoded(t),
        is_ascii_chars(t.chars),
        0 <= j < byte_len(t),
        byte_len(t) + 1 <= usize::MAX,
    ensures
        search(f, end_class_compiled(u), t, j, m) == Some(accepts(u, t.chars.last())),
    decreases byte_len(t) - j,
{
    lemma_attempt_end_class(f, u, t, j as usize);
    if !accepts(u, t.chars.last()) && j + 1 < byte_len(t) {
        lemma_search_end_class(f, u, t, j + 1, false);
    }
}

/// How a one-character unit is written in a pattern: `\d`, `\w`, `[g]` or
/// `[^g]`.
pub open spec fn class_source(u: Unit) -> Seq<char> {
    match u {
        Unit::Digit => seq!['\\', 'd'],
        Unit::AlphaNumeric => seq!['\\', 'w'],
        Unit::CharGroup(g) => seq!['['] + g + seq![']'],
        Unit::NegCharGroup(g) => seq!['[', '^'] + g + seq![']'],
        _ => Seq::empty(),
    }
}

/// The characters of a bracket group can be written between `[` and `]`:
/// no `]` among them, and a positive group does not start with `^`.
pub open spec fn writable_class(u: Unit) -> bool {
    match u {
        Unit::CharGroup(g) => !g.contains(']') && (g.len() > 0 ==> g[0] != '^'),
        Unit::NegCharGroup(g) => !g.contains(']'),
        _ => true,
    }
}

/// The pattern `C$` compiles to `C` anchored at the end.
pub proof fn lemma_parse_end_class(u: Unit)
    requires
        is_one_char_unit(u),
        writable_class(u),
    ensures
        parse(class_source(u) + seq!['$']) == Some(end_class_compiled(u)),
{
    let pat = class_source(u) + seq!['$'];
    let n = pat.len() as int;
    assert(pat.last() == '$');
    assert(has_end(pat));
    assert(!has_start(pat));
    let p0 = initial_parse(pat);
    let e: int = n - 2;
    assert(pat[e] == ']' || u is Digit || u is AlphaNumeric);
    match u {
        Unit::CharGroup(g) => {
            assert(pat[0] == '[');
            assert(pat[e] == ']');
            if g.len() > 0 {
                assert(pat[1] == g[0]);
            } else {
                assert(pat[1] == ']');
            }
            lemma_find_close(pat, 1);
            assert forall|j: int| 1 <= j < e implies pat[j] != ']' by {
                assert(pat[j] == g[j - 1]);
                if pat[j] == ']' {
                    assert(g.contains(']'));
                }
            }
            assert(find_close(pat, 1) == Some(e));
            assert(pat.subrange(1, e) =~= g);
        },
        Unit::NegCharGroup(g) => {
            assert(pat[0] == '[');
            assert(pat[1] == '^');
            assert(pat[e] == ']');
            lemma_find_close(pat, 2);
            assert forall|j: int| 2 <= j < e implies pat[j] != ']' by {
                assert(pat[j] == g[j - 2]);
                if pat[j] == ']' {
                    assert(g.contains(']'));
                }
            }
            assert(find_close(pat, 2) == Some(e));
            assert(pat.subrange(2, e) =~= g);
        },
        _ => {
            assert(pat[0] == '\\');
            assert(escape_unit(pat[1]) == Some(u));
        },
    }
    assert(quantifier_at(pat, n - 1) is None);
    let q = step(pat, p0)->0;
    assert(step(pat, p0) is Some);
    assert(q.k == n - 1);
    assert(q.assembly.parts =~= seq![u]);
    assert(parse_loop(pat, true, q) == Some(q));
    assert(parse_loop(pat, true, p0) == Some(q));
    assert(seq![u].drop_last() =~= Seq::<Unit>::empty());
}

/// A one-character unit alone before `$` matches a non-empty ASCII input
/// exactly when it accepts the last character of the input; matching it
/// always finishes.
pub proof fn law_end_class_match(t: Text, u: Unit)
    requires
        is_one_char_unit(u),
        writable_class(u),
        well_encoded(t),
        is_ascii_chars(t.chars),
        0 < byte_len(t),
        byte_len(t) + 1 <= usize::MAX,
    ensures
        finishes(t, class_source(u) + seq!['$']),
        match_result(t, class_source(u) + seq!['$']) == accepts(u, t.chars.last()),
{
    let pat = class_source(u) + seq!['$'];
    lemma_parse_end_class(u);
    assert(pat.len() != 1);
    lemma_search_end_class(1, u, t, 0, true);
    assert(outcome(t, pat, 1) is Some);
    let f0 = choose|fuel: nat| outcome(t, pat, fuel) is Some;
    lemma_outcome_unique(t, pat, f0, 1);
}

/// When matching a pattern with no anchor finishes, it answers true as soon
/// as one start position gives a match.
proof fn lemma_search_hit(f: nat, cp: Compiled, t: Text, j: int, m: bool, k: int)
    requires
        cp.start is None,
        cp.end is None,
        0 <= j <= k < byte_len(t),
        byte_len(t) <= usize::MAX,
        attempt(f, cp, t, k as usize) == Some((true, true)),
        search(f, cp, t, j, m) is Some,
    ensures
        search(f, cp, t, j, m) == Some(true),
    decreases k - j,
{
    let a = attempt(f, cp, t, j as usize)->0;
    if !a.0 {
        lemma_search_hit(f, cp, t, j + 1, a.1, k);
    }
}

/// The pattern `a` + `mid` + `c`, for plain texts `a` and `c`.
pub open spec fn around(a: Seq<char>, mid: Seq<char>, c: Seq<char>) -> Seq<char> {
    a + mid + c
}

pub open spec fn around_compiled(a: Seq<char>, u: Unit, c: Seq<char>) -> Compiled {
    Compiled { parts: seq![plain(a), u, plain(c)], start: None, end: None, groups: 0 }
}

/// `a.c` compiles to the text `a`, the wildcard and the text `c`, and
/// `a.*c` to the text `a`, the wildcard repeated and the text `c`.
pub proof fn lemma_parse_around(a: Seq<char>, star: bool, c: Seq<char>)
    requires
        a.len() > 0,
        c.len() > 0,
        is_plain_text(a),
        is_plain_text(c),
        a[0] != '^',
        c.last() != '$',
    ensures
        parse(around(a, if star { seq!['.', '*'] } else { seq!['.'] }, c)) == Some(
            around_compiled(
                a,
                if star {
                    Unit::ZeroOrMore(Box::new(Unit::Wildcard))
                } else {
                    Unit::Wildcard
                },
                c,
            ),
        ),
{
    let mid = if star {
        seq!['.', '*']
    } else {
        seq!['.']
    };
    let u = if star {
        Unit::ZeroOrMore(Box::new(Unit::Wildcard))
    } else {
        Unit::Wildcard
    };
    let pat = around(a, mid, c);
    let n = a.len() as int;
    let m = n + mid.len();
    assert(pat[0] == a[0]);
    assert(pat.last() == c.last());
    assert(!has_start(pat));
    assert(!has_end(pat));
    assert(pat[n] == '.');
    assert(pat[m] == c[0]);
    let p0 = initial_parse(pat);
    assert forall|i: int| 0 <= i < n implies is_plain_char(#[trigger] pat[i]) by {
        assert(pat[i] == a[i]);
    }
    lemma_parse_run(pat, false, n, p0);
    assert(p0.text + pat.subrange(0, n) =~= a);
    let p1 = Parse { k: n, text: a, ..p0 };
    let ua = plain(a);
    let asm1 = Assembly { parts: seq![ua], ..p0.assembly };
    assert(p0.assembly.parts.push(ua) =~= seq![ua]);
    assert(flush(p1) == Some(Parse { text: Seq::empty(), assembly: asm1, ..p1 }));
    let asm2 = Assembly { parts: seq![ua, u], ..asm1 };
    assert(seq![ua].push(u) =~= seq![ua, u]);
    if star {
        assert(pat[n + 1] == '*');
        assert(quantifier_at(pat, n + 1) == Some('*'));
        assert(quantified('*', Unit::Wildcard) == u);
    } else {
        assert(quantifier_at(pat, n + 1) is None);
    }
    let p2 = Parse { k: m, text: Seq::empty(), assembly: asm2, ..p1 };
    assert(step(pat, p1) == Some(p2));
    assert forall|i: int| m <= i < pat.len() implies is_plain_char(#[trigger] pat[i]) by {
        assert(pat[i] == c[i - m]);
    }
    lemma_parse_run(pat, false, pat.len() as int, p2);
    assert(Seq::<char>::empty() + pat.subrange(m, pat.len() as int) =~= c);
    let p3 = Parse { k: pat.len() as int, text: c, ..p2 };
    assert(parse_loop(pat, false, p1) == parse_loop(pat, false, p2));
    assert(parse_loop(pat, false, p3) == Some(p3));
    let uc = plain(c);
    assert(seq![ua, u].push(uc) =~= seq![ua, u, uc]);
    let p4 = Parse { text: Seq::empty(), assembly: Assembly { parts: seq![ua, u, uc], ..asm2 }, ..p3 };
    assert(flush(p3) == Some(p4));
    assert(close_alternation(p4) == Some(p4));
}

/// Literal text at the top level, where it stands at the cursor of an ASCII
/// input, moves past it.
proof fn lemma_plain_part_hit(f: nat, parts: Seq<Unit>, i: int, p: Seq<u8>, t: Text, s: MState)
    requires
        0 <= i < parts.len(),
        parts[i] == Unit::PlainText(p),
        well_encoded(t),
        is_ascii_chars(t.chars),
        occurs_at(p, t.bytes, s.cursor as int),
        byte_len(t) <= usize::MAX,
    ensures
        part_step(f, parts, i, t, s) == Some(
            Flow::Next(MState { cursor: (s.cursor + p.len()) as usize, ..s }),
        ),
{
    lemma_ascii_boundary(t, s.cursor as int);
    lemma_ascii_boundary(t, s.cursor + p.len());
}

/// The wildcard takes any character: `a.c`, for plain texts `a` and `c`,
/// matches an ASCII input in which `a` is followed, one character further
/// on, by `c`, whenever matching it finishes.
pub proof fn law_wildcard_any_char(t: Text, a: Seq<char>, c: Seq<char>, k: int, fuel: nat)
    requires
        a.len() > 0,
        c.len() > 0,
        is_plain_text(a),
        is_plain_text(c),
        a[0] != '^',
        c.last() != '$',
        well_encoded(t),
        is_ascii_chars(t.chars),
        byte_len(t) <= usize::MAX,
        occurs_at(encode_utf8(a), t.bytes, k),
        occurs_at(encode_utf8(c), t.bytes, k + encode_utf8(a).len() + 1),
        outcome(t, around(a, seq!['.'], c), fuel) is Some,
    ensures
        outcome(t, around(a, seq!['.'], c), fuel) == Some(true),
{
    let pat = around(a, seq!['.'], c);
    lemma_parse_around(a, false, c);
    let cp = around_compiled(a, Unit::Wildcard, c);
    let pa = encode_utf8(a);
    let pc = encode_utf8(c);
    lemma_encode_nonempty(a);
    lemma_encode_nonempty(c);
    assert(pat.len() != 1);
    let s0 = MState {
        matched: true,
        cursor: k as usize,
        backrefs: Seq::new(cp.groups, |q: int| Seq::<u8>::empty()),
        group_index: 0,
    };
    lemma_plain_part_hit(fuel, cp.parts, 0, pa, t, s0);
    let s1 = MState { cursor: (k + pa.len()) as usize, ..s0 };
    law_wildcard_part(fuel, cp.parts, 1, t, s1);
    let s2 = MState { cursor: (k + pa.len() + 1) as usize, ..s0 };
    lemma_plain_part_hit(fuel, cp.parts, 2, pc, t, s2);
    let s3 = MState { cursor: (k + pa.len() + 1 + pc.len()) as usize, ..s0 };
    assert(parts_loop(fuel, cp.parts, 3, t, s3) == Some(s3));
    assert(s2.cursor < byte_len(t));
    assert(parts_loop(fuel, cp.parts, 2, t, s2) == Some(s3));
    assert(s1.cursor < byte_len(t));
    assert(parts_loop(fuel, cp.parts, 1, t, s1) == Some(s3));
    assert(s0.cursor < byte_len(t));
    assert(parts_loop(fuel, cp.parts, 0, t, s0) == Some(s3));
    assert(attempt(fuel, cp, t, k as usize) == Some((true, true)));
    lemma_search_hit(fuel, cp, t, 0, true, k);
}

/// `x*` over the wildcard at the top level may take no character: `a.*c`,
/// for plain texts `a` and `c`, matches an ASCII input in which `a` is
/// directly followed by `c`, whenever matching it finishes.
pub proof fn law_star_wildcard_none(t: Text, a: Seq<char>, c: Seq<char>, k: int, fuel: nat)
    requires
        fuel >= 1,
        a.len() > 0,
        c.len() > 0,
        is_plain_text(a),
        is_plain_text(c),
        a[0] != '^',
        c.last() != '$',
        well_encoded(t),
        is_ascii_chars(t.chars),
        byte_len(t) <= usize::MAX,
        occurs_at(encode_utf8(a), t.bytes, k),
        occurs_at(encode_utf8(c), t.bytes, k + encode_utf8(a).len()),
        outcome(t, around(a, seq!['.', '*'], c), fuel) is Some,
    ensures
        outcome(t, around(a, seq!['.', '*'], c), fuel) == Some(true),
{
    let pat = around(a, seq!['.', '*'], c);
    let star = Unit::ZeroOrMore(Box::new(Unit::Wildcard));
    lemma_parse_around(a, true, c);
    let cp = around_compiled(a, star, c);
    let pa = encode_utf8(a);
    let pc = encode_utf8(c);
    lemma_encode_nonempty(a);
    lemma_encode_nonempty(c);
    assert(pat.len() != 1);
    let s0 = MState {
        matched: true,
        cursor: k as usize,
        backrefs: Seq::new(cp.groups, |q: int| Seq::<u8>::empty()),
        group_index: 0,
    };
    lemma_plain_part_hit(fuel, cp.parts, 0, pa, t, s0);
    let s1 = MState { cursor: (k + pa.len()) as usize, ..s0 };
    lemma_ascii_boundary(t, s1.cursor as int);
    lemma_ascii_boundary(t, s1.cursor + pc.len());
    let look = unitary(fuel, plain(c), t, false, false, false, Some(plain(c)), with_matched(s1, true));
    assert(look is Some && look->0.matched);
    assert(part_step(fuel, cp.parts, 1, t, s1) is Some);
    assert(part_step(fuel, cp.parts, 1, t, s1)->0 is Stop);
    let r = part_step(fuel, cp.parts, 1, t, s1)->0->Stop_0;
    assert(r.matched);
    assert(s1.cursor < byte_len(t));
    assert(parts_loop(fuel, cp.parts, 1, t, s1) == Some(r));
    assert(s0.cursor < byte_len(t));
    assert(parts_loop(fuel, cp.parts, 0, t, s0) == Some(r));
    assert(attempt(fuel, cp, t, k as usize) == Some((true, true)));
    lemma_search_hit(fuel, cp, t, 0, true, k);
}

/// A capturing group at the top level of a pattern that matches records, as
/// the capture of the next group index, the input bytes from where its match
/// started to where it ended.
pub proof fn law_top_capture_records_match(f: nat, parts: Seq<Unit>, i: int, t: Text, s: MState)
    requires
        0 <= i < parts.len(),
        parts[i] is CapturingGroup,
        s.matched,
        part_step(f, parts, i, t, s) matches Some(Flow::Next(r)) && r.matched,
    ensures
        ({
            let r = part_step(f, parts, i, t, s)->0->Next_0;
            let gi: int = s.group_index + 1;
            &&& gi <= r.backrefs.len()
            &&& s.cursor <= r.cursor <= t.bytes.len()
            &&& r.backrefs[gi - 1] == t.bytes.subrange(s.cursor as int, r.cursor as int)
        }),
{
    let ch = parts[i]->CapturingGroup_0;
    let nx = if i + 1 <= parts.len() - 1 {
        Some(parts[i + 1])
    } else {
        None
    };
    let gi = (s.group_index + 1) as usize;
    lemma_group_loop_fails_down(f, ch, 0, t, true, nx, true, MState { group_index: gi, ..s });
}

/// An optional unit `x?` never fails: whenever it finishes it leaves the
/// flag as it was, and moves the cursor (and changes the captures) exactly as
/// `x` alone does from the same place.
pub proof fn law_optional_never_fails(
    f: nat,
    pu: Unit,
    t: Text,
    st: bool,
    en: bool,
    inc: bool,
    nx: Option<Unit>,
    s: MState,
)
    requires
        f >= 1,
        unitary(f, Unit::ZeroOrOne(Box::new(pu)), t, st, en, inc, nx, s) is Some,
    ensures
        ({
            let r = unitary(f, Unit::ZeroOrOne(Box::new(pu)), t, st, en, inc, nx, s)->0;
            let x = unitary((f - 1) as nat, pu, t, st, en, inc, nx, with_matched(s, true));
            &&& x is Some
            &&& r.matched == s.matched
            &&& r.cursor == x->0.cursor
            &&& r.backrefs == x->0.backrefs
            &&& r.group_index == x->0.group_index
        }),
{
}

/// An optional unit `x?` at the top level of a pattern never stops the
/// match: matching goes on with the flag as it was, from where `x` alone
/// leaves the cursor.
pub proof fn law_top_optional_goes_on(f: nat, parts: Seq<Unit>, i: int, t: Text, s: MState)
    requires
        0 <= i < parts.len(),
        parts[i] is ZeroOrOne,
        part_step(f, parts, i, t, s) is Some,
    ensures
        ({
            let pu = *(parts[i]->ZeroOrOne_0);
            let nx = if i + 1 <= parts.len() - 1 {
                Some(parts[i + 1])
            } else {
                None
            };
            let x = unitary(f, pu, t, false, false, true, nx, with_matched(s, true));
            &&& x is Some
            &&& part_step(f, parts, i, t, s) == Some(Flow::Next(MState { matched: s.matched, ..x->0 }))
        }),
{
}

/// Whether trying the pattern at start position `k` gives a match.
pub open spec fn hit_at(f: nat, cp: Compiled, t: Text, k: int) -> bool {
    attempt(f, cp, t, k as usize) == Some((true, true))
}

/// When matching a pattern with no anchor finishes, it answers whether some
/// start position gives a match.
proof fn lemma_search_exists(f: nat, cp: Compiled, t: Text, j: int, m: bool)
    requires
        cp.start is None,
        cp.end is None,
        0 <= j < byte_len(t),
        byte_len(t) <= usize::MAX,
        search(f, cp, t, j, m) is Some,
    ensures
        search(f, cp, t, j, m)->0 == exists|k: int| j <= k < byte_len(t) && #[trigger] hit_at(f, cp, t, k),
    decreases byte_len(t) - j,
{
    let a = attempt(f, cp, t, j as usize)->0;
    if a.0 {
        assert(hit_at(f, cp, t, j));
    } else if j + 1 < byte_len(t) {
        lemma_search_exists(f, cp, t, j + 1, a.1);
        assert forall|k: int| j <= k < byte_len(t) && #[trigger] hit_at(f, cp, t, k) implies j + 1
            <= k by {}
    } else {
        assert forall|k: int| j <= k < byte_len(t) implies !#[trigger] hit_at(f, cp, t, k) by {}
    }
}

/// The repetition of a top-level `+` or `*` over a unit other than a
/// negated group ends with the overall result it was given.
proof fn lemma_top_repeat_keeps(
    f: nat,
    pu: Unit,
    parts: Seq<Unit>,
    i: int,
    t: Text,
    nx: Option<Unit>,
    m: bool,
    r: MState,
)
    requires
        !is_neg_char_group(pu),
    ensures
        top_repeat(f, pu, parts, i, t, nx, m, r) matches Some(x) ==> x.matched == m,
    decreases f,
{
    if r.matched && f > 0 {
        match top_lookahead(f, pu, parts, i, t, nx, r) {
            Some((mt, r1)) => if !mt && byte_len(t) != 0 && !(r1.cursor > byte_len(t) - 1) {
                match unitary(f, pu, t, false, false, false, nx, r1) {
                    Some(r2) => if !(r2.cursor > byte_len(t) - 1) {
                        lemma_top_repeat_keeps((f - 1) as nat, pu, parts, i, t, nx, m, r2);
                    },
                    None => {},
                }
            },
            None => {},
        }
    }
}

/// The pattern `C+` or `C*`, for a one-character unit `C`.
pub open spec fn repeat_compiled(u: Unit, star: bool) -> Compiled {
    Compiled {
        parts: seq![
            if star {
                Unit::ZeroOrMore(Box::new(u))
            } else {
                Unit::OneOrMore(Box::new(u))
            },
        ],
        start: None,
        end: None,
        groups: 0,
    }
}

/// `C+` and `C*` compile to `C` repeated.
pub proof fn lemma_parse_repeat_class(u: Unit, star: bool)
    requires
        is_one_char_unit(u),
        writable_class(u),
    ensures
        parse(class_source(u) + seq![if star { '*' } else { '+' }]) == Some(repeat_compiled(u, star)),
{
    let q = if star {
        '*'
    } else {
        '+'
    };
    let pat = class_source(u) + seq![q];
    let n = pat.len() as int;
    assert(pat.last() == q);
    assert(!has_end(pat));
    assert(!has_start(pat));
    let p0 = initial_parse(pat);
    let e: int = n - 2;
    match u {
        Unit::CharGroup(g) => {
            assert(pat[0] == '[');
            assert(pat[e] == ']');
            if g.len() > 0 {
                assert(pat[1] == g[0]);
            } else {
                assert(pat[1] == ']');
            }
            lemma_find_close(pat, 1);
            assert forall|j: int| 1 <= j < e implies pat[j] != ']' by {
                assert(pat[j] == g[j - 1]);
                if pat[j] == ']' {
                    assert(g.contains(']'));
                }
            }
            assert(find_close(pat, 1) == Some(e));
            assert(pat.subrange(1, e) =~= g);
        },
        Unit::NegCharGroup(g) => {
            assert(pat[0] == '[');
            assert(pat[1] == '^');
            assert(pat[e] == ']');
            lemma_find_close(pat, 2);
            assert forall|j: int| 2 <= j < e implies pat[j] != ']' by {
                assert(pat[j] == g[j - 2]);
                if pat[j] == ']' {
                    assert(g.contains(']'));
                }
            }
            assert(find_close(pat, 2) == Some(e));
            assert(pat.subrange(2, e) =~= g);
        },
        _ => {
            assert(pat[0] == '\\');
            assert(escape_unit(pat[1]) == Some(u));
        },
    }
    assert(quantifier_at(pat, n - 1) == Some(q));
    assert(step(pat, p0) is Some);
    let p1 = step(pat, p0)->0;
    assert(p1.k == n);
    assert(p1.assembly.parts =~= repeat_compiled(u, star).parts);
    assert(parse_loop(pat, false, p1) == Some(p1));
    assert(parse_loop(pat, false, p0) == Some(p1));
}

/// A start position of `C+`, for a one-character unit `C` other than a
/// negated group, gives a match exactly when `C` accepts the character there.
proof fn lemma_attempt_plus_class(f: nat, u: Unit, t: Text, j: int)
    requires
        is_one_char_unit(u),
        !is_neg_char_group(u),
        well_encoded(t),
        is_ascii_chars(t.chars),
        0 <= j < byte_len(t) <= usize::MAX,
        attempt(f, repeat_compiled(u, false), t, j as usize) is Some,
    ensures
        hit_at(f, repeat_compiled(u, false), t, j) == accepts(u, t.chars[j]),
        attempt(f, repeat_compiled(u, false), t, j as usize) matches Some((st, m)) && st == m,
{
    is_ascii_chars_encode_utf8(t.chars);
    let cp = repeat_compiled(u, false);
    let s0 = MState {
        matched: true,
        cursor: j as usize,
        backrefs: Seq::new(cp.groups, |k: int| Seq::<u8>::empty()),
        group_index: 0,
    };
    if f >= 1 {
        law_one_char_unit(f, u, t, false, false, true, None, with_matched(s0, true));
    }
    let x = unitary(f, u, t, false, false, true, None, with_matched(s0, true));
    assert(x is Some);
    let r = x->0;
    if r.cursor <= byte_len(t) - 1 && r.matched {
        assert(top_lookahead(f, u, cp.parts, 0, t, None, r) == Some((false, r)));
        lemma_top_repeat_keeps(f, u, cp.parts, 0, t, None, true, r);
        let r2 = top_repeat(f, u, cp.parts, 0, t, None, true, r);
        assert(r2 is Some);
        assert(parts_loop(f, cp.parts, 1, t, r2->0) == Some(r2->0));
    } else if !(r.cursor <= byte_len(t) - 1) {
        assert(parts_loop(f, cp.parts, 1, t, with_matched(r, true)) == Some(with_matched(r, true)));
    }
}

/// `C+` alone, for `C` one of `\d`, `\w` or `[g]`, matches a non-empty
/// ASCII input exactly when `C` accepts some character of it, whenever
/// matching it finishes.
pub proof fn law_plus_class(t: Text, u: Unit, fuel: nat)
    requires
        is_one_char_unit(u),
        !is_neg_char_group(u),
        writable_class(u),
        well_encoded(t),
        is_ascii_chars(t.chars),
        0 < byte_len(t) <= usize::MAX,
        outcome(t, class_source(u) + seq!['+'], fuel) is Some,
    ensures
        outcome(t, class_source(u) + seq!['+'], fuel)->0 == exists|k: int|
            0 <= k < t.chars.len() && #[trigger] accepts(u, t.chars[k]),
{
    let pat = class_source(u) + seq!['+'];
    lemma_parse_repeat_class(u, false);
    assert(pat.len() != 1);
    let cp = repeat_compiled(u, false);
    is_ascii_chars_encode_utf8(t.chars);
    lemma_search_exists(fuel, cp, t, 0, true);
    assert forall|k: int| 0 <= k < byte_len(t) && #[trigger] hit_at(fuel, cp, t, k) implies accepts(
        u,
        t.chars[k],
    ) by {
        lemma_attempt_plus_class(fuel, u, t, k);
    }
    if exists|k: int| 0 <= k < t.chars.len() && #[trigger] accepts(u, t.chars[k]) {
        let k = choose|k: int| 0 <= k < t.chars.len() && #[trigger] accepts(u, t.chars[k]);
        if !(exists|k2: int| 0 <= k2 < byte_len(t) && #[trigger] hit_at(fuel, cp, t, k2)) {
            lemma_search_reaches(fuel, cp, t, 0, true, k);
            lemma_attempt_plus_class(fuel, u, t, k);
        }
    }
}

/// When matching a pattern with no anchor finishes with no match, every
/// start position was tried and gave an answer.
proof fn lemma_search_reaches(f: nat, cp: Compiled, t: Text, j: int, m: bool, k: int)
    requires
        cp.start is None,
        cp.end is None,
        0 <= j <= k < byte_len(t),
        byte_len(t) <= usize::MAX,
        search(f, cp, t, j, m) is Some,
        !(exists|k2: int| j <= k2 < byte_len(t) && #[trigger] hit_at(f, cp, t, k2)),
    ensures
        attempt(f, cp, t, k as usize) is Some,
    decreases k - j,
{
    assert(!hit_at(f, cp, t, j));
    if j < k {
        let a = attempt(f, cp, t, j as usize)->0;
        lemma_search_reaches(f, cp, t, j + 1, a.1, k);
    }
}

/// `C*` alone, for `C` one of `\d`, `\w` or `[g]`, may take no character:
/// it matches every non-empty input, whenever matching it finishes.
pub proof fn law_star_class(t: Text, u: Unit, fuel: nat)
    requires
        is_one_char_unit(u),
        !is_neg_char_group(u),
        writable_class(u),
        0 < byte_len(t) <= usize::MAX,
        outcome(t, class_source(u) + seq!['*'], fuel) is Some,
    ensures
        outcome(t, class_source(u) + seq!['*'], fuel) == Some(true),
{
    let pat = class_source(u) + seq!['*'];
    lemma_parse_repeat_class(u, true);
    assert(pat.len() != 1);
    let cp = repeat_compiled(u, true);
    let s0 = MState {
        matched: true,
        cursor: 0,
        backrefs: Seq::new(cp.groups, |k: int| Seq::<u8>::empty()),
        group_index: 0,
    };
    assert(attempt(fuel, cp, t, 0) is Some);
    let r0 = with_matched(s0, true);
    assert(top_lookahead(fuel, u, cp.parts, 0, t, None, r0) == Some((false, r0)));
    let x = unitary(fuel, u, t, false, false, true, None, r0);
    assert(x is Some);
    if x->0.cursor <= byte_len(t) - 1 {
        lemma_top_repeat_keeps(fuel, u, cp.parts, 0, t, None, true, x->0);
        let r2 = top_repeat(fuel, u, cp.parts, 0, t, None, true, x->0);
        assert(parts_loop(fuel, cp.parts, 1, t, r2->0) == Some(r2->0));
    } else {
        assert(parts_loop(fuel, cp.parts, 1, t, with_matched(x->0, true)) == Some(with_matched(x->0, true)));
    }
    assert(attempt(fuel, cp, t, 0) == Some((true, true)));
}

/// Units that are all literal text.
pub open spec fn all_text(ch: Seq<Unit>) -> bool {
    forall|k: int| 0 <= k < ch.len() ==> #[trigger] ch[k] is PlainText
}

/// The literal texts of units `i` on, one after the other.
pub open spec fn texts_from(ch: Seq<Unit>, i: int) -> Seq<u8>
    decreases ch.len() - i,
{
    if i < 0 || i >= ch.len() {
        Seq::empty()
    } else {
        ch[i]->PlainText_0 + texts_from(ch, i + 1)
    }
}

/// `p + q` stands at `c` exactly when `p` stands at `c` and `q` right after.
proof fn lemma_occurs_concat(p: Seq<u8>, q: Seq<u8>, b: Seq<u8>, c: int)
    requires
        0 <= c,
    ensures
        occurs_at(p + q, b, c) == (occurs_at(p, b, c) && occurs_at(q, b, c + p.len())),
{
    if occurs_at(p + q, b, c) {
        let w = b.subrange(c, c + p.len() + q.len());
        assert(w.subrange(0, p.len() as int) =~= b.subrange(c, c + p.len()));
        assert((p + q).subrange(0, p.len() as int) =~= p);
        assert(w.subrange(p.len() as int, w.len() as int) =~= b.subrange(c + p.len(), c + p.len() + q.len()));
        assert((p + q).subrange(p.len() as int, (p + q).len() as int) =~= q);
    }
    if occurs_at(p, b, c) && occurs_at(q, b, c + p.len()) {
        assert(b.subrange(c, c + p.len() + q.len()) =~= b.subrange(c, c + p.len()) + b.subrange(
            c + p.len(),
            c + p.len() + q.len(),
        ));
    }
}

/// The children of a group, all literal text, run from child `i` on over an
/// ASCII input: they match exactly when their texts, one after the other,
/// stand at the cursor, and then the cursor is past them.
proof fn lemma_group_loop_texts(
    f: nat,
    ch: Seq<Unit>,
    i: int,
    t: Text,
    inc: bool,
    nx: Option<Unit>,
    s: MState,
)
    requires
        all_text(ch),
        0 <= i <= ch.len(),
        f >= ch.len() - i + 1,
        s.matched,
        well_encoded(t),
        is_ascii_chars(t.chars),
        s.cursor <= byte_len(t),
        byte_len(t) + texts_from(ch, i).len() <= usize::MAX,
    ensures
        group_loop(f, ch, i as nat, t, inc, nx, false, true, s) matches Some((lm, r)) && lm
            == occurs_at(texts_from(ch, i), t.bytes, s.cursor as int) && r.matched == lm && (lm
            ==> r.cursor == s.cursor + texts_from(ch, i).len()),
    decreases ch.len() - i,
{
    if i >= ch.len() {
        assert(t.bytes.subrange(s.cursor as int, s.cursor as int) =~= Seq::<u8>::empty());
    } else {
        assert(ch[i] is PlainText);
        let p = ch[i]->PlainText_0;
        let rest = texts_from(ch, i + 1);
        let c = s.cursor as int;
        lemma_occurs_concat(p, rest, t.bytes, c);
        let lnext = if i + 1 <= ch.len() - 1 {
            Some(ch[i + 1])
        } else {
            nx
        };
        let g = (f - 1) as nat;
        if c + p.len() <= byte_len(t) {
            lemma_ascii_boundary(t, c);
            lemma_ascii_boundary(t, c + p.len());
        }
        let o = unitary(g, ch[i], t, false, false, inc, lnext, with_matched(s, true));
        assert(o == plain_step(p, t, false, false, with_matched(s, true)));
        assert(o is Some);
        let r = o->0;
        assert(r.matched == occurs_at(p, t.bytes, c));
        if r.matched {
            lemma_group_loop_texts(g, ch, i + 1, t, inc, nx, with_matched(r, true));
        }
    }
}

/// A group of literal texts (as each side of an alternation is) matches, on
/// an ASCII input, exactly when its texts, one after the other, stand at the
/// cursor; it then moves past them, and otherwise fails. Every text is
/// tried, also where an earlier one reaches the end of the input.
pub proof fn law_text_group(
    f: nat,
    ch: Seq<Unit>,
    t: Text,
    st: bool,
    en: bool,
    inc: bool,
    nx: Option<Unit>,
    s: MState,
)
    requires
        all_text(ch),
        f >= ch.len() + 3,
        s.matched,
        well_encoded(t),
        is_ascii_chars(t.chars),
        s.cursor < byte_len(t),
        byte_len(t) + texts_from(ch, 0).len() <= usize::MAX,
    ensures
        unitary(f, Unit::NonCapturingGroup(ch), t, st, en, inc, nx, s) matches Some(r) && r.matched
            == occurs_at(texts_from(ch, 0), t.bytes, s.cursor as int) && (r.matched ==> r.cursor
            == s.cursor + texts_from(ch, 0).len()),
{
    is_ascii_chars_encode_utf8(t.chars);
    assert(char_at(t, s.cursor) is Some);
    lemma_group_loop_texts((f - 1) as nat, ch, 0, t, inc, nx, s);
    assert(unitary(f, Unit::NonCapturingGroup(ch), t, st, en, inc, nx, s) == nested_noncapturing(
        f,
        ch,
        t,
        inc,
        nx,
        s,
    ));
}
} // verus!

//! What matching keeps: a unit never moves the cursor back, and never
//! changes how many captures there are; a back reference acts as the text it
//! refers to.
use vstd::prelude::*;
use crate::unit::{Unit, is_neg_char_group};
use crate::semantics::{
    Text, MState, unitary, alternation, backreference, nested_repeat, nested_plus, nested_star,
    group_loop, nested_capturing, nested_noncapturing, with_matched, lookahead_result,
    next_or_wildcard, byte_len, plain_step, bump, fail, slice, part_step, Flow,
};

verus! {

/// `r` is `s` moved on: the cursor is no further back and the number of
/// captures is the same.
pub open spec fn moved_on(s: MState, r: MState) -> bool {
    s.cursor <= r.cursor && r.backrefs.len() == s.backrefs.len()
}

/// Matching a unit never moves the cursor back and keeps the number of
/// captures.
pub proof fn lemma_unitary_moves_on(
    f: nat,
    u: Unit,
    t: Text,
    st: bool,
    en: bool,
    inc: bool,
    nx: Option<Unit>,
    s: MState,
)
    requires
        unitary(f, u, t, st, en, inc, nx, s) is Some,
    ensures
        moved_on(s, unitary(f, u, t, st, en, inc, nx, s)->0),
    decreases f, 2nat,
{
    match u {
        Unit::OneOrMore(pu) => lemma_nested_plus_moves_on(f, *pu, t, st, en, inc, nx, s),
        Unit::ZeroOrMore(pu) => lemma_nested_star_moves_on(f, *pu, t, st, en, inc, nx, s),
        Unit::ZeroOrOne(pu) => lemma_unitary_moves_on(
            (f - 1) as nat,
            *pu,
            t,
            st,
            en,
            inc,
            nx,
            with_matched(s, true),
        ),
        Unit::Alternation(a, b) => lemma_alternation_moves_on(f, *a, *b, t, st, en, inc, nx, s),
        Unit::CapturingGroup(ch) => lemma_nested_capturing_moves_on(f, ch, t, inc, nx, s),
        Unit::NonCapturingGroup(ch) => lemma_nested_noncapturing_moves_on(f, ch, t, inc, nx, s),
        Unit::BackReference(n) => lemma_backreference_moves_on(f, n, t, st, en, inc, nx, s),
        _ => {},
    }
}

/// An alternation never moves the cursor back and keeps the number of
/// captures.
pub proof fn lemma_alternation_moves_on(
    f: nat,
    a: Unit,
    b: Unit,
    t: Text,
    st: bool,
    en: bool,
    inc: bool,
    nx: Option<Unit>,
    s: MState,
)
    requires
        alternation(f, a, b, t, st, en, inc, nx, s) is Some,
    ensures
        moved_on(s, alternation(f, a, b, t, st, en, inc, nx, s)->0),
    decreases f, 1nat,
{
    let f1 = (f - 1) as nat;
    lemma_unitary_moves_on(f1, a, t, st, en, inc, nx, with_matched(s, true));
    let r1 = unitary(f1, a, t, st, en, inc, nx, with_matched(s, true))->0;
    lemma_unitary_moves_on(
        f1,
        b,
        t,
        st,
        en,
        inc,
        nx,
        MState { matched: true, cursor: s.cursor, ..r1 },
    );
}

/// A back reference never moves the cursor back and keeps the number of
/// captures.
pub proof fn lemma_backreference_moves_on(
    f: nat,
    n: u16,
    t: Text,
    st: bool,
    en: bool,
    inc: bool,
    nx: Option<Unit>,
    s: MState,
)
    requires
        backreference(f, n, t, st, en, inc, nx, s) is Some,
    ensures
        moved_on(s, backreference(f, n, t, st, en, inc, nx, s)->0),
    decreases f, 1nat,
{
    lemma_unitary_moves_on(
        (f - 1) as nat,
        Unit::PlainText(s.backrefs[n - 1]),
        t,
        st,
        en,
        inc,
        nx,
        with_matched(s, true),
    );
}

/// The repetition of a nested `+` or `*` never moves the cursor back and
/// keeps the number of captures.
pub proof fn lemma_nested_repeat_moves_on(
    f: nat,
    pu: Unit,
    t: Text,
    st: bool,
    en: bool,
    nx: Option<Unit>,
    lookahead: bool,
    m: bool,
    r: MState,
)
    requires
        nested_repeat(f, pu, t, st, en, nx, lookahead, m, r) is Some,
    ensures
        moved_on(r, nested_repeat(f, pu, t, st, en, nx, lookahead, m, r)->0),
    decreases f, 0nat,
{
    if r.matched {
        let f1 = (f - 1) as nat;
        if lookahead && is_neg_char_group(pu) {
            lemma_unitary_moves_on(f1, next_or_wildcard(nx), t, false, false, false, nx, with_matched(r, true));
        }
        let la: (bool, MState) = if lookahead && is_neg_char_group(pu) {
            lookahead_result(
                nx,
                r,
                unitary(f1, next_or_wildcard(nx), t, false, false, false, nx, with_matched(r, true)),
            )->0
        } else {
            (false, r)
        };
        if !la.0 {
            lemma_unitary_moves_on(f1, pu, t, st, en, false, nx, la.1);
            let r2 = unitary(f1, pu, t, st, en, false, nx, la.1)->0;
            if byte_len(t) != 0 && !(r2.cursor > byte_len(t) - 1) && !(is_neg_char_group(pu)
                && r2.cursor + 1 > byte_len(t) - 1) {
                lemma_nested_repeat_moves_on(f1, pu, t, st, en, nx, lookahead, m, r2);
            }
        }
    }
}

/// A nested `+` never moves the cursor back and keeps the number of
/// captures.
pub proof fn lemma_nested_plus_moves_on(
    f: nat,
    pu: Unit,
    t: Text,
    st: bool,
    en: bool,
    inc: bool,
    nx: Option<Unit>,
    s: MState,
)
    requires
        nested_plus(f, pu, t, st, en, inc, nx, s) is Some,
    ensures
        moved_on(s, nested_plus(f, pu, t, st, en, inc, nx, s)->0),
    decreases f, 1nat,
{
    let f1 = (f - 1) as nat;
    lemma_unitary_moves_on(f1, pu, t, st, en, inc, nx, with_matched(s, true));
    let r = unitary(f1, pu, t, st, en, inc, nx, with_matched(s, true))->0;
    if byte_len(t) != 0 && r.cursor <= byte_len(t) - 1 {
        let m1 = if is_neg_char_group(pu) && r.cursor + 1 > byte_len(t) - 1 {
            r.matched
        } else {
            s.matched
        };
        let m2 = if !r.matched {
            false
        } else {
            m1
        };
        if is_neg_char_group(pu) {
            lemma_unitary_moves_on(f1, next_or_wildcard(nx), t, false, false, false, nx, with_matched(r, true));
            let la = lookahead_result(
                nx,
                r,
                unitary(f1, next_or_wildcard(nx), t, false, false, false, nx, with_matched(r, true)),
            )->0;
            if !la.0 {
                lemma_nested_repeat_moves_on(f1, pu, t, st, en, nx, true, m2, la.1);
            }
        } else {
            lemma_nested_repeat_moves_on(f1, pu, t, st, en, nx, true, m2, r);
        }
    }
}

/// A nested `*` never moves the cursor back and keeps the number of
/// captures.
pub proof fn lemma_nested_star_moves_on(
    f: nat,
    pu: Unit,
    t: Text,
    st: bool,
    en: bool,
    inc: bool,
    nx: Option<Unit>,
    s: MState,
)
    requires
        nested_star(f, pu, t, st, en, inc, nx, s) is Some,
    ensures
        moved_on(s, nested_star(f, pu, t, st, en, inc, nx, s)->0),
    decreases f, 1nat,
{
    let f1 = (f - 1) as nat;
    lemma_unitary_moves_on(f1, pu, t, st, en, inc, nx, with_matched(s, true));
    let r = unitary(f1, pu, t, st, en, inc, nx, with_matched(s, true))->0;
    if byte_len(t) != 0 && r.cursor <= byte_len(t) - 1 {
        let m1 = if is_neg_char_group(pu) && r.cursor + 1 > byte_len(t) - 1 {
            r.matched
        } else {
            s.matched
        };
        lemma_nested_repeat_moves_on(f1, pu, t, st, en, nx, false, m1, r);
    }
}

/// Matching the children of a group never moves the cursor back and keeps
/// the number of captures.
pub proof fn lemma_group_loop_moves_on(
    f: nat,
    ch: Seq<Unit>,
    i: nat,
    t: Text,
    inc: bool,
    nx: Option<Unit>,
    capturing: bool,
    lm: bool,
    s: MState,
)
    requires
        group_loop(f, ch, i, t, inc, nx, capturing, lm, s) is Some,
    ensures
        match group_loop(f, ch, i, t, inc, nx, capturing, lm, s) {
            Some((_, r)) => moved_on(s, r),
            None => true,
        },
    decreases f, 0nat,
{
    if i < ch.len() && !(capturing && !(s.cursor < byte_len(t))) {
        let f1 = (f - 1) as nat;
        let lnext = if i + 1 <= ch.len() - 1 {
            Some(ch[i + 1 as int])
        } else {
            nx
        };
        lemma_unitary_moves_on(f1, ch[i as int], t, false, false, inc, lnext, with_matched(s, true));
        let r = unitary(f1, ch[i as int], t, false, false, inc, lnext, with_matched(s, true))->0;
        if r.matched {
            lemma_group_loop_moves_on(
                f1,
                ch,
                i + 1,
                t,
                inc,
                nx,
                capturing,
                true,
                with_matched(r, s.matched),
            );
        }
    }
}

/// A nested capturing group never moves the cursor back and keeps the
/// number of captures.
pub proof fn lemma_nested_capturing_moves_on(
    f: nat,
    ch: Seq<Unit>,
    t: Text,
    inc: bool,
    nx: Option<Unit>,
    s: MState,
)
    requires
        nested_capturing(f, ch, t, inc, nx, s) is Some,
    ensures
        moved_on(s, nested_capturing(f, ch, t, inc, nx, s)->0),
    decreases f, 1nat,
{
    let gi: usize = if inc {
        (s.group_index + 1) as usize
    } else {
        s.group_index
    };
    if s.cursor < byte_len(t) {
        lemma_group_loop_moves_on(
            (f - 1) as nat,
            ch,
            0,
            t,
            inc,
            nx,
            true,
            true,
            MState { group_index: gi, ..s },
        );
    }
}

/// A nested non-capturing group never moves the cursor back and keeps the
/// number of captures.
pub proof fn lemma_nested_noncapturing_moves_on(
    f: nat,
    ch: Seq<Unit>,
    t: Text,
    inc: bool,
    nx: Option<Unit>,
    s: MState,
)
    requires
        nested_noncapturing(f, ch, t, inc, nx, s) is Some,
    ensures
        moved_on(s, nested_noncapturing(f, ch, t, inc, nx, s)->0),
    decreases f, 1nat,
{
    if s.cursor < byte_len(t) {
        lemma_group_loop_moves_on((f - 1) as nat, ch, 0, t, inc, nx, false, true, s);
    }
}


/// A back reference to a recorded group does what the captured text does as
/// literal text at the same place, and leaves the captures and the group
/// index as they were.
pub proof fn law_backreference_as_text(
    f: nat,
    n: u16,
    t: Text,
    st: bool,
    en: bool,
    inc: bool,
    nx: Option<Unit>,
    s: MState,
)
    requires
        f >= 2,
        1 <= n,
        n - 1 < s.backrefs.len(),
    ensures
        unitary(f, Unit::BackReference(n), t, st, en, inc, nx, s) == unitary(
            f,
            Unit::PlainText(s.backrefs[n - 1]),
            t,
            st,
            en,
            inc,
            nx,
            s,
        ),
        unitary(f, Unit::BackReference(n), t, st, en, inc, nx, s) matches Some(r) ==> r.backrefs
            == s.backrefs && r.group_index == s.group_index,
{
    let p = s.backrefs[n - 1];
    assert(unitary((f - 1) as nat, Unit::PlainText(p), t, st, en, inc, nx, with_matched(s, true))
        == plain_step(p, t, st, en, with_matched(s, true)));
    assert(unitary(f, Unit::PlainText(p), t, st, en, inc, nx, s) == plain_step(p, t, st, en, s));
    lemma_plain_step_flag(p, t, st, en, s);
    assert(unitary(f, Unit::BackReference(n), t, st, en, inc, nx, s) == backreference(
        f,
        n,
        t,
        st,
        en,
        inc,
        nx,
        s,
    ));
}

/// Literal text decides its match apart from the flag it starts with: run
/// with the flag set, it fails or moves on just as it does from `s`.
proof fn lemma_plain_step_flag(p: Seq<u8>, t: Text, st: bool, en: bool, s: MState)
    ensures
        plain_step(p, t, st, en, s) == match plain_step(p, t, st, en, with_matched(s, true)) {
            None => None,
            Some(r) => Some(with_matched(r, if r.matched { s.matched } else { false })),
        },
        plain_step(p, t, st, en, s) matches Some(r) ==> r.backrefs == s.backrefs && r.group_index
            == s.group_index,
{
    let s1 = with_matched(s, true);
    if st {
        if p.len() <= byte_len(t) && t.bytes.subrange(0, p.len() as int) == p {
            if s.cursor + p.len() <= usize::MAX {
                assert(with_matched(bump(s1, p.len() as int)->0, s.matched) == bump(s, p.len() as int)->0);
            }
        } else {
            assert(with_matched(fail(s1), false) == fail(s));
        }
    } else if en {
        if p.len() <= byte_len(t) && t.bytes.subrange(byte_len(t) - p.len(), byte_len(t)) == p {
            if s.cursor + p.len() <= usize::MAX {
                assert(with_matched(bump(s1, p.len() as int)->0, s.matched) == bump(s, p.len() as int)->0);
            }
        } else {
            assert(with_matched(fail(s1), false) == fail(s));
        }
    } else if s.cursor + p.len() <= usize::MAX {
        if s.cursor + p.len() <= byte_len(t) {
            match slice(t, s.cursor as int, s.cursor + p.len()) {
                None => {},
                Some(x) => if x == p {
                    assert(with_matched(bump(s1, p.len() as int)->0, s.matched) == bump(s, p.len() as int)->0);
                } else {
                    assert(with_matched(fail(s1), false) == fail(s));
                },
            }
        } else {
            assert(with_matched(fail(s1), false) == fail(s));
        }
    }
}

/// A back reference at the top level of a pattern: to a recorded group it
/// does what the captured text does as literal text at the cursor, and
/// matching goes on from there; to a group beyond those of the pattern it
/// fails in place.
pub proof fn law_top_backreference(f: nat, parts: Seq<Unit>, i: int, t: Text, s: MState)
    requires
        f >= 1,
        0 <= i < parts.len(),
        parts[i] matches Unit::BackReference(n) && n >= 1,
    ensures
        ({
            let n = parts[i]->BackReference_0;
            part_step(f, parts, i, t, s) == if n - 1 < s.backrefs.len() {
                match plain_step(s.backrefs[n - 1], t, false, false, s) {
                    None => None,
                    Some(r) => Some(Flow::Next(r)),
                }
            } else {
                Some(Flow::Next(MState { matched: false, ..s }))
            }
        }),
{
    let n = parts[i]->BackReference_0;
    if n - 1 < s.backrefs.len() {
        lemma_plain_step_flag(s.backrefs[n - 1], t, false, false, s);
    }
}
} // verus!

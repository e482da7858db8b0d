//! Units with no capturing group and no back reference in them neither read
//! nor change the captures and the group index: what they do depends on the
//! match flag and the cursor alone. From this, an alternation of such units
//! is the two sides tried from the same place, the left one first.
use vstd::prelude::*;
use crate::unit::{Unit, is_neg_char_group};
use crate::semantics::{
    Text, MState, unitary, alternation, nested_repeat, nested_plus, nested_star, group_loop,
    nested_noncapturing, with_matched, lookahead_result, next_or_wildcard, byte_len, char_at,
    nested_capturing,
};

verus! {

/// A unit with no capturing group and no back reference in it.
pub open spec fn group_free(u: Unit) -> bool
    decreases u,
{
    match u {
        Unit::CapturingGroup(_) => false,
        Unit::BackReference(_) => false,
        Unit::OneOrMore(b) => group_free(*b),
        Unit::ZeroOrMore(b) => group_free(*b),
        Unit::ZeroOrOne(b) => group_free(*b),
        Unit::Alternation(a, b) => group_free(*a) && group_free(*b),
        Unit::NonCapturingGroup(ch) => all_group_free(ch),
        _ => true,
    }
}

/// Units none of which has a capturing group or a back reference in it.
pub open spec fn all_group_free(ch: Seq<Unit>) -> bool
    decreases ch,
{
    if ch.len() == 0 {
        true
    } else {
        all_group_free(ch.drop_last()) && group_free(ch.last())
    }
}

pub open spec fn opt_group_free(nx: Option<Unit>) -> bool {
    match nx {
        None => true,
        Some(u) => group_free(u),
    }
}

/// The result `o` with the captures and the group index of `s`.
pub open spec fn reframe(o: Option<MState>, s: MState) -> Option<MState> {
    match o {
        None => None,
        Some(r) => Some(MState { backrefs: s.backrefs, group_index: s.group_index, ..r }),
    }
}

pub open spec fn reframe_pair(o: Option<(bool, MState)>, s: MState) -> Option<(bool, MState)> {
    match o {
        None => None,
        Some((b, r)) => Some((b, MState { backrefs: s.backrefs, group_index: s.group_index, ..r })),
    }
}

pub open spec fn flag_of(o: Option<(bool, MState)>) -> bool {
    match o {
        Some((b, _)) => b,
        None => false,
    }
}

pub open spec fn state_of(o: Option<(bool, MState)>) -> MState {
    match o {
        Some((_, r)) => r,
        None => arbitrary(),
    }
}

/// `s1` and `s2` agree on the flag and the cursor.
pub open spec fn same_place(s1: MState, s2: MState) -> bool {
    s1.matched == s2.matched && s1.cursor == s2.cursor
}

pub proof fn lemma_all_group_free(ch: Seq<Unit>, i: int)
    requires
        all_group_free(ch),
        0 <= i < ch.len(),
    ensures
        group_free(ch[i]),
    decreases ch.len(),
{
    if i < ch.len() - 1 {
        lemma_all_group_free(ch.drop_last(), i);
    }
}

/// A unit with no group in it does, from two states at the same place, the
/// same thing, and keeps the captures and the group index it started with.
pub proof fn lemma_unitary_frame(
    f: nat,
    u: Unit,
    t: Text,
    st: bool,
    en: bool,
    inc1: bool,
    inc2: bool,
    nx: Option<Unit>,
    s1: MState,
    s2: MState,
)
    requires
        group_free(u),
        opt_group_free(nx),
        same_place(s1, s2),
    ensures
        unitary(f, u, t, st, en, inc1, nx, s1) == reframe(unitary(f, u, t, st, en, inc2, nx, s2), s1),
    decreases f, 2nat,
{
    if f > 0 {
        match u {
            Unit::OneOrMore(pu) => lemma_nested_plus_frame(f, *pu, t, st, en, inc1, inc2, nx, s1, s2),
            Unit::ZeroOrMore(pu) => lemma_nested_star_frame(f, *pu, t, st, en, inc1, inc2, nx, s1, s2),
            Unit::ZeroOrOne(pu) => lemma_unitary_frame(
                (f - 1) as nat,
                *pu,
                t,
                st,
                en,
                inc1,
                inc2,
                nx,
                with_matched(s1, true),
                with_matched(s2, true),
            ),
            Unit::Alternation(a, b) => lemma_alternation_frame(f, *a, *b, t, st, en, inc1, inc2, nx, s1, s2),
            Unit::NonCapturingGroup(ch) => lemma_nested_noncapturing_frame(f, ch, t, inc1, inc2, nx, s1, s2),
            _ => {},
        }
    }
}

pub proof fn lemma_alternation_frame(
    f: nat,
    a: Unit,
    b: Unit,
    t: Text,
    st: bool,
    en: bool,
    inc1: bool,
    inc2: bool,
    nx: Option<Unit>,
    s1: MState,
    s2: MState,
)
    requires
        group_free(a),
        group_free(b),
        opt_group_free(nx),
        same_place(s1, s2),
    ensures
        alternation(f, a, b, t, st, en, inc1, nx, s1) == reframe(
            alternation(f, a, b, t, st, en, inc2, nx, s2),
            s1,
        ),
    decreases f, 1nat,
{
    if f > 0 {
        let g = (f - 1) as nat;
        lemma_unitary_frame(g, a, t, st, en, inc1, inc2, nx, with_matched(s1, true), with_matched(s2, true));
        let o1 = unitary(g, a, t, st, en, inc1, nx, with_matched(s1, true));
        let o2 = unitary(g, a, t, st, en, inc2, nx, with_matched(s2, true));
        if o1 is Some {
            let r1 = o1->0;
            let q1 = o2->0;
            lemma_unitary_frame(
                g,
                b,
                t,
                st,
                en,
                inc1,
                inc2,
                nx,
                MState { matched: true, cursor: s1.cursor, ..r1 },
                MState { matched: true, cursor: s2.cursor, ..q1 },
            );
        }
    }
}

pub proof fn lemma_nested_repeat_frame(
    f: nat,
    pu: Unit,
    t: Text,
    st: bool,
    en: bool,
    nx: Option<Unit>,
    lookahead: bool,
    m: bool,
    r1: MState,
    r2: MState,
)
    requires
        group_free(pu),
        opt_group_free(nx),
        same_place(r1, r2),
    ensures
        nested_repeat(f, pu, t, st, en, nx, lookahead, m, r1) == reframe(
            nested_repeat(f, pu, t, st, en, nx, lookahead, m, r2),
            r1,
        ),
    decreases f, 0nat,
{
    if r1.matched && f > 0 {
        let g = (f - 1) as nat;
        let w = next_or_wildcard(nx);
        assert(group_free(w));
        lemma_unitary_frame(g, w, t, false, false, false, false, nx, with_matched(r1, true), with_matched(r2, true));
        let la1 = if lookahead && is_neg_char_group(pu) {
            lookahead_result(nx, r1, unitary(g, w, t, false, false, false, nx, with_matched(r1, true)))
        } else {
            Some((false, r1))
        };
        let la2 = if lookahead && is_neg_char_group(pu) {
            lookahead_result(nx, r2, unitary(g, w, t, false, false, false, nx, with_matched(r2, true)))
        } else {
            Some((false, r2))
        };
        assert(la1 == reframe_pair(la2, r1));
        if la1 is Some && !flag_of(la1) {
            let x1 = state_of(la1);
            let x2 = state_of(la2);
            lemma_unitary_frame(g, pu, t, st, en, false, false, nx, x1, x2);
            let o1 = unitary(g, pu, t, st, en, false, nx, x1);
            let o2 = unitary(g, pu, t, st, en, false, nx, x2);
            if o1 is Some {
                lemma_nested_repeat_frame(g, pu, t, st, en, nx, lookahead, m, o1->0, o2->0);
            }
        }
    }
}

pub proof fn lemma_nested_plus_frame(
    f: nat,
    pu: Unit,
    t: Text,
    st: bool,
    en: bool,
    inc1: bool,
    inc2: bool,
    nx: Option<Unit>,
    s1: MState,
    s2: MState,
)
    requires
        group_free(pu),
        opt_group_free(nx),
        same_place(s1, s2),
    ensures
        nested_plus(f, pu, t, st, en, inc1, nx, s1) == reframe(
            nested_plus(f, pu, t, st, en, inc2, nx, s2),
            s1,
        ),
    decreases f, 1nat,
{
    if f > 0 {
        let g = (f - 1) as nat;
        lemma_unitary_frame(g, pu, t, st, en, inc1, inc2, nx, with_matched(s1, true), with_matched(s2, true));
        let o1 = unitary(g, pu, t, st, en, inc1, nx, with_matched(s1, true));
        let o2 = unitary(g, pu, t, st, en, inc2, nx, with_matched(s2, true));
        if o1 is Some && byte_len(t) != 0 && o1->0.cursor <= byte_len(t) - 1 {
            let r = o1->0;
            let q = o2->0;
            let m1 = if is_neg_char_group(pu) && r.cursor + 1 > byte_len(t) - 1 {
                r.matched
            } else {
                s1.matched
            };
            let m2 = if !r.matched {
                false
            } else {
                m1
            };
            let w = next_or_wildcard(nx);
            assert(group_free(w));
            if is_neg_char_group(pu) {
                lemma_unitary_frame(g, w, t, false, false, false, false, nx, with_matched(r, true), with_matched(q, true));
                let la1 = lookahead_result(nx, r, unitary(g, w, t, false, false, false, nx, with_matched(r, true)));
                let la2 = lookahead_result(nx, q, unitary(g, w, t, false, false, false, nx, with_matched(q, true)));
                assert(la1 == reframe_pair(la2, r));
                if la1 is Some && !flag_of(la1) {
                    lemma_nested_repeat_frame(g, pu, t, st, en, nx, true, m2, state_of(la1), state_of(la2));
                }
            } else {
                lemma_nested_repeat_frame(g, pu, t, st, en, nx, true, m2, r, q);
            }
        }
    }
}

pub proof fn lemma_nested_star_frame(
    f: nat,
    pu: Unit,
    t: Text,
    st: bool,
    en: bool,
    inc1: bool,
    inc2: bool,
    nx: Option<Unit>,
    s1: MState,
    s2: MState,
)
    requires
        group_free(pu),
        opt_group_free(nx),
        same_place(s1, s2),
    ensures
        nested_star(f, pu, t, st, en, inc1, nx, s1) == reframe(
            nested_star(f, pu, t, st, en, inc2, nx, s2),
            s1,
        ),
    decreases f, 1nat,
{
    if f > 0 {
        let g = (f - 1) as nat;
        lemma_unitary_frame(g, pu, t, st, en, inc1, inc2, nx, with_matched(s1, true), with_matched(s2, true));
        let o1 = unitary(g, pu, t, st, en, inc1, nx, with_matched(s1, true));
        let o2 = unitary(g, pu, t, st, en, inc2, nx, with_matched(s2, true));
        if o1 is Some && byte_len(t) != 0 && o1->0.cursor <= byte_len(t) - 1 {
            let r = o1->0;
            let m1 = if is_neg_char_group(pu) && r.cursor + 1 > byte_len(t) - 1 {
                r.matched
            } else {
                s1.matched
            };
            lemma_nested_repeat_frame(g, pu, t, st, en, nx, false, m1, r, o2->0);
        }
    }
}

pub proof fn lemma_group_loop_frame(
    f: nat,
    ch: Seq<Unit>,
    i: nat,
    t: Text,
    inc1: bool,
    inc2: bool,
    nx: Option<Unit>,
    capturing: bool,
    lm: bool,
    s1: MState,
    s2: MState,
)
    requires
        all_group_free(ch),
        opt_group_free(nx),
        same_place(s1, s2),
    ensures
        group_loop(f, ch, i, t, inc1, nx, capturing, lm, s1) == reframe_pair(
            group_loop(f, ch, i, t, inc2, nx, capturing, lm, s2),
            s1,
        ),
    decreases f, 0nat,
{
    if i < ch.len() && f > 0 && !(capturing && !(s1.cursor < byte_len(t))) {
        let g = (f - 1) as nat;
        let lnext = if i + 1 <= ch.len() - 1 {
            Some(ch[i + 1 as int])
        } else {
            nx
        };
        lemma_all_group_free(ch, i as int);
        if i + 1 <= ch.len() - 1 {
            lemma_all_group_free(ch, i + 1int);
        }
        lemma_unitary_frame(
            g,
            ch[i as int],
            t,
            false,
            false,
            inc1,
            inc2,
            lnext,
            with_matched(s1, true),
            with_matched(s2, true),
        );
        let o1 = unitary(g, ch[i as int], t, false, false, inc1, lnext, with_matched(s1, true));
        let o2 = unitary(g, ch[i as int], t, false, false, inc2, lnext, with_matched(s2, true));
        if o1 is Some && o1->0.matched {
            lemma_group_loop_frame(
                g,
                ch,
                i + 1,
                t,
                inc1,
                inc2,
                nx,
                capturing,
                true,
                with_matched(o1->0, s1.matched),
                with_matched(o2->0, s2.matched),
            );
        }
    }
}

pub proof fn lemma_nested_noncapturing_frame(
    f: nat,
    ch: Seq<Unit>,
    t: Text,
    inc1: bool,
    inc2: bool,
    nx: Option<Unit>,
    s1: MState,
    s2: MState,
)
    requires
        all_group_free(ch),
        opt_group_free(nx),
        same_place(s1, s2),
    ensures
        nested_noncapturing(f, ch, t, inc1, nx, s1) == reframe(
            nested_noncapturing(f, ch, t, inc2, nx, s2),
            s1,
        ),
    decreases f, 1nat,
{
    if f > 0 && s1.cursor < byte_len(t) && char_at(t, s1.cursor) is Some {
        lemma_group_loop_frame((f - 1) as nat, ch, 0, t, inc1, inc2, nx, false, true, s1, s2);
    }
}

/// An alternation of two units with no group in them (followed by such a
/// unit, if any) tries both sides from the same place: it matches when
/// either does, moves the cursor as the left side does when that one
/// matches, else as the right side does, and keeps the captures and the
/// group index.
pub proof fn law_alternation_either(
    f: nat,
    a: Unit,
    b: Unit,
    t: Text,
    st: bool,
    en: bool,
    inc: bool,
    nx: Option<Unit>,
    s: MState,
)
    requires
        f >= 1,
        group_free(a),
        group_free(b),
        opt_group_free(nx),
    ensures
        unitary(f, Unit::Alternation(Box::new(a), Box::new(b)), t, st, en, inc, nx, s) == match (
            unitary((f - 1) as nat, a, t, st, en, inc, nx, with_matched(s, true)),
            unitary((f - 1) as nat, b, t, st, en, inc, nx, with_matched(s, true)),
        ) {
            (Some(x), Some(y)) => Some(
                MState {
                    matched: x.matched || y.matched,
                    cursor: if x.matched {
                        x.cursor
                    } else if y.matched {
                        y.cursor
                    } else {
                        s.cursor
                    },
                    ..s
                },
            ),
            _ => None,
        },
{
    let g = (f - 1) as nat;
    let s0 = with_matched(s, true);
    lemma_unitary_frame(g, a, t, st, en, inc, inc, nx, s0, s0);
    let o1 = unitary(g, a, t, st, en, inc, nx, s0);
    if o1 is Some {
        let r1 = o1->0;
        let s3 = MState { matched: true, cursor: s.cursor, ..r1 };
        lemma_unitary_frame(g, b, t, st, en, inc, inc, nx, s3, s0);
    }
    assert(unitary(f, Unit::Alternation(Box::new(a), Box::new(b)), t, st, en, inc, nx, s)
        == alternation(f, a, b, t, st, en, inc, nx, s));
}


/// A capturing group whose children have no group in them ends with the
/// group index it gave itself: one more than before when it counts as a new
/// group, the same otherwise.
proof fn lemma_capture_index(
    f: nat,
    ch: Seq<Unit>,
    t: Text,
    st: bool,
    en: bool,
    inc: bool,
    nx: Option<Unit>,
    s: MState,
)
    requires
        all_group_free(ch),
        opt_group_free(nx),
    ensures
        unitary(f, Unit::CapturingGroup(ch), t, st, en, inc, nx, s) matches Some(r) ==> r.group_index
            == if inc {
            s.group_index + 1
        } else {
            s.group_index as int
        },
{
    if f > 0 && !(inc && s.group_index + 1 > usize::MAX) {
        let gi: usize = if inc {
            (s.group_index + 1) as usize
        } else {
            s.group_index
        };
        let s1 = MState { group_index: gi, ..s };
        lemma_group_loop_frame((f - 1) as nat, ch, 0, t, inc, inc, nx, true, true, s1, s1);
        assert(unitary(f, Unit::CapturingGroup(ch), t, st, en, inc, nx, s) == nested_capturing(
            f,
            ch,
            t,
            inc,
            nx,
            s,
        ));
    }
}

/// Repeating a capturing group (with no group inside) keeps the group index:
/// every repetition records under the same index.
proof fn lemma_repeat_keeps_index(
    f: nat,
    ch: Seq<Unit>,
    t: Text,
    st: bool,
    en: bool,
    nx: Option<Unit>,
    lookahead: bool,
    m: bool,
    r: MState,
)
    requires
        all_group_free(ch),
        opt_group_free(nx),
    ensures
        nested_repeat(f, Unit::CapturingGroup(ch), t, st, en, nx, lookahead, m, r) matches Some(x)
            ==> x.group_index == r.group_index,
    decreases f,
{
    let pu = Unit::CapturingGroup(ch);
    if r.matched && f > 0 {
        let g = (f - 1) as nat;
        lemma_capture_index(g, ch, t, st, en, false, nx, r);
        let o = unitary(g, pu, t, st, en, false, nx, r);
        if o is Some {
            lemma_repeat_keeps_index(g, ch, t, st, en, nx, lookahead, m, o->0);
        }
    }
}

/// A capturing group repeated by `+` (with no group inside it or after it)
/// takes one group index, as it would if it stood alone: the repetitions
/// record under the index of the first, and do not count as new groups.
pub proof fn law_repeated_group_one_index(
    f: nat,
    ch: Seq<Unit>,
    t: Text,
    st: bool,
    en: bool,
    inc: bool,
    nx: Option<Unit>,
    s: MState,
)
    requires
        all_group_free(ch),
        opt_group_free(nx),
    ensures
        unitary(f, Unit::OneOrMore(Box::new(Unit::CapturingGroup(ch))), t, st, en, inc, nx, s) matches Some(
            r,
        ) ==> r.group_index == if inc {
            s.group_index + 1
        } else {
            s.group_index as int
        },
{
    let pu = Unit::CapturingGroup(ch);
    if f > 0 {
        let g = (f - 1) as nat;
        lemma_capture_index(g, ch, t, st, en, inc, nx, with_matched(s, true));
        let o = unitary(g, pu, t, st, en, inc, nx, with_matched(s, true));
        if o is Some {
            let r = o->0;
            let m1 = if is_neg_char_group(pu) && r.cursor + 1 > byte_len(t) - 1 {
                r.matched
            } else {
                s.matched
            };
            let m2 = if !r.matched {
                false
            } else {
                m1
            };
            lemma_repeat_keeps_index(g, ch, t, st, en, nx, true, m2, r);
        }
        assert(unitary(f, Unit::OneOrMore(Box::new(pu)), t, st, en, inc, nx, s) == nested_plus(
            f,
            pu,
            t,
            st,
            en,
            inc,
            nx,
            s,
        ));
    }
}
} // verus!

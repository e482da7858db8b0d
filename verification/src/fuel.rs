//! More fuel never changes a result: once matching finishes with some fuel,
//! it finishes with the same result with any larger fuel. So the result of
//! matching does not depend on which finishing fuel is taken.
use vstd::prelude::*;
use crate::unit::{Unit, is_neg_char_group};
use crate::semantics::{
    Text, MState, unitary, alternation, backreference, nested_repeat, nested_plus, nested_star,
    group_loop, nested_capturing, nested_noncapturing, with_matched, lookahead_result,
    next_or_wildcard, byte_len, top_lookahead, top_repeat, top_plus, top_star, part_step,
    parts_loop, attempt, search, Compiled, Flow,
};

verus! {

pub proof fn lemma_unitary_fuel(
    f: nat,
    g: nat,
    u: Unit,
    t: Text,
    st: bool,
    en: bool,
    inc: bool,
    nx: Option<Unit>,
    s: MState,
)
    requires
        f <= g,
        unitary(f, u, t, st, en, inc, nx, s) is Some,
    ensures
        unitary(g, u, t, st, en, inc, nx, s) == unitary(f, u, t, st, en, inc, nx, s),
    decreases f, 2nat,
{
    match u {
        Unit::OneOrMore(pu) => lemma_nested_plus_fuel(f, g, *pu, t, st, en, inc, nx, s),
        Unit::ZeroOrMore(pu) => lemma_nested_star_fuel(f, g, *pu, t, st, en, inc, nx, s),
        Unit::ZeroOrOne(pu) => lemma_unitary_fuel(
            (f - 1) as nat,
            (g - 1) as nat,
            *pu,
            t,
            st,
            en,
            inc,
            nx,
            with_matched(s, true),
        ),
        Unit::Alternation(a, b) => lemma_alternation_fuel(f, g, *a, *b, t, st, en, inc, nx, s),
        Unit::CapturingGroup(ch) => lemma_nested_capturing_fuel(f, g, ch, t, inc, nx, s),
        Unit::NonCapturingGroup(ch) => lemma_nested_noncapturing_fuel(f, g, ch, t, inc, nx, s),
        Unit::BackReference(n) => lemma_backreference_fuel(f, g, n, t, st, en, inc, nx, s),
        _ => {},
    }
}

pub proof fn lemma_alternation_fuel(
    f: nat,
    g: nat,
    a: Unit,
    b: Unit,
    t: Text,
    st: bool,
    en: bool,
    inc: bool,
    nx: Option<Unit>,
    s: MState,
)
    requires
        f <= g,
        alternation(f, a, b, t, st, en, inc, nx, s) is Some,
    ensures
        alternation(g, a, b, t, st, en, inc, nx, s) == alternation(f, a, b, t, st, en, inc, nx, s),
    decreases f, 1nat,
{
    let f1 = (f - 1) as nat;
    let g1 = (g - 1) as nat;
    lemma_unitary_fuel(f1, g1, a, t, st, en, inc, nx, with_matched(s, true));
    let r1 = unitary(f1, a, t, st, en, inc, nx, with_matched(s, true))->0;
    lemma_unitary_fuel(
        f1,
        g1,
        b,
        t,
        st,
        en,
        inc,
        nx,
        MState { matched: true, cursor: s.cursor, ..r1 },
    );
}

pub proof fn lemma_backreference_fuel(
    f: nat,
    g: nat,
    n: u16,
    t: Text,
    st: bool,
    en: bool,
    inc: bool,
    nx: Option<Unit>,
    s: MState,
)
    requires
        f <= g,
        backreference(f, n, t, st, en, inc, nx, s) is Some,
    ensures
        backreference(g, n, t, st, en, inc, nx, s) == backreference(f, n, t, st, en, inc, nx, s),
    decreases f, 1nat,
{
    lemma_unitary_fuel(
        (f - 1) as nat,
        (g - 1) as nat,
        Unit::PlainText(s.backrefs[n - 1]),
        t,
        st,
        en,
        inc,
        nx,
        with_matched(s, true),
    );
}

pub proof fn lemma_nested_repeat_fuel(
    f: nat,
    g: nat,
    pu: Unit,
    t: Text,
    st: bool,
    en: bool,
    nx: Option<Unit>,
    lookahead: bool,
    m: bool,
    r: MState,
)
    requires
        f <= g,
        nested_repeat(f, pu, t, st, en, nx, lookahead, m, r) is Some,
    ensures
        nested_repeat(g, pu, t, st, en, nx, lookahead, m, r) == nested_repeat(
            f,
            pu,
            t,
            st,
            en,
            nx,
            lookahead,
            m,
            r,
        ),
    decreases f, 0nat,
{
    if r.matched {
        let f1 = (f - 1) as nat;
        let g1 = (g - 1) as nat;
        if lookahead && is_neg_char_group(pu) {
            lemma_unitary_fuel(f1, g1, next_or_wildcard(nx), t, false, false, false, nx, with_matched(r, true));
        }
        let la: (bool, MState) = if lookahead && is_neg_char_group(pu) {
            lookahead_result(
                nx,
                r,
                unitary(f1, next_or_wildcard(nx), t, false, false, false, nx, with_matched(r, true)),
            )->0
        } else {
            (false, r)
        };
        let mt = la.0;
        let r1 = la.1;
        if !mt {
            lemma_unitary_fuel(f1, g1, pu, t, st, en, false, nx, r1);
            let r2 = unitary(f1, pu, t, st, en, false, nx, r1)->0;
            if byte_len(t) != 0 && !(r2.cursor > byte_len(t) - 1) && !(is_neg_char_group(pu)
                && r2.cursor + 1 > byte_len(t) - 1) {
                lemma_nested_repeat_fuel(f1, g1, pu, t, st, en, nx, lookahead, m, r2);
            }
        }
    }
}

pub proof fn lemma_nested_plus_fuel(
    f: nat,
    g: nat,
    pu: Unit,
    t: Text,
    st: bool,
    en: bool,
    inc: bool,
    nx: Option<Unit>,
    s: MState,
)
    requires
        f <= g,
        nested_plus(f, pu, t, st, en, inc, nx, s) is Some,
    ensures
        nested_plus(g, pu, t, st, en, inc, nx, s) == nested_plus(f, pu, t, st, en, inc, nx, s),
    decreases f, 1nat,
{
    let f1 = (f - 1) as nat;
    let g1 = (g - 1) as nat;
    lemma_unitary_fuel(f1, g1, pu, t, st, en, inc, nx, with_matched(s, true));
    let r = unitary(f1, pu, t, st, en, inc, nx, with_matched(s, true))->0;
    if byte_len(t) != 0 && r.cursor <= byte_len(t) - 1 {
        let m1 = if is_neg_char_group(pu) && r.cursor + 1 > byte_len(t) - 1 {
            r.matched
        } else {
            s.matched
        };
        let m2 = if !r.matched {
            false
        } else {
            m1
        };
        if is_neg_char_group(pu) {
            lemma_unitary_fuel(f1, g1, next_or_wildcard(nx), t, false, false, false, nx, with_matched(r, true));
            let la = lookahead_result(
                nx,
                r,
                unitary(f1, next_or_wildcard(nx), t, false, false, false, nx, with_matched(r, true)),
            )->0;
            if !la.0 {
                lemma_nested_repeat_fuel(f1, g1, pu, t, st, en, nx, true, m2, la.1);
            }
        } else {
            lemma_nested_repeat_fuel(f1, g1, pu, t, st, en, nx, true, m2, r);
        }
    }
}

pub proof fn lemma_nested_star_fuel(
    f: nat,
    g: nat,
    pu: Unit,
    t: Text,
    st: bool,
    en: bool,
    inc: bool,
    nx: Option<Unit>,
    s: MState,
)
    requires
        f <= g,
        nested_star(f, pu, t, st, en, inc, nx, s) is Some,
    ensures
        nested_star(g, pu, t, st, en, inc, nx, s) == nested_star(f, pu, t, st, en, inc, nx, s),
    decreases f, 1nat,
{
    let f1 = (f - 1) as nat;
    let g1 = (g - 1) as nat;
    lemma_unitary_fuel(f1, g1, pu, t, st, en, inc, nx, with_matched(s, true));
    let r = unitary(f1, pu, t, st, en, inc, nx, with_matched(s, true))->0;
    if byte_len(t) != 0 && r.cursor <= byte_len(t) - 1 {
        let m1 = if is_neg_char_group(pu) && r.cursor + 1 > byte_len(t) - 1 {
            r.matched
        } else {
            s.matched
        };
        lemma_nested_repeat_fuel(f1, g1, pu, t, st, en, nx, false, m1, r);
    }
}

pub proof fn lemma_group_loop_fuel(
    f: nat,
    g: nat,
    ch: Seq<Unit>,
    i: nat,
    t: Text,
    inc: bool,
    nx: Option<Unit>,
    capturing: bool,
    lm: bool,
    s: MState,
)
    requires
        f <= g,
        group_loop(f, ch, i, t, inc, nx, capturing, lm, s) is Some,
    ensures
        group_loop(g, ch, i, t, inc, nx, capturing, lm, s) == group_loop(
            f,
            ch,
            i,
            t,
            inc,
            nx,
            capturing,
            lm,
            s,
        ),
    decreases f, 0nat,
{
    if i < ch.len() && !(capturing && !(s.cursor < byte_len(t))) {
        let f1 = (f - 1) as nat;
        let g1 = (g - 1) as nat;
        let lnext = if i + 1 <= ch.len() - 1 {
            Some(ch[i + 1 as int])
        } else {
            nx
        };
        lemma_unitary_fuel(f1, g1, ch[i as int], t, false, false, inc, lnext, with_matched(s, true));
        let r = unitary(f1, ch[i as int], t, false, false, inc, lnext, with_matched(s, true))->0;
        if r.matched {
            lemma_group_loop_fuel(
                f1,
                g1,
                ch,
                i + 1,
                t,
                inc,
                nx,
                capturing,
                true,
                with_matched(r, s.matched),
            );
        }
    }
}

pub proof fn lemma_nested_capturing_fuel(
    f: nat,
    g: nat,
    ch: Seq<Unit>,
    t: Text,
    inc: bool,
    nx: Option<Unit>,
    s: MState,
)
    requires
        f <= g,
        nested_capturing(f, ch, t, inc, nx, s) is Some,
    ensures
        nested_capturing(g, ch, t, inc, nx, s) == nested_capturing(f, ch, t, inc, nx, s),
    decreases f, 1nat,
{
    let gi: usize = if inc {
        (s.group_index + 1) as usize
    } else {
        s.group_index
    };
    if s.cursor < byte_len(t) {
        lemma_group_loop_fuel(
            (f - 1) as nat,
            (g - 1) as nat,
            ch,
            0,
            t,
            inc,
            nx,
            true,
            true,
            MState { group_index: gi, ..s },
        );
    }
}

pub proof fn lemma_nested_noncapturing_fuel(
    f: nat,
    g: nat,
    ch: Seq<Unit>,
    t: Text,
    inc: bool,
    nx: Option<Unit>,
    s: MState,
)
    requires
        f <= g,
        nested_noncapturing(f, ch, t, inc, nx, s) is Some,
    ensures
        nested_noncapturing(g, ch, t, inc, nx, s) == nested_noncapturing(f, ch, t, inc, nx, s),
    decreases f, 1nat,
{
    if s.cursor < byte_len(t) {
        lemma_group_loop_fuel((f - 1) as nat, (g - 1) as nat, ch, 0, t, inc, nx, false, true, s);
    }
}

pub proof fn lemma_top_lookahead_fuel(
    f: nat,
    g: nat,
    pu: Unit,
    parts: Seq<Unit>,
    i: int,
    t: Text,
    nx: Option<Unit>,
    r: MState,
)
    requires
        f <= g,
        top_lookahead(f, pu, parts, i, t, nx, r) is Some,
    ensures
        top_lookahead(g, pu, parts, i, t, nx, r) == top_lookahead(f, pu, parts, i, t, nx, r),
{
    if crate::unit::is_wildcard(pu) && i + 1 <= parts.len() - 1 {
        lemma_unitary_fuel(f, g, parts[i + 1], t, false, false, false, nx, with_matched(r, true));
    }
}

pub proof fn lemma_top_repeat_fuel(
    f: nat,
    g: nat,
    pu: Unit,
    parts: Seq<Unit>,
    i: int,
    t: Text,
    nx: Option<Unit>,
    m: bool,
    r: MState,
)
    requires
        f <= g,
        top_repeat(f, pu, parts, i, t, nx, m, r) is Some,
    ensures
        top_repeat(g, pu, parts, i, t, nx, m, r) == top_repeat(f, pu, parts, i, t, nx, m, r),
    decreases f,
{
    if r.matched {
        lemma_top_lookahead_fuel(f, g, pu, parts, i, t, nx, r);
        let la = top_lookahead(f, pu, parts, i, t, nx, r)->0;
        if !la.0 && byte_len(t) != 0 && !(la.1.cursor > byte_len(t) - 1) {
            lemma_unitary_fuel(f, g, pu, t, false, false, false, nx, la.1);
            let r2 = unitary(f, pu, t, false, false, false, nx, la.1)->0;
            if !(r2.cursor > byte_len(t) - 1) && !(is_neg_char_group(pu) && r2.cursor + 1
                > byte_len(t) - 1) {
                lemma_top_repeat_fuel((f - 1) as nat, (g - 1) as nat, pu, parts, i, t, nx, m, r2);
            }
        }
    }
}

pub proof fn lemma_top_plus_fuel(
    f: nat,
    g: nat,
    pu: Unit,
    parts: Seq<Unit>,
    i: int,
    t: Text,
    nx: Option<Unit>,
    s: MState,
)
    requires
        f <= g,
        top_plus(f, pu, parts, i, t, nx, s) is Some,
    ensures
        top_plus(g, pu, parts, i, t, nx, s) == top_plus(f, pu, parts, i, t, nx, s),
{
    lemma_unitary_fuel(f, g, pu, t, false, false, true, nx, with_matched(s, true));
    let r = unitary(f, pu, t, false, false, true, nx, with_matched(s, true))->0;
    if byte_len(t) != 0 && r.cursor <= byte_len(t) - 1 && !(is_neg_char_group(pu) && r.cursor
        + 1 > byte_len(t) - 1) && r.matched {
        lemma_top_lookahead_fuel(f, g, pu, parts, i, t, nx, r);
        let la = top_lookahead(f, pu, parts, i, t, nx, r)->0;
        if !la.0 {
            lemma_top_repeat_fuel(f, g, pu, parts, i, t, nx, s.matched, la.1);
        }
    }
}

pub proof fn lemma_top_star_fuel(
    f: nat,
    g: nat,
    pu: Unit,
    parts: Seq<Unit>,
    i: int,
    t: Text,
    nx: Option<Unit>,
    s: MState,
)
    requires
        f <= g,
        top_star(f, pu, parts, i, t, nx, s) is Some,
    ensures
        top_star(g, pu, parts, i, t, nx, s) == top_star(f, pu, parts, i, t, nx, s),
{
    lemma_top_lookahead_fuel(f, g, pu, parts, i, t, nx, with_matched(s, true));
    let la = top_lookahead(f, pu, parts, i, t, nx, with_matched(s, true))->0;
    if !la.0 {
        lemma_unitary_fuel(f, g, pu, t, false, false, true, nx, la.1);
        let r = unitary(f, pu, t, false, false, true, nx, la.1)->0;
        if byte_len(t) != 0 && r.cursor <= byte_len(t) - 1 && !(is_neg_char_group(pu) && r.cursor
            + 1 > byte_len(t) - 1) {
            lemma_top_repeat_fuel(f, g, pu, parts, i, t, nx, s.matched, r);
        }
    }
}

pub proof fn lemma_part_step_fuel(f: nat, g: nat, parts: Seq<Unit>, i: int, t: Text, s: MState)
    requires
        f <= g,
        part_step(f, parts, i, t, s) is Some,
    ensures
        part_step(g, parts, i, t, s) == part_step(f, parts, i, t, s),
{
    let nx = if i + 1 <= parts.len() - 1 {
        Some(parts[i + 1])
    } else {
        None
    };
    let u = parts[i];
    if !crate::semantics::is_class(u) {
        match u {
            Unit::OneOrMore(pu) => lemma_top_plus_fuel(f, g, *pu, parts, i, t, nx, s),
            Unit::ZeroOrMore(pu) => lemma_top_star_fuel(f, g, *pu, parts, i, t, nx, s),
            Unit::ZeroOrOne(pu) => lemma_unitary_fuel(f, g, *pu, t, false, false, true, nx, with_matched(s, true)),
            Unit::Alternation(a, b) => lemma_alternation_fuel(f + 1, g + 1, *a, *b, t, false, false, true, nx, s),
            Unit::CapturingGroup(ch) => {
                let gi = (s.group_index + 1) as usize;
                lemma_group_loop_fuel(f, g, ch, 0, t, true, nx, true, true, MState { group_index: gi, ..s });
            },
            Unit::NonCapturingGroup(ch) => lemma_group_loop_fuel(f, g, ch, 0, t, true, nx, false, true, s),
            Unit::BackReference(n) => if n != 0 && n - 1 < s.backrefs.len() {
                lemma_unitary_fuel(
                    f,
                    g,
                    Unit::PlainText(s.backrefs[n - 1]),
                    t,
                    false,
                    false,
                    true,
                    nx,
                    with_matched(s, true),
                );
            },
            _ => {},
        }
    }
}

pub proof fn lemma_parts_loop_fuel(f: nat, g: nat, parts: Seq<Unit>, i: int, t: Text, s: MState)
    requires
        f <= g,
        parts_loop(f, parts, i, t, s) is Some,
    ensures
        parts_loop(g, parts, i, t, s) == parts_loop(f, parts, i, t, s),
    decreases parts.len() - i,
{
    if 0 <= i < parts.len() && s.cursor < byte_len(t) {
        lemma_part_step_fuel(f, g, parts, i, t, s);
        match part_step(f, parts, i, t, s)->0 {
            Flow::Next(r) => lemma_parts_loop_fuel(f, g, parts, i + 1, t, r),
            Flow::Stop(_) => {},
        }
    }
}

pub proof fn lemma_attempt_fuel(f: nat, g: nat, cp: Compiled, t: Text, j: usize)
    requires
        f <= g,
        attempt(f, cp, t, j) is Some,
    ensures
        attempt(g, cp, t, j) == attempt(f, cp, t, j),
{
    let s0 = MState {
        matched: true,
        cursor: j,
        backrefs: Seq::new(cp.groups, |k: int| Seq::<u8>::empty()),
        group_index: 0,
    };
    if !(j > 0 && cp.start is Some) {
        match cp.start {
            Some(su) => lemma_unitary_fuel(f, g, su, t, true, false, true, None, s0),
            None => {},
        }
        let s1 = match cp.start {
            Some(su) => unitary(f, su, t, true, false, true, None, s0),
            None => Some(s0),
        }->0;
        if s1.matched {
            lemma_parts_loop_fuel(f, g, cp.parts, 0, t, s1);
            let s2 = parts_loop(f, cp.parts, 0, t, s1)->0;
            match cp.end {
                None => {},
                Some(eu) => {
                    let s3 = if cp.parts.len() == 0 {
                        match crate::semantics::last_spacing(eu) {
                            None => None,
                            Some(sp) => if byte_len(t) - sp < 0 {
                                None
                            } else {
                                Some(MState { cursor: (byte_len(t) - sp) as usize, ..s2 })
                            },
                        }
                    } else {
                        Some(s2)
                    };
                    if s3->0.matched {
                        lemma_unitary_fuel(f, g, eu, t, false, true, true, None, s3->0);
                    }
                },
            }
        }
    }
}

pub proof fn lemma_search_fuel(f: nat, g: nat, cp: Compiled, t: Text, j: int, m: bool)
    requires
        f <= g,
        search(f, cp, t, j, m) is Some,
    ensures
        search(g, cp, t, j, m) == search(f, cp, t, j, m),
    decreases byte_len(t) - j,
{
    if 0 <= j < byte_len(t) && j <= usize::MAX {
        lemma_attempt_fuel(f, g, cp, t, j as usize);
        let a = attempt(f, cp, t, j as usize)->0;
        if !a.0 {
            lemma_search_fuel(f, g, cp, t, j + 1, a.1);
        }
    }
}

} // verus!

//! The meaning of matching: how each unit moves the cursor over the input,
//! records group captures and decides the match, and how the compiled units
//! are tried at each start position. Any step on which matching stops with a
//! failure of the run itself (an index past the end, an arithmetic overflow,
//! a cut inside a character) gives `None`; a run that would go on forever
//! runs out of `fuel` and gives `None` too.
use vstd::prelude::*;
use vstd::utf8::is_char_boundary;
use vstd::string::StringSliceAdditionalSpecFns;
use crate::unit::{Unit, is_neg_char_group, is_wildcard};

verus! {

/// An input line: its UTF-8 bytes and its characters. Positions in the input
/// count bytes; the character at a position is read by counting characters.
pub struct Text {
    pub bytes: Seq<u8>,
    pub chars: Seq<char>,
}

pub open spec fn text_of(s: &str) -> Text {
    Text { bytes: s.spec_bytes(), chars: s@ }
}

pub open spec fn byte_len(t: Text) -> int {
    t.bytes.len() as int
}

/// The state that matching threads through: whether it matches so far, the
/// cursor, the captured texts (as bytes) and the index of the last group
/// entered.
pub struct MState {
    pub matched: bool,
    pub cursor: usize,
    pub backrefs: Seq<Seq<u8>>,
    pub group_index: usize,
}

pub open spec fn char_at(t: Text, i: usize) -> Option<char> {
    if i < t.chars.len() {
        Some(t.chars[i as int])
    } else {
        None
    }
}

pub open spec fn is_digit(c: char) -> bool {
    '0' <= c && c <= '9'
}

pub open spec fn is_word_char(c: char) -> bool {
    is_digit(c) || ('a' <= c && c <= 'z') || ('A' <= c && c <= 'Z') || c == '_'
}

/// The units that test one character.
pub open spec fn is_class(u: Unit) -> bool {
    u is Digit || u is AlphaNumeric || u is CharGroup || u is NegCharGroup
}

pub open spec fn class_accepts(u: Unit, c: char) -> bool {
    match u {
        Unit::Digit => is_digit(c),
        Unit::AlphaNumeric => is_word_char(c),
        Unit::CharGroup(g) => g.contains(c),
        Unit::NegCharGroup(g) => !g.contains(c),
        _ => false,
    }
}

pub open spec fn fail(s: MState) -> MState {
    MState { matched: false, ..s }
}

pub open spec fn with_matched(s: MState, m: bool) -> MState {
    MState { matched: m, ..s }
}

/// Moves the cursor `n` bytes on.
pub open spec fn bump(s: MState, n: int) -> Option<MState> {
    if s.cursor + n > usize::MAX {
        None
    } else {
        Some(MState { cursor: (s.cursor + n) as usize, ..s })
    }
}

/// The bytes from `a` to `b`, which must be in order and cut between
/// characters.
pub open spec fn slice(t: Text, a: int, b: int) -> Option<Seq<u8>> {
    if 0 <= a <= b <= byte_len(t) && is_char_boundary(t.bytes, a) && is_char_boundary(t.bytes, b) {
        Some(t.bytes.subrange(a, b))
    } else {
        None
    }
}

/// A one-character unit at the cursor.
pub open spec fn class_step(u: Unit, t: Text, s: MState) -> Option<MState> {
    match char_at(t, s.cursor) {
        None => None,
        Some(c) => if class_accepts(u, c) {
            bump(s, 1)
        } else {
            Some(fail(s))
        },
    }
}

/// Literal text: at the start of a line-anchored pattern it must begin the
/// input, at the end it must end it, elsewhere it must stand at the cursor.
pub open spec fn plain_step(p: Seq<u8>, t: Text, st: bool, en: bool, s: MState) -> Option<MState> {
    if st {
        if p.len() <= byte_len(t) && t.bytes.subrange(0, p.len() as int) == p {
            bump(s, p.len() as int)
        } else {
            Some(fail(s))
        }
    } else if en {
        if p.len() <= byte_len(t) && t.bytes.subrange(byte_len(t) - p.len(), byte_len(t)) == p {
            bump(s, p.len() as int)
        } else {
            Some(fail(s))
        }
    } else if s.cursor + p.len() > usize::MAX {
        None
    } else if s.cursor + p.len() <= byte_len(t) {
        match slice(t, s.cursor as int, s.cursor + p.len()) {
            None => None,
            Some(x) => if x == p {
                bump(s, p.len() as int)
            } else {
                Some(fail(s))
            },
        }
    } else {
        Some(fail(s))
    }
}

/// Records the text from `start` to the cursor as capture number `this`.
pub open spec fn store_backref(t: Text, s: MState, this: usize, start: usize) -> Option<MState> {
    if this == 0 || this - 1 >= s.backrefs.len() {
        None
    } else {
        match slice(t, start as int, s.cursor as int) {
            None => None,
            Some(x) => Some(MState { backrefs: s.backrefs.update(this - 1, x), ..s }),
        }
    }
}

/// Matches one unit at the cursor. `st` and `en` say that the unit is the
/// first unit of a `^` pattern or the last of a `$` pattern, `inc` whether a
/// capturing group entered counts as a new group, `nx` is the unit that
/// follows. `s.matched` comes back false when the unit does not match (some
/// units leave it as it was, or set it from the last test they make).
pub open spec fn unitary(
    f: nat,
    u: Unit,
    t: Text,
    st: bool,
    en: bool,
    inc: bool,
    nx: Option<Unit>,
    s: MState,
) -> Option<MState>
    decreases f, 2nat,
{
    if f == 0 {
        None
    } else {
        match u {
            Unit::Digit => class_step(u, t, s),
            Unit::AlphaNumeric => class_step(u, t, s),
            Unit::CharGroup(_) => class_step(u, t, s),
            Unit::NegCharGroup(_) => class_step(u, t, s),
            Unit::PlainText(p) => plain_step(p, t, st, en, s),
            Unit::OneOrMore(pu) => nested_plus(f, *pu, t, st, en, inc, nx, s),
            Unit::ZeroOrMore(pu) => nested_star(f, *pu, t, st, en, inc, nx, s),
            Unit::ZeroOrOne(pu) => match unitary(
                (f - 1) as nat,
                *pu,
                t,
                st,
                en,
                inc,
                nx,
                with_matched(s, true),
            ) {
                None => None,
                Some(r) => Some(with_matched(r, s.matched)),
            },
            Unit::Wildcard => bump(s, 1),
            Unit::Alternation(a, b) => alternation(f, *a, *b, t, st, en, inc, nx, s),
            Unit::CapturingGroup(ch) => nested_capturing(f, ch, t, inc, nx, s),
            Unit::NonCapturingGroup(ch) => nested_noncapturing(f, ch, t, inc, nx, s),
            Unit::BackReference(n) => backreference(f, n, t, st, en, inc, nx, s),
        }
    }
}

/// Tries both sides of an alternation from the cursor; the cursor moves on
/// as the first side that matches moved it.
pub open spec fn alternation(
    f: nat,
    a: Unit,
    b: Unit,
    t: Text,
    st: bool,
    en: bool,
    inc: bool,
    nx: Option<Unit>,
    s: MState,
) -> Option<MState>
    decreases f, 1nat,
{
    if f == 0 {
        None
    } else {
        match unitary((f - 1) as nat, a, t, st, en, inc, nx, with_matched(s, true)) {
            None => None,
            Some(r1) => match unitary(
                (f - 1) as nat,
                b,
                t,
                st,
                en,
                inc,
                nx,
                MState { matched: true, cursor: s.cursor, ..r1 },
            ) {
                None => None,
                Some(r2) => Some(
                    MState {
                        matched: r1.matched || r2.matched,
                        cursor: if r1.matched {
                            r1.cursor
                        } else if r2.matched {
                            r2.cursor
                        } else {
                            s.cursor
                        },
                        ..r2
                    },
                ),
            },
        }
    }
}

/// A back reference matches the text captured by its group.
pub open spec fn backreference(
    f: nat,
    n: u16,
    t: Text,
    st: bool,
    en: bool,
    inc: bool,
    nx: Option<Unit>,
    s: MState,
) -> Option<MState>
    decreases f, 1nat,
{
    if f == 0 || n == 0 || n - 1 >= s.backrefs.len() {
        None
    } else {
        match unitary(
            (f - 1) as nat,
            Unit::PlainText(s.backrefs[n - 1]),
            t,
            st,
            en,
            inc,
            nx,
            with_matched(s, true),
        ) {
            None => None,
            Some(r) => Some(with_matched(r, if r.matched { s.matched } else { false })),
        }
    }
}

/// The look-ahead of a nested `+` over a negated character group: whether
/// the unit after it matches at the cursor. The cursor stays; captures and
/// the group index keep what the look-ahead did to them.
pub open spec fn lookahead_result(nx: Option<Unit>, r: MState, tmp: Option<MState>) -> Option<(bool, MState)> {
    match nx {
        None => None,
        Some(_) => match tmp {
            None => None,
            Some(tmp) => Some((tmp.matched, MState { matched: r.matched, cursor: r.cursor, ..tmp })),
        },
    }
}

pub open spec fn next_or_wildcard(nx: Option<Unit>) -> Unit {
    match nx {
        Some(u) => u,
        None => Unit::Wildcard,
    }
}

/// The repetition of a nested `+` (with `lookahead`) or `*`: `r.matched` is
/// whether the last repetition matched, `m` is the overall result so far.
pub open spec fn nested_repeat(
    f: nat,
    pu: Unit,
    t: Text,
    st: bool,
    en: bool,
    nx: Option<Unit>,
    lookahead: bool,
    m: bool,
    r: MState,
) -> Option<MState>
    decreases f, 0nat,
{
    if !r.matched {
        Some(with_matched(r, m))
    } else if f == 0 {
        None
    } else {
        let look = if lookahead && is_neg_char_group(pu) {
            lookahead_result(
                nx,
                r,
                unitary((f - 1) as nat, next_or_wildcard(nx), t, false, false, false, nx, with_matched(r, true)),
            )
        } else {
            Some((false, r))
        };
        match look {
            None => None,
            Some((mt, r1)) => if mt {
                Some(with_matched(r1, m))
            } else {
                match unitary((f - 1) as nat, pu, t, st, en, false, nx, r1) {
                    None => None,
                    Some(r2) => if byte_len(t) == 0 {
                        None
                    } else if r2.cursor > byte_len(t) - 1 {
                        Some(with_matched(r2, m))
                    } else if is_neg_char_group(pu) && r2.cursor + 1 > byte_len(t) - 1 {
                        Some(r2)
                    } else {
                        nested_repeat((f - 1) as nat, pu, t, st, en, nx, lookahead, m, r2)
                    },
                }
            },
        }
    }
}

/// A nested `+` unit.
pub open spec fn nested_plus(
    f: nat,
    pu: Unit,
    t: Text,
    st: bool,
    en: bool,
    inc: bool,
    nx: Option<Unit>,
    s: MState,
) -> Option<MState>
    decreases f, 1nat,
{
    if f == 0 {
        None
    } else {
        match unitary((f - 1) as nat, pu, t, st, en, inc, nx, with_matched(s, true)) {
            None => None,
            Some(r) => if byte_len(t) == 0 {
                None
            } else if r.cursor <= byte_len(t) - 1 {
                let m1 = if is_neg_char_group(pu) && r.cursor + 1 > byte_len(t) - 1 {
                    r.matched
                } else {
                    s.matched
                };
                let m2 = if !r.matched {
                    false
                } else {
                    m1
                };
                if is_neg_char_group(pu) {
                    match lookahead_result(
                        nx,
                        r,
                        unitary((f - 1) as nat, next_or_wildcard(nx), t, false, false, false, nx, with_matched(r, true)),
                    ) {
                        None => None,
                        Some((mt, r1)) => if mt {
                            Some(with_matched(r1, m2))
                        } else {
                            nested_repeat((f - 1) as nat, pu, t, st, en, nx, true, m2, r1)
                        },
                    }
                } else {
                    nested_repeat((f - 1) as nat, pu, t, st, en, nx, true, m2, r)
                }
            } else {
                Some(with_matched(r, s.matched))
            },
        }
    }
}

/// A nested `*` unit.
pub open spec fn nested_star(
    f: nat,
    pu: Unit,
    t: Text,
    st: bool,
    en: bool,
    inc: bool,
    nx: Option<Unit>,
    s: MState,
) -> Option<MState>
    decreases f, 1nat,
{
    if f == 0 {
        None
    } else {
        match unitary((f - 1) as nat, pu, t, st, en, inc, nx, with_matched(s, true)) {
            None => None,
            Some(r) => if byte_len(t) == 0 {
                None
            } else if r.cursor <= byte_len(t) - 1 {
                let m1 = if is_neg_char_group(pu) && r.cursor + 1 > byte_len(t) - 1 {
                    r.matched
                } else {
                    s.matched
                };
                nested_repeat((f - 1) as nat, pu, t, st, en, nx, false, m1, r)
            } else {
                Some(with_matched(r, s.matched))
            },
        }
    }
}

/// Matches the children of a group one after the other, from child `i` on.
/// `lm` is whether the group matches so far, `s.matched` the overall
/// result. The loop stops at the first child that does not match and, in a
/// capturing group only, at the end of the input, which fails the group and
/// the overall result; a non-capturing group runs each child there too.
pub open spec fn group_loop(
    f: nat,
    ch: Seq<Unit>,
    i: nat,
    t: Text,
    inc: bool,
    nx: Option<Unit>,
    capturing: bool,
    lm: bool,
    s: MState,
) -> Option<(bool, MState)>
    decreases f, 0nat,
{
    if i >= ch.len() {
        Some((lm, s))
    } else if f == 0 {
        None
    } else {
        let lnext = if i + 1 <= ch.len() - 1 {
            Some(ch[i + 1 as int])
        } else {
            nx
        };
        if capturing && !(s.cursor < byte_len(t)) {
            Some((false, fail(s)))
        } else {
            match unitary((f - 1) as nat, ch[i as int], t, false, false, inc, lnext, with_matched(s, true)) {
                None => None,
                Some(r) => if !r.matched {
                    Some((false, fail(r)))
                } else {
                    group_loop(
                        (f - 1) as nat,
                        ch,
                        i + 1,
                        t,
                        inc,
                        nx,
                        capturing,
                        true,
                        with_matched(r, s.matched),
                    )
                },
            }
        }
    }
}

/// A nested capturing group: it needs a character at the cursor, matches
/// its children, and on a match records what they matched.
pub open spec fn nested_capturing(
    f: nat,
    ch: Seq<Unit>,
    t: Text,
    inc: bool,
    nx: Option<Unit>,
    s: MState,
) -> Option<MState>
    decreases f, 1nat,
{
    if f == 0 || (inc && s.group_index + 1 > usize::MAX) {
        None
    } else {
        let gi: usize = if inc {
            (s.group_index + 1) as usize
        } else {
            s.group_index
        };
        let s1 = MState { group_index: gi, ..s };
        if s.cursor < byte_len(t) {
            match char_at(t, s.cursor) {
                None => None,
                Some(_) => match group_loop((f - 1) as nat, ch, 0, t, inc, nx, true, true, s1) {
                    None => None,
                    Some((lm, r)) => if lm {
                        store_backref(t, r, gi, s.cursor)
                    } else {
                        Some(r)
                    },
                },
            }
        } else {
            Some(fail(s1))
        }
    }
}

/// A nested non-capturing group.
pub open spec fn nested_noncapturing(
    f: nat,
    ch: Seq<Unit>,
    t: Text,
    inc: bool,
    nx: Option<Unit>,
    s: MState,
) -> Option<MState>
    decreases f, 1nat,
{
    if f == 0 {
        None
    } else if s.cursor < byte_len(t) {
        match char_at(t, s.cursor) {
            None => None,
            Some(_) => match group_loop((f - 1) as nat, ch, 0, t, inc, nx, false, true, s) {
                None => None,
                Some((_, r)) => Some(r),
            },
        }
    } else {
        Some(s)
    }
}

/// What one top-level unit does: the matching goes on with the next unit,
/// or stops trying units at this start position.
pub enum Flow {
    Next(MState),
    Stop(MState),
}

/// The look-ahead of a top-level `+` or `*` over a wildcard: whether the
/// next top-level unit matches at the cursor (true when there is none).
pub open spec fn top_lookahead(
    f: nat,
    pu: Unit,
    parts: Seq<Unit>,
    i: int,
    t: Text,
    nx: Option<Unit>,
    r: MState,
) -> Option<(bool, MState)> {
    if is_wildcard(pu) {
        if i + 1 <= parts.len() - 1 {
            match unitary(f, parts[i + 1], t, false, false, false, nx, with_matched(r, true)) {
                None => None,
                Some(tmp) => Some(
                    (tmp.matched, MState { matched: r.matched, cursor: r.cursor, ..tmp }),
                ),
            }
        } else {
            Some((true, r))
        }
    } else {
        Some((false, r))
    }
}

/// The repetition of a top-level `+` or `*`: `r.matched` is whether the
/// last repetition matched, `m` the overall result so far.
pub open spec fn top_repeat(
    f: nat,
    pu: Unit,
    parts: Seq<Unit>,
    i: int,
    t: Text,
    nx: Option<Unit>,
    m: bool,
    r: MState,
) -> Option<MState>
    decreases f,
{
    if !r.matched {
        Some(with_matched(r, m))
    } else if f == 0 {
        None
    } else {
        match top_lookahead(f, pu, parts, i, t, nx, r) {
            None => None,
            Some((mt, r1)) => if mt {
                Some(with_matched(r1, m))
            } else if byte_len(t) == 0 {
                None
            } else if r1.cursor > byte_len(t) - 1 {
                Some(with_matched(r1, m))
            } else {
                match unitary(f, pu, t, false, false, false, nx, r1) {
                    None => None,
                    Some(r2) => if r2.cursor > byte_len(t) - 1 {
                        Some(with_matched(r2, m))
                    } else if is_neg_char_group(pu) && r2.cursor + 1 > byte_len(t) - 1 {
                        Some(r2)
                    } else {
                        top_repeat((f - 1) as nat, pu, parts, i, t, nx, m, r2)
                    },
                }
            },
        }
    }
}

/// A top-level `+` unit.
pub open spec fn top_plus(
    f: nat,
    pu: Unit,
    parts: Seq<Unit>,
    i: int,
    t: Text,
    nx: Option<Unit>,
    s: MState,
) -> Option<Flow> {
    match unitary(f, pu, t, false, false, true, nx, with_matched(s, true)) {
        None => None,
        Some(r) => if byte_len(t) == 0 {
            None
        } else if r.cursor <= byte_len(t) - 1 {
            if is_neg_char_group(pu) && r.cursor + 1 > byte_len(t) - 1 {
                Some(Flow::Stop(r))
            } else if !r.matched {
                Some(Flow::Stop(r))
            } else {
                match top_lookahead(f, pu, parts, i, t, nx, r) {
                    None => None,
                    Some((mt, r1)) => if mt {
                        Some(Flow::Stop(with_matched(r1, s.matched)))
                    } else {
                        match top_repeat(f, pu, parts, i, t, nx, s.matched, r1) {
                            None => None,
                            Some(r2) => Some(Flow::Next(r2)),
                        }
                    },
                }
            }
        } else {
            Some(Flow::Next(with_matched(r, s.matched)))
        },
    }
}

/// A top-level `*` unit.
pub open spec fn top_star(
    f: nat,
    pu: Unit,
    parts: Seq<Unit>,
    i: int,
    t: Text,
    nx: Option<Unit>,
    s: MState,
) -> Option<Flow> {
    match top_lookahead(f, pu, parts, i, t, nx, with_matched(s, true)) {
        None => None,
        Some((mt, r0)) => if mt {
            Some(Flow::Stop(with_matched(r0, s.matched)))
        } else {
            match unitary(f, pu, t, false, false, true, nx, r0) {
                None => None,
                Some(r) => if byte_len(t) == 0 {
                    None
                } else if r.cursor <= byte_len(t) - 1 {
                    if is_neg_char_group(pu) && r.cursor + 1 > byte_len(t) - 1 {
                        Some(Flow::Stop(r))
                    } else {
                        match top_repeat(f, pu, parts, i, t, nx, s.matched, r) {
                            None => None,
                            Some(r2) => Some(Flow::Next(r2)),
                        }
                    }
                } else {
                    Some(Flow::Next(with_matched(r, s.matched)))
                },
            }
        },
    }
}

/// One top-level unit, tried at the cursor (which is before the end of the
/// input).
pub open spec fn part_step(f: nat, parts: Seq<Unit>, i: int, t: Text, s: MState) -> Option<Flow> {
    let nx = if i + 1 <= parts.len() - 1 {
        Some(parts[i + 1])
    } else {
        None
    };
    let u = parts[i];
    if is_class(u) {
        match char_at(t, s.cursor) {
            None => None,
            Some(c) => if class_accepts(u, c) {
                match bump(s, 1) {
                    None => None,
                    Some(r) => Some(Flow::Next(r)),
                }
            } else {
                Some(Flow::Stop(fail(s)))
            },
        }
    } else {
        match u {
            Unit::PlainText(p) => if s.cursor + p.len() > usize::MAX {
                None
            } else if s.cursor + p.len() <= byte_len(t) {
                match slice(t, s.cursor as int, s.cursor + p.len()) {
                    None => None,
                    Some(x) => if x != p {
                        Some(Flow::Stop(fail(s)))
                    } else {
                        match bump(s, p.len() as int) {
                            None => None,
                            Some(r) => Some(Flow::Next(r)),
                        }
                    },
                }
            } else {
                Some(Flow::Stop(fail(s)))
            },
            Unit::OneOrMore(pu) => top_plus(f, *pu, parts, i, t, nx, s),
            Unit::ZeroOrMore(pu) => top_star(f, *pu, parts, i, t, nx, s),
            Unit::ZeroOrOne(pu) => match unitary(f, *pu, t, false, false, true, nx, with_matched(s, true)) {
                None => None,
                Some(r) => Some(Flow::Next(with_matched(r, s.matched))),
            },
            Unit::Wildcard => match bump(s, 1) {
                None => None,
                Some(r) => Some(Flow::Next(r)),
            },
            Unit::Alternation(a, b) => match alternation(f + 1, *a, *b, t, false, false, true, nx, s) {
                None => None,
                Some(r) => Some(Flow::Next(r)),
            },
            Unit::CapturingGroup(ch) => if s.group_index + 1 > usize::MAX {
                None
            } else {
                let gi = (s.group_index + 1) as usize;
                match group_loop(f, ch, 0, t, true, nx, true, true, MState { group_index: gi, ..s }) {
                    None => None,
                    Some((lm, r)) => if lm {
                        match store_backref(t, r, gi, s.cursor) {
                            None => None,
                            Some(r1) => Some(Flow::Next(r1)),
                        }
                    } else {
                        Some(Flow::Next(r))
                    },
                }
            },
            Unit::NonCapturingGroup(ch) => match group_loop(f, ch, 0, t, true, nx, false, true, s) {
                None => None,
                Some((_, r)) => Some(Flow::Next(r)),
            },
            Unit::BackReference(n) => if n == 0 {
                None
            } else if n - 1 < s.backrefs.len() {
                match unitary(
                    f,
                    Unit::PlainText(s.backrefs[n - 1]),
                    t,
                    false,
                    false,
                    true,
                    nx,
                    with_matched(s, true),
                ) {
                    None => None,
                    Some(r) => Some(Flow::Next(with_matched(r, if r.matched { s.matched } else { false }))),
                }
            } else {
                Some(Flow::Next(fail(s)))
            },
            _ => None,
        }
    }
}

/// The top-level units from unit `i` on; matching stops at the end of the
/// input (a failure) or when a unit says so.
pub open spec fn parts_loop(f: nat, parts: Seq<Unit>, i: int, t: Text, s: MState) -> Option<MState>
    decreases parts.len() - i,
{
    if i >= parts.len() || i < 0 {
        Some(s)
    } else if s.cursor >= byte_len(t) {
        Some(fail(s))
    } else {
        match part_step(f, parts, i, t, s) {
            None => None,
            Some(Flow::Stop(r)) => Some(r),
            Some(Flow::Next(r)) => parts_loop(f, parts, i + 1, t, r),
        }
    }
}

/// The length that the unit anchored at the end of a pattern is taken to
/// cover, counted back from the end of the input when no other unit moved
/// the cursor; `None` where that count fails (empty text, overflow).
pub open spec fn last_spacing(u: Unit) -> Option<u32>
    decreases u,
{
    match u {
        Unit::PlainText(p) => if p.len() == 0 {
            None
        } else {
            Some((p.len() - 1) as u32)
        },
        Unit::OneOrMore(b) => last_spacing(*b),
        Unit::ZeroOrMore(b) => last_spacing(*b),
        Unit::ZeroOrOne(b) => last_spacing(*b),
        Unit::Alternation(a, b) => match (last_spacing(*a), last_spacing(*b)) {
            (Some(x), Some(y)) => Some(if x >= y { x } else { y }),
            _ => None,
        },
        Unit::CapturingGroup(ch) => spacing_sum(ch),
        Unit::NonCapturingGroup(ch) => spacing_sum(ch),
        _ => Some(1),
    }
}

/// The sum of `last_spacing` over a group's children.
pub open spec fn spacing_sum(ch: Seq<Unit>) -> Option<u32>
    decreases ch,
{
    if ch.len() == 0 {
        Some(0)
    } else {
        match (spacing_sum(ch.drop_last()), last_spacing(ch.last())) {
            (Some(a), Some(b)) => if a + b > u32::MAX {
                None
            } else {
                Some((a + b) as u32)
            },
            _ => None,
        }
    }
}

/// A compiled pattern: the units to match, the unit anchored at the start
/// (`^`) and the one anchored at the end (`$`), and the number of groups.
pub struct Compiled {
    pub parts: Seq<Unit>,
    pub start: Option<Unit>,
    pub end: Option<Unit>,
    pub groups: nat,
}

/// Matching from byte position `j` of the input: `Some((stop, m))`, where
/// `stop` says that no later position is tried.
pub open spec fn attempt(f: nat, cp: Compiled, t: Text, j: usize) -> Option<(bool, bool)> {
    let s0 = MState {
        matched: true,
        cursor: j,
        backrefs: Seq::new(cp.groups, |k: int| Seq::<u8>::empty()),
        group_index: 0,
    };
    if j > 0 && cp.start is Some {
        Some((true, false))
    } else {
        let s1 = match cp.start {
            Some(su) => unitary(f, su, t, true, false, true, None, s0),
            None => Some(s0),
        };
        match s1 {
            None => None,
            Some(s1) => if !s1.matched {
                Some((true, false))
            } else {
                match parts_loop(f, cp.parts, 0, t, s1) {
                    None => None,
                    Some(s2) => match cp.end {
                        None => Some((s2.matched, s2.matched)),
                        Some(eu) => {
                            let s3 = if cp.parts.len() == 0 {
                                match last_spacing(eu) {
                                    None => None,
                                    Some(sp) => if byte_len(t) - sp < 0 {
                                        None
                                    } else {
                                        Some(MState { cursor: (byte_len(t) - sp) as usize, ..s2 })
                                    },
                                }
                            } else {
                                Some(s2)
                            };
                            match s3 {
                                None => None,
                                Some(s3) => if s3.matched {
                                    match unitary(f, eu, t, false, true, true, None, s3) {
                                        None => None,
                                        Some(s4) => Some((s4.matched, s4.matched)),
                                    }
                                } else {
                                    Some((false, false))
                                },
                            }
                        },
                    },
                }
            },
        }
    }
}

/// Tries the start positions from `j` on; `m` is the result of the last
/// attempt (true before any).
pub open spec fn search(f: nat, cp: Compiled, t: Text, j: int, m: bool) -> Option<bool>
    decreases byte_len(t) - j,
{
    if j >= byte_len(t) || j < 0 || j > usize::MAX {
        Some(m)
    } else {
        match attempt(f, cp, t, j as usize) {
            None => None,
            Some((stop, m2)) => if stop {
                Some(m2)
            } else {
                search(f, cp, t, j + 1, m2)
            },
        }
    }
}

} // verus!

//! How a pattern is compiled into units. The pattern is read character by
//! character: `\d`, `\w` and `\1`..`\8` are classes and back references,
//! `.` is the wildcard, `[..]` and `[^..]` are character groups, `|`
//! separates alternatives, `(..)` are groups, and `+`, `*` or `?` after a
//! unit repeats it; any other character is literal text. A leading `^` and a
//! trailing `$` anchor the first and last unit.
use vstd::prelude::*;
use vstd::utf8::encode_utf8;
use crate::unit::Unit;
use crate::groups::{Assembly, add_unit, add_unit_ok, descent_ok, pushed};
use crate::semantics::Compiled;

verus! {

/// The state of the compiler: the position `k` in the pattern, the literal
/// text read so far, the units assembled so far, the group depth (-1 outside
/// any group), whether an alternation is open, and the number of groups
/// opened.
pub struct Parse {
    pub k: int,
    pub text: Seq<char>,
    pub assembly: Assembly,
    pub depth: int,
    pub is_alternation: bool,
    pub groups: nat,
}

/// Literal text as a unit.
pub open spec fn plain(text: Seq<char>) -> Unit {
    Unit::PlainText(encode_utf8(text))
}

/// Adds a unit (see `add_unit`).
pub open spec fn add_part(p: Parse, u: Unit) -> Option<Parse> {
    if add_unit_ok(p.assembly, p.is_alternation, p.depth) {
        Some(Parse { assembly: add_unit(p.assembly, p.is_alternation, u, p.depth), ..p })
    } else {
        None
    }
}

/// Turns the literal text read so far, if any, into a unit.
pub open spec fn flush(p: Parse) -> Option<Parse> {
    if p.text.len() == 0 {
        Some(p)
    } else {
        add_part(Parse { text: Seq::empty(), ..p }, plain(p.text))
    }
}

/// The alternation made of the two sides gathered so far.
pub open spec fn alternation_of(a: Assembly) -> Unit {
    Unit::Alternation(
        Box::new(Unit::NonCapturingGroup(a.group1)),
        Box::new(Unit::NonCapturingGroup(a.group2)),
    )
}

pub open spec fn clear_sides(p: Parse) -> Parse {
    Parse { assembly: Assembly { group1: Seq::empty(), group2: Seq::empty(), ..p.assembly }, ..p }
}

/// Closes an open alternation: adds it as one unit and empties its sides.
pub open spec fn close_alternation(p: Parse) -> Option<Parse> {
    if p.is_alternation {
        match add_part(Parse { is_alternation: false, ..p }, alternation_of(p.assembly)) {
            None => None,
            Some(q) => Some(clear_sides(q)),
        }
    } else {
        Some(p)
    }
}

pub open spec fn is_quantifier(c: char) -> bool {
    c == '+' || c == '*' || c == '?'
}

/// The quantifier at position `j`, if there is one.
pub open spec fn quantifier_at(pat: Seq<char>, j: int) -> Option<char> {
    if 0 <= j < pat.len() && is_quantifier(pat[j]) {
        Some(pat[j])
    } else {
        None
    }
}

/// `u` repeated as quantifier `q` says.
pub open spec fn quantified(q: char, u: Unit) -> Unit {
    if q == '+' {
        Unit::OneOrMore(Box::new(u))
    } else if q == '*' {
        Unit::ZeroOrMore(Box::new(u))
    } else {
        Unit::ZeroOrOne(Box::new(u))
    }
}

/// Adds `u`, repeated if a quantifier stands at `j`; `k` moves past the
/// quantifier.
pub open spec fn add_quantified(pat: Seq<char>, p: Parse, u: Unit, j: int) -> Option<Parse> {
    match quantifier_at(pat, j) {
        Some(q) => add_part(Parse { k: p.k + 1, ..p }, quantified(q, u)),
        None => add_part(p, u),
    }
}

/// The first `]` at or after `i`.
pub open spec fn find_close(pat: Seq<char>, i: int) -> Option<int>
    decreases pat.len() - i,
{
    if i < 0 || i >= pat.len() {
        None
    } else if pat[i] == ']' {
        Some(i)
    } else {
        find_close(pat, i + 1)
    }
}

/// The unit that an escape `\c` stands for, if any.
pub open spec fn escape_unit(c: char) -> Option<Unit> {
    if c == 'd' {
        Some(Unit::Digit)
    } else if c == 'w' {
        Some(Unit::AlphaNumeric)
    } else if '1' <= c && c <= '8' {
        Some(Unit::BackReference((c as int - 48) as u16))
    } else {
        None
    }
}

/// One step of the compiler at position `k` (which is within the pattern).
pub open spec fn step(pat: Seq<char>, p: Parse) -> Option<Parse> {
    let c = pat[p.k];
    if c == '\\' {
        match flush(p) {
            None => None,
            Some(p1) => if p.k + 1 >= pat.len() {
                None
            } else {
                match escape_unit(pat[p.k + 1]) {
                    Some(u) => add_quantified(pat, Parse { k: p.k + 2, ..p1 }, u, p.k + 2),
                    None => Some(Parse { k: p.k + 1, ..p1 }),
                }
            },
        }
    } else if c == '.' {
        match flush(p) {
            None => None,
            Some(p1) => add_quantified(pat, Parse { k: p.k + 1, ..p1 }, Unit::Wildcard, p.k + 1),
        }
    } else if c == '[' {
        match flush(p) {
            None => None,
            Some(p1) => if p.k + 1 >= pat.len() {
                None
            } else {
                let neg = pat[p.k + 1] == '^';
                let from = if neg {
                    p.k + 2
                } else {
                    p.k + 1
                };
                match find_close(pat, from) {
                    None => Some(Parse { k: p.k + 1, ..p1 }),
                    Some(e) => {
                        let block = pat.subrange(from, e);
                        let u = if neg {
                            Unit::NegCharGroup(block)
                        } else {
                            Unit::CharGroup(block)
                        };
                        add_quantified(pat, Parse { k: e + 1, ..p1 }, u, e + 1)
                    },
                }
            },
        }
    } else if c == '|' {
        match flush(p) {
            None => None,
            Some(p1) => match close_alternation(p1) {
                None => None,
                Some(p2) => Some(
                    Parse {
                        k: p.k + 1,
                        is_alternation: true,
                        assembly: Assembly { first_alternation: true, ..p2.assembly },
                        ..p2
                    },
                ),
            },
        }
    } else if c == '(' {
        match flush(p) {
            None => None,
            Some(p1) => if p1.depth + 1 > i32::MAX {
                None
            } else if p1.depth == -1 {
                Some(
                    Parse {
                        k: p.k + 1,
                        groups: p1.groups + 1,
                        depth: p1.depth + 1,
                        assembly: Assembly { group: Unit::CapturingGroup(Seq::empty()), ..p1.assembly },
                        ..p1
                    },
                )
            } else if !descent_ok(p1.assembly.group, p1.depth, 0) {
                None
            } else {
                Some(
                    Parse {
                        k: p.k + 1,
                        groups: p1.groups + 1,
                        depth: p1.depth + 1,
                        assembly: Assembly {
                            group: pushed(
                                p1.assembly.group,
                                p1.depth,
                                0,
                                Unit::CapturingGroup(Seq::empty()),
                            ),
                            ..p1.assembly
                        },
                        ..p1
                    },
                )
            },
        }
    } else if c == ')' {
        match flush(p) {
            None => None,
            Some(p1) => {
                let p2 = if p1.is_alternation {
                    if descent_ok(p1.assembly.group, p1.depth, 0) {
                        Some(
                            clear_sides(
                                Parse {
                                    is_alternation: false,
                                    assembly: Assembly {
                                        group: pushed(
                                            p1.assembly.group,
                                            p1.depth,
                                            0,
                                            alternation_of(p1.assembly),
                                        ),
                                        ..p1.assembly
                                    },
                                    ..p1
                                },
                            ),
                        )
                    } else {
                        None
                    }
                } else {
                    Some(p1)
                };
                match p2 {
                    None => None,
                    Some(p2) => if p2.depth - 1 < i32::MIN {
                        None
                    } else if p2.depth - 1 == -1 {
                        add_quantified(
                            pat,
                            Parse { k: p.k + 1, depth: -1, ..p2 },
                            p2.assembly.group,
                            p.k + 1,
                        )
                    } else {
                        Some(Parse { k: p.k + 1, depth: p2.depth - 1, ..p2 })
                    },
                }
            },
        }
    } else {
        match quantifier_at(pat, p.k + 1) {
            None => Some(Parse { k: p.k + 1, text: p.text.push(c), ..p }),
            Some(q) => match flush(p) {
                None => None,
                Some(p1) => if q == '*' {
                    Some(
                        Parse {
                            k: p.k + 2,
                            assembly: Assembly {
                                parts: p1.assembly.parts.push(quantified(q, plain(seq![c]))),
                                ..p1.assembly
                            },
                            ..p1
                        },
                    )
                } else {
                    add_part(Parse { k: p.k + 2, ..p1 }, quantified(q, plain(seq![c])))
                },
            },
        }
    }
}

/// A compiler step always moves on.
pub proof fn lemma_step_advances(pat: Seq<char>, p: Parse)
    requires
        0 <= p.k < pat.len(),
    ensures
        step(pat, p) matches Some(q) ==> p.k < q.k <= pat.len() && q.groups <= p.groups + (q.k
            - p.k),
{
    let c = pat[p.k];
    if c == '[' {
        if p.k + 1 < pat.len() {
            let from = if pat[p.k + 1] == '^' {
                p.k + 2
            } else {
                p.k + 1
            };
            if from <= pat.len() {
                lemma_find_close(pat, from);
            }
        }
    }
}

/// `find_close` finds a `]` at or after its start.
pub proof fn lemma_find_close(pat: Seq<char>, i: int)
    requires
        0 <= i,
    ensures
        find_close(pat, i) matches Some(e) ==> i <= e < pat.len() && pat[e] == ']' && (forall|
            j: int,
        | i <= j < e ==> pat[j] != ']'),
        find_close(pat, i) is None ==> forall|j: int| i <= j < pat.len() ==> pat[j] != ']',
    decreases pat.len() - i,
{
    if i < 0 || i >= pat.len() {
    } else if pat[i] == ']' {
    } else {
        lemma_find_close(pat, i + 1);
    }
}

/// The compiler's loop: it stops at the end of the pattern, or at its last
/// character when the pattern ends with `$` (closing an open alternation
/// first).
pub open spec fn parse_loop(pat: Seq<char>, has_end: bool, p: Parse) -> Option<Parse>
    decreases pat.len() - p.k,
{
    if p.k < 0 || p.k >= pat.len() {
        Some(p)
    } else if has_end && p.k == pat.len() - 1 {
        close_alternation(p)
    } else {
        match step(pat, p) {
            None => None,
            Some(q) => if p.k < q.k <= pat.len() {
                parse_loop(pat, has_end, q)
            } else {
                None
            },
        }
    }
}

pub open spec fn has_start(pat: Seq<char>) -> bool {
    pat.len() > 0 && pat[0] == '^'
}

pub open spec fn has_end(pat: Seq<char>) -> bool {
    pat.len() > 0 && pat.last() == '$'
}

pub open spec fn initial_parse(pat: Seq<char>) -> Parse {
    Parse {
        k: if has_start(pat) {
            1
        } else {
            0
        },
        text: Seq::empty(),
        assembly: Assembly {
            parts: Seq::empty(),
            group: Unit::CapturingGroup(Seq::empty()),
            group1: Seq::empty(),
            group2: Seq::empty(),
            first_alternation: false,
        },
        depth: -1,
        is_alternation: false,
        groups: 0,
    }
}

/// Takes the anchored units off the top-level units.
pub open spec fn finish(pat: Seq<char>, p: Parse) -> Option<Compiled> {
    let parts = p.assembly.parts;
    if has_start(pat) && parts.len() == 0 {
        None
    } else {
        let start = if has_start(pat) {
            Some(parts[0])
        } else {
            None
        };
        let rest = if has_start(pat) {
            parts.drop_first()
        } else {
            parts
        };
        if has_end(pat) && rest.len() == 0 {
            None
        } else {
            let end = if has_end(pat) {
                Some(rest.last())
            } else {
                None
            };
            let rest2 = if has_end(pat) {
                rest.drop_last()
            } else {
                rest
            };
            Some(Compiled { parts: rest2, start, end, groups: p.groups })
        }
    }
}

/// The compiled form of a pattern, `None` where compiling fails (an escape
/// or `[` at the very end, a group nesting deeper than `i32` counts, an
/// anchor with no unit to take).
pub open spec fn parse(pat: Seq<char>) -> Option<Compiled> {
    match parse_loop(pat, has_end(pat), initial_parse(pat)) {
        None => None,
        Some(p) => match flush(p) {
            None => None,
            Some(p1) => match close_alternation(p1) {
                None => None,
                Some(p2) => finish(pat, p2),
            },
        },
    }
}

} // verus!

//! Matching one unit at the cursor.
use vstd::prelude::*;
use vstd::string::{StrSliceExecFns, StringSliceAdditionalSpecFns};
use crate::unit::{
    PatternUnit, Unit, option_view, is_neg_char_group, clone_option, clone_unit, units_view,
    lemma_group_view,
};
use crate::semantics::{
    Text, MState, text_of, byte_len, char_at, is_class, class_accepts, is_digit, is_word_char,
    plain_step, class_step, slice, store_backref, unitary, nested_plus, nested_star,
    nested_repeat, alternation, backreference, group_loop, nested_capturing,
    nested_noncapturing, with_matched, fail, bump,
};

verus! {

/// The model of the captured texts.
pub open spec fn backrefs_view(br: Seq<Vec<u8>>) -> Seq<Seq<u8>> {
    Seq::new(br.len(), |i: int| br[i]@)
}

/// The model of the matching state held in separate variables.
pub open spec fn mstate(m: bool, c: usize, br: Seq<Vec<u8>>, gi: usize) -> MState {
    MState { matched: m, cursor: c, backrefs: backrefs_view(br), group_index: gi }
}

/// Whether `g` holds `c`.
pub fn contains_char(g: &Vec<char>, c: char) -> (r: bool)
    ensures
        r == g@.contains(c),
{
    let mut i: usize = 0;
    while i < g.len()
        invariant
            i <= g.len(),
            forall|j: int| 0 <= j < i ==> g@[j] != c,
        decreases g.len() - i,
    {
        if g[i] == c {
            return true;
        }
        i = i + 1;
    }
    false
}

/// Whether a one-character unit accepts `c`.
pub fn class_accepts_exec(u: &PatternUnit, c: char) -> (r: bool)
    requires
        is_class(u@),
    ensures
        r == class_accepts(u@, c),
{
    match u {
        PatternUnit::Digit => '0' <= c && c <= '9',
        PatternUnit::AlphaNumeric => ('0' <= c && c <= '9') || ('a' <= c && c <= 'z') || ('A' <= c
            && c <= 'Z') || c == '_',
        PatternUnit::CharGroup(g) => contains_char(g, c),
        PatternUnit::NegCharGroup(g) => !contains_char(g, c),
        _ => false,
    }
}

/// Whether the bytes of `bytes` from `at` on begin with `p`.
pub fn bytes_match_at(bytes: &[u8], at: usize, p: &Vec<u8>) -> (r: bool)
    requires
        at + p@.len() <= bytes@.len(),
    ensures
        r == (bytes@.subrange(at as int, at + p@.len()) == p@),
{
    let n = bytes.len();
    let mut i: usize = 0;
    while i < p.len()
        invariant
            i <= p.len(),
            n == bytes@.len(),
            at + p@.len() <= bytes@.len(),
            forall|j: int| 0 <= j < i ==> bytes@[at + j] == p@[j],
        decreases p.len() - i,
    {
        if bytes[at + i] != p[i] {
            assert(bytes@.subrange(at as int, at + p@.len())[i as int] != p@[i as int]);
            return false;
        }
        i = i + 1;
    }
    assert(bytes@.subrange(at as int, at + p@.len()) =~= p@);
    true
}

/// A copy of the bytes from `a` to `b`.
pub fn copy_bytes(bytes: &[u8], a: usize, b: usize) -> (r: Vec<u8>)
    requires
        a <= b <= bytes@.len(),
    ensures
        r@ == bytes@.subrange(a as int, b as int),
{
    let mut r: Vec<u8> = Vec::new();
    let mut i: usize = a;
    while i < b
        invariant
            a <= i <= b <= bytes@.len(),
            r@ == bytes@.subrange(a as int, i as int),
        decreases b - i,
    {
        r.push(bytes[i]);
        i = i + 1;
        assert(r@ =~= bytes@.subrange(a as int, i as int));
    }
    r
}

/// A one-character unit at the cursor.
pub fn class_match(is_a_match: &mut bool, str_cursor: &mut usize, u: &PatternUnit, input_line: &str, Ghost(s): Ghost<MState>)
    requires
        is_class(u@),
        s.matched == *old(is_a_match),
        s.cursor == *old(str_cursor),
        class_step(u@, text_of(input_line), s) is Some,
    ensures
        class_step(u@, text_of(input_line), s) == Some(MState { matched: *final(is_a_match), cursor: *final(str_cursor), ..s }),
{
    let c = input_line.get_char(*str_cursor);
    if !class_accepts_exec(u, c) {
        *is_a_match = false;
    } else {
        *str_cursor = *str_cursor + 1;
    }
}

/// Literal text (see `plain_step`).
pub fn plain_match(
    is_a_match: &mut bool,
    str_cursor: &mut usize,
    p: &Vec<u8>,
    input_line: &str,
    is_starting_pattern: bool,
    is_ending_pattern: bool,
    Ghost(s): Ghost<MState>,
)
    requires
        s.matched == *old(is_a_match),
        s.cursor == *old(str_cursor),
        plain_step(p@, text_of(input_line), is_starting_pattern, is_ending_pattern, s) is Some,
    ensures
        plain_step(p@, text_of(input_line), is_starting_pattern, is_ending_pattern, s) == Some(
            MState { matched: *final(is_a_match), cursor: *final(str_cursor), ..s },
        ),
{
    let bytes = input_line.as_bytes();
    let n = bytes.len();
    let plen = p.len();
    if is_starting_pattern {
        if plen <= n && bytes_match_at(bytes, 0, p) {
            *str_cursor = *str_cursor + plen;
        } else {
            *is_a_match = false;
        }
    } else if is_ending_pattern {
        if plen <= n && bytes_match_at(bytes, n - plen, p) {
            *str_cursor = *str_cursor + plen;
        } else {
            *is_a_match = false;
        }
    } else if *str_cursor + plen <= n {
        if !bytes_match_at(bytes, *str_cursor, p) {
            *is_a_match = false;
        } else {
            *str_cursor = *str_cursor + plen;
        }
    } else {
        *is_a_match = false;
    }
}

/// Whether the unit is a negated character group.
pub fn is_neg_group_exec(u: &PatternUnit) -> (r: bool)
    ensures
        r == is_neg_char_group(u@),
{
    match u {
        PatternUnit::NegCharGroup(_) => true,
        _ => false,
    }
}

/// A copy of a captured text.
pub fn copy_capture(v: &Vec<u8>) -> (r: Vec<u8>)
    ensures
        r@ == v@,
{
    let r = copy_bytes(v.as_slice(), 0, v.len());
    assert(v@.subrange(0, v@.len() as int) =~= v@);
    r
}

/// Matches `pattern_unit` at the cursor (see `unitary`). `is_a_match`
/// becomes false when the unit does not match; the cursor moves over what
/// the unit matched; capturing groups record what they matched in
/// `backreferences`, numbered by `current_group_index`.
pub fn match_unitary_pattern(
    is_a_match: &mut bool,
    str_cursor: &mut usize,
    pattern_unit: &PatternUnit,
    input_line: &str,
    is_starting_pattern: bool,
    is_ending_pattern: bool,
    backreferences: &mut Vec<Vec<u8>>,
    current_group_index: &mut usize,
    shd_increase_current_group_index: &mut bool,
    next_pattern: Option<PatternUnit>,
    Ghost(fuel): Ghost<nat>,
)
    requires
        unitary(
            fuel,
            pattern_unit@,
            text_of(input_line),
            is_starting_pattern,
            is_ending_pattern,
            *old(shd_increase_current_group_index),
            option_view(next_pattern),
            mstate(
                *old(is_a_match),
                *old(str_cursor),
                old(backreferences)@,
                *old(current_group_index),
            ),
        ) is Some,
    ensures
        unitary(
            fuel,
            pattern_unit@,
            text_of(input_line),
            is_starting_pattern,
            is_ending_pattern,
            *old(shd_increase_current_group_index),
            option_view(next_pattern),
            mstate(
                *old(is_a_match),
                *old(str_cursor),
                old(backreferences)@,
                *old(current_group_index),
            ),
        ) == Some(
            mstate(
                *final(is_a_match),
                *final(str_cursor),
                final(backreferences)@,
                *final(current_group_index),
            ),
        ),
        *final(shd_increase_current_group_index) == *old(shd_increase_current_group_index),
    decreases fuel, 2nat,
{
    let ghost s = mstate(*is_a_match, *str_cursor, backreferences@, *current_group_index);
    match pattern_unit {
        PatternUnit::Digit => class_match(is_a_match, str_cursor, pattern_unit, input_line, Ghost(s)),
        PatternUnit::AlphaNumeric => class_match(
            is_a_match,
            str_cursor,
            pattern_unit,
            input_line,
            Ghost(s),
        ),
        PatternUnit::CharGroup(_) => class_match(
            is_a_match,
            str_cursor,
            pattern_unit,
            input_line,
            Ghost(s),
        ),
        PatternUnit::NegCharGroup(_) => class_match(
            is_a_match,
            str_cursor,
            pattern_unit,
            input_line,
            Ghost(s),
        ),
        PatternUnit::PlainText(p) => plain_match(
            is_a_match,
            str_cursor,
            p,
            input_line,
            is_starting_pattern,
            is_ending_pattern,
            Ghost(s),
        ),
        PatternUnit::OneOrMore(pu) => nested_plus_match(
            is_a_match,
            str_cursor,
            pu,
            input_line,
            is_starting_pattern,
            is_ending_pattern,
            backreferences,
            current_group_index,
            shd_increase_current_group_index,
            &next_pattern,
            Ghost(fuel),
        ),
        PatternUnit::ZeroOrMore(pu) => nested_star_match(
            is_a_match,
            str_cursor,
            pu,
            input_line,
            is_starting_pattern,
            is_ending_pattern,
            backreferences,
            current_group_index,
            shd_increase_current_group_index,
            &next_pattern,
            Ghost(fuel),
        ),
        PatternUnit::ZeroOrOne(pu) => {
            let mut is_local_match: bool = true;
            match_unitary_pattern(
                &mut is_local_match,
                str_cursor,
                pu,
                input_line,
                is_starting_pattern,
                is_ending_pattern,
                backreferences,
                current_group_index,
                shd_increase_current_group_index,
                next_pattern,
                Ghost((fuel - 1) as nat),
            );
        },
        PatternUnit::Wildcard => {
            *str_cursor = *str_cursor + 1;
        },
        PatternUnit::Alternation(p) => alternation_match(
            is_a_match,
            str_cursor,
            &p.0,
            &p.1,
            input_line,
            is_starting_pattern,
            is_ending_pattern,
            backreferences,
            current_group_index,
            shd_increase_current_group_index,
            &next_pattern,
            Ghost(fuel),
        ),
        PatternUnit::CapturingGroup(puvec) => {
            proof {
                lemma_group_view(*puvec);
            }
            capturing_match(
                is_a_match,
                str_cursor,
                puvec,
                input_line,
                backreferences,
                current_group_index,
                shd_increase_current_group_index,
                &next_pattern,
                Ghost(fuel),
            )
        },
        PatternUnit::NonCapturingGroup(puvec) => {
            proof {
                lemma_group_view(*puvec);
            }
            noncapturing_match(
                is_a_match,
                str_cursor,
                puvec,
                input_line,
                backreferences,
                current_group_index,
                shd_increase_current_group_index,
                &next_pattern,
                Ghost(fuel),
            )
        },
        PatternUnit::BackReference(index) => backreference_match(
            is_a_match,
            str_cursor,
            *index,
            input_line,
            is_starting_pattern,
            is_ending_pattern,
            backreferences,
            current_group_index,
            shd_increase_current_group_index,
            &next_pattern,
            Ghost(fuel),
        ),
    }
}

/// Both sides of an alternation (see `alternation`).
pub fn alternation_match(
    is_a_match: &mut bool,
    str_cursor: &mut usize,
    pu1: &PatternUnit,
    pu2: &PatternUnit,
    input_line: &str,
    is_starting_pattern: bool,
    is_ending_pattern: bool,
    backreferences: &mut Vec<Vec<u8>>,
    current_group_index: &mut usize,
    shd_increase_current_group_index: &mut bool,
    next_pattern: &Option<PatternUnit>,
    Ghost(fuel): Ghost<nat>,
)
    requires
        alternation(
            fuel,
            pu1@,
            pu2@,
            text_of(input_line),
            is_starting_pattern,
            is_ending_pattern,
            *old(shd_increase_current_group_index),
            option_view(*next_pattern),
            mstate(
                *old(is_a_match),
                *old(str_cursor),
                old(backreferences)@,
                *old(current_group_index),
            ),
        ) is Some,
    ensures
        alternation(
            fuel,
            pu1@,
            pu2@,
            text_of(input_line),
            is_starting_pattern,
            is_ending_pattern,
            *old(shd_increase_current_group_index),
            option_view(*next_pattern),
            mstate(
                *old(is_a_match),
                *old(str_cursor),
                old(backreferences)@,
                *old(current_group_index),
            ),
        ) == Some(
            mstate(
                *final(is_a_match),
                *final(str_cursor),
                final(backreferences)@,
                *final(current_group_index),
            ),
        ),
        *final(shd_increase_current_group_index) == *old(shd_increase_current_group_index),
    decreases fuel, 1nat,
{
    let mut is_local_match1: bool = true;
    let mut is_local_match2: bool = true;
    let mut str_cursor_cpy1 = *str_cursor;
    let mut str_cursor_cpy2 = *str_cursor;
    match_unitary_pattern(
        &mut is_local_match1,
        &mut str_cursor_cpy1,
        pu1,
        input_line,
        is_starting_pattern,
        is_ending_pattern,
        backreferences,
        current_group_index,
        shd_increase_current_group_index,
        clone_option(next_pattern),
        Ghost((fuel - 1) as nat),
    );
    match_unitary_pattern(
        &mut is_local_match2,
        &mut str_cursor_cpy2,
        pu2,
        input_line,
        is_starting_pattern,
        is_ending_pattern,
        backreferences,
        current_group_index,
        shd_increase_current_group_index,
        clone_option(next_pattern),
        Ghost((fuel - 1) as nat),
    );
    if is_local_match1 {
        *str_cursor = str_cursor_cpy1;
    } else if is_local_match2 {
        *str_cursor = str_cursor_cpy2;
    }
    *is_a_match = is_local_match1 || is_local_match2;
}

/// A back reference (see `backreference`).
fn backreference_match(
    is_a_match: &mut bool,
    str_cursor: &mut usize,
    index: u16,
    input_line: &str,
    is_starting_pattern: bool,
    is_ending_pattern: bool,
    backreferences: &mut Vec<Vec<u8>>,
    current_group_index: &mut usize,
    shd_increase_current_group_index: &mut bool,
    next_pattern: &Option<PatternUnit>,
    Ghost(fuel): Ghost<nat>,
)
    requires
        backreference(
            fuel,
            index,
            text_of(input_line),
            is_starting_pattern,
            is_ending_pattern,
            *old(shd_increase_current_group_index),
            option_view(*next_pattern),
            mstate(
                *old(is_a_match),
                *old(str_cursor),
                old(backreferences)@,
                *old(current_group_index),
            ),
        ) is Some,
    ensures
        backreference(
            fuel,
            index,
            text_of(input_line),
            is_starting_pattern,
            is_ending_pattern,
            *old(shd_increase_current_group_index),
            option_view(*next_pattern),
            mstate(
                *old(is_a_match),
                *old(str_cursor),
                old(backreferences)@,
                *old(current_group_index),
            ),
        ) == Some(
            mstate(
                *final(is_a_match),
                *final(str_cursor),
                final(backreferences)@,
                *final(current_group_index),
            ),
        ),
        *final(shd_increase_current_group_index) == *old(shd_increase_current_group_index),
    decreases fuel, 1nat,
{
    let i = (index - 1) as usize;
    let text = PatternUnit::PlainText(copy_capture(&backreferences[i]));
    let mut is_local_match: bool = true;
    match_unitary_pattern(
        &mut is_local_match,
        str_cursor,
        &text,
        input_line,
        is_starting_pattern,
        is_ending_pattern,
        backreferences,
        current_group_index,
        shd_increase_current_group_index,
        clone_option(next_pattern),
        Ghost((fuel - 1) as nat),
    );
    if !is_local_match {
        *is_a_match = false;
    }
}

/// The repetition of a nested `+` or `*` (see `nested_repeat`).
fn nested_repeat_match(
    is_a_match: &mut bool,
    str_cursor: &mut usize,
    is_local_match: bool,
    pu: &PatternUnit,
    input_line: &str,
    is_starting_pattern: bool,
    is_ending_pattern: bool,
    backreferences: &mut Vec<Vec<u8>>,
    current_group_index: &mut usize,
    next_pattern: &Option<PatternUnit>,
    lookahead: bool,
    Ghost(fuel): Ghost<nat>,
)
    requires
        nested_repeat(
            fuel,
            pu@,
            text_of(input_line),
            is_starting_pattern,
            is_ending_pattern,
            option_view(*next_pattern),
            lookahead,
            *old(is_a_match),
            mstate(is_local_match, *old(str_cursor), old(backreferences)@, *old(current_group_index)),
        ) is Some,
    ensures
        nested_repeat(
            fuel,
            pu@,
            text_of(input_line),
            is_starting_pattern,
            is_ending_pattern,
            option_view(*next_pattern),
            lookahead,
            *old(is_a_match),
            mstate(is_local_match, *old(str_cursor), old(backreferences)@, *old(current_group_index)),
        ) == Some(
            mstate(
                *final(is_a_match),
                *final(str_cursor),
                final(backreferences)@,
                *final(current_group_index),
            ),
        ),
    decreases fuel, 0nat,
{
    let ghost t = text_of(input_line);
    let ghost nxv = option_view(*next_pattern);
    let ghost fin = nested_repeat(
        fuel,
        pu@,
        t,
        is_starting_pattern,
        is_ending_pattern,
        nxv,
        lookahead,
        *is_a_match,
        mstate(is_local_match, *str_cursor, backreferences@, *current_group_index),
    )->0;
    let n = input_line.as_bytes().len();
    let ncg = is_neg_group_exec(pu);
    let mut lm = is_local_match;
    let ghost mut lf: nat = fuel;
    let mut no_increase = false;
    while lm
        invariant_except_break
            nested_repeat(
                lf,
                pu@,
                t,
                is_starting_pattern,
                is_ending_pattern,
                nxv,
                lookahead,
                *is_a_match,
                mstate(lm, *str_cursor, backreferences@, *current_group_index),
            ) == Some(fin),
        invariant
            t == text_of(input_line),
            nxv == option_view(*next_pattern),
            n == byte_len(t),
            ncg == is_neg_char_group(pu@),
            no_increase == false,
            lf <= fuel,
        ensures
            mstate(*is_a_match, *str_cursor, backreferences@, *current_group_index) == fin,
        decreases lf,
    {
        if lookahead && ncg {
            let mut is_match_temp: bool = true;
            let mut str_cursor_temp: usize = *str_cursor;
            match next_pattern {
                Some(lpu) => {
                    match_unitary_pattern(
                        &mut is_match_temp,
                        &mut str_cursor_temp,
                        lpu,
                        input_line,
                        false,
                        false,
                        backreferences,
                        current_group_index,
                        &mut no_increase,
                        clone_option(next_pattern),
                        Ghost((lf - 1) as nat),
                    );
                },
                None => {},
            }
            if is_match_temp {
                break ;
            }
        }
        match_unitary_pattern(
            &mut lm,
            str_cursor,
            pu,
            input_line,
            is_starting_pattern,
            is_ending_pattern,
            backreferences,
            current_group_index,
            &mut no_increase,
            clone_option(next_pattern),
            Ghost((lf - 1) as nat),
        );
        if *str_cursor > n - 1 {
            break ;
        }
        if ncg && *str_cursor + 1 > n - 1 {
            *is_a_match = lm;
            break ;
        }
        proof {
            lf = (lf - 1) as nat;
        }
    }
}

/// A nested `+` (see `nested_plus`).
fn nested_plus_match(
    is_a_match: &mut bool,
    str_cursor: &mut usize,
    pu: &PatternUnit,
    input_line: &str,
    is_starting_pattern: bool,
    is_ending_pattern: bool,
    backreferences: &mut Vec<Vec<u8>>,
    current_group_index: &mut usize,
    shd_increase_current_group_index: &mut bool,
    next_pattern: &Option<PatternUnit>,
    Ghost(fuel): Ghost<nat>,
)
    requires
        nested_plus(
            fuel,
            pu@,
            text_of(input_line),
            is_starting_pattern,
            is_ending_pattern,
            *old(shd_increase_current_group_index),
            option_view(*next_pattern),
            mstate(
                *old(is_a_match),
                *old(str_cursor),
                old(backreferences)@,
                *old(current_group_index),
            ),
        ) is Some,
    ensures
        nested_plus(
            fuel,
            pu@,
            text_of(input_line),
            is_starting_pattern,
            is_ending_pattern,
            *old(shd_increase_current_group_index),
            option_view(*next_pattern),
            mstate(
                *old(is_a_match),
                *old(str_cursor),
                old(backreferences)@,
                *old(current_group_index),
            ),
        ) == Some(
            mstate(
                *final(is_a_match),
                *final(str_cursor),
                final(backreferences)@,
                *final(current_group_index),
            ),
        ),
        *final(shd_increase_current_group_index) == *old(shd_increase_current_group_index),
    decreases fuel, 1nat,
{
    let mut is_local_match: bool = true;
    match_unitary_pattern(
        &mut is_local_match,
        str_cursor,
        pu,
        input_line,
        is_starting_pattern,
        is_ending_pattern,
        backreferences,
        current_group_index,
        shd_increase_current_group_index,
        clone_option(next_pattern),
        Ghost((fuel - 1) as nat),
    );
    let n = input_line.as_bytes().len();
    if *str_cursor <= n - 1 {
        let ncg = is_neg_group_exec(pu);
        if ncg && *str_cursor + 1 > n - 1 {
            *is_a_match = is_local_match;
        }
        if !is_local_match {
            *is_a_match = is_local_match;
        }
        if ncg {
            let mut is_match_temp: bool = true;
            let mut str_cursor_temp: usize = *str_cursor;
            let mut no_increase = false;
            match next_pattern {
                Some(lpu) => {
                    match_unitary_pattern(
                        &mut is_match_temp,
                        &mut str_cursor_temp,
                        lpu,
                        input_line,
                        false,
                        false,
                        backreferences,
                        current_group_index,
                        &mut no_increase,
                        clone_option(next_pattern),
                        Ghost((fuel - 1) as nat),
                    );
                },
                None => {},
            }
            if !is_match_temp {
                nested_repeat_match(
                    is_a_match,
                    str_cursor,
                    is_local_match,
                    pu,
                    input_line,
                    is_starting_pattern,
                    is_ending_pattern,
                    backreferences,
                    current_group_index,
                    next_pattern,
                    true,
                    Ghost((fuel - 1) as nat),
                );
            }
        } else {
            nested_repeat_match(
                is_a_match,
                str_cursor,
                is_local_match,
                pu,
                input_line,
                is_starting_pattern,
                is_ending_pattern,
                backreferences,
                current_group_index,
                next_pattern,
                true,
                Ghost((fuel - 1) as nat),
            );
        }
    }
}

/// A nested `*` (see `nested_star`).
fn nested_star_match(
    is_a_match: &mut bool,
    str_cursor: &mut usize,
    pu: &PatternUnit,
    input_line: &str,
    is_starting_pattern: bool,
    is_ending_pattern: bool,
    backreferences: &mut Vec<Vec<u8>>,
    current_group_index: &mut usize,
    shd_increase_current_group_index: &mut bool,
    next_pattern: &Option<PatternUnit>,
    Ghost(fuel): Ghost<nat>,
)
    requires
        nested_star(
            fuel,
            pu@,
            text_of(input_line),
            is_starting_pattern,
            is_ending_pattern,
            *old(shd_increase_current_group_index),
            option_view(*next_pattern),
            mstate(
                *old(is_a_match),
                *old(str_cursor),
                old(backreferences)@,
                *old(current_group_index),
            ),
        ) is Some,
    ensures
        nested_star(
            fuel,
            pu@,
            text_of(input_line),
            is_starting_pattern,
            is_ending_pattern,
            *old(shd_increase_current_group_index),
            option_view(*next_pattern),
            mstate(
                *old(is_a_match),
                *old(str_cursor),
                old(backreferences)@,
                *old(current_group_index),
            ),
        ) == Some(
            mstate(
                *final(is_a_match),
                *final(str_cursor),
                final(backreferences)@,
                *final(current_group_index),
            ),
        ),
        *final(shd_increase_current_group_index) == *old(shd_increase_current_group_index),
    decreases fuel, 1nat,
{
    let mut is_local_match: bool = true;
    match_unitary_pattern(
        &mut is_local_match,
        str_cursor,
        pu,
        input_line,
        is_starting_pattern,
        is_ending_pattern,
        backreferences,
        current_group_index,
        shd_increase_current_group_index,
        clone_option(next_pattern),
        Ghost((fuel - 1) as nat),
    );
    let n = input_line.as_bytes().len();
    if *str_cursor <= n - 1 {
        let ncg = is_neg_group_exec(pu);
        if ncg && *str_cursor + 1 > n - 1 {
            *is_a_match = is_local_match;
        }
        nested_repeat_match(
            is_a_match,
            str_cursor,
            is_local_match,
            pu,
            input_line,
            is_starting_pattern,
            is_ending_pattern,
            backreferences,
            current_group_index,
            next_pattern,
            false,
            Ghost((fuel - 1) as nat),
        );
    }
}

/// The children of a group, one after the other (see `group_loop`); gives
/// whether the group matched.
pub fn group_loop_match(
    is_a_match: &mut bool,
    str_cursor: &mut usize,
    puvec: &Vec<PatternUnit>,
    input_line: &str,
    backreferences: &mut Vec<Vec<u8>>,
    current_group_index: &mut usize,
    shd_increase_current_group_index: &mut bool,
    next_pattern: &Option<PatternUnit>,
    capturing: bool,
    Ghost(fuel): Ghost<nat>,
) -> (lm: bool)
    requires
        group_loop(
            fuel,
            units_view(puvec@),
            0,
            text_of(input_line),
            *old(shd_increase_current_group_index),
            option_view(*next_pattern),
            capturing,
            true,
            mstate(
                *old(is_a_match),
                *old(str_cursor),
                old(backreferences)@,
                *old(current_group_index),
            ),
        ) is Some,
    ensures
        group_loop(
            fuel,
            units_view(puvec@),
            0,
            text_of(input_line),
            *old(shd_increase_current_group_index),
            option_view(*next_pattern),
            capturing,
            true,
            mstate(
                *old(is_a_match),
                *old(str_cursor),
                old(backreferences)@,
                *old(current_group_index),
            ),
        ) == Some(
            (
                lm,
                mstate(
                    *final(is_a_match),
                    *final(str_cursor),
                    final(backreferences)@,
                    *final(current_group_index),
                ),
            ),
        ),
        *final(shd_increase_current_group_index) == *old(shd_increase_current_group_index),
    decreases fuel, 0nat,
{
    let ghost t = text_of(input_line);
    let ghost nxv = option_view(*next_pattern);
    let ghost ch = units_view(puvec@);
    let ghost inc = *shd_increase_current_group_index;
    let ghost fin = group_loop(
        fuel,
        ch,
        0,
        t,
        inc,
        nxv,
        capturing,
        true,
        mstate(*is_a_match, *str_cursor, backreferences@, *current_group_index),
    )->0;
    let n = input_line.as_bytes().len();
    let mut is_local_match: bool = true;
    let mut i: usize = 0;
    let ghost mut lf: nat = fuel;
    while i < puvec.len()
        invariant_except_break
            group_loop(
                lf,
                ch,
                i as nat,
                t,
                inc,
                nxv,
                capturing,
                is_local_match,
                mstate(*is_a_match, *str_cursor, backreferences@, *current_group_index),
            ) == Some(fin),
        invariant
            t == text_of(input_line),
            nxv == option_view(*next_pattern),
            ch == units_view(puvec@),
            inc == *shd_increase_current_group_index,
            n == byte_len(t),
            i <= puvec.len(),
            lf <= fuel,
        ensures
            (is_local_match, mstate(*is_a_match, *str_cursor, backreferences@, *current_group_index))
                == fin,
        decreases puvec.len() - i,
    {
        let local_next_pattern = if i + 1 <= puvec.len() - 1 {
            Some(clone_unit(&puvec[i + 1]))
        } else {
            clone_option(next_pattern)
        };
        is_local_match = true;
        if capturing && *str_cursor >= n {
            is_local_match = false;
            *is_a_match = false;
            break ;
        }
        match_unitary_pattern(
            &mut is_local_match,
            str_cursor,
            &puvec[i],
            input_line,
            false,
            false,
            backreferences,
            current_group_index,
            shd_increase_current_group_index,
            local_next_pattern,
            Ghost((lf - 1) as nat),
        );
        if !is_local_match {
            *is_a_match = false;
            break ;
        }
        i = i + 1;
        proof {
            lf = (lf - 1) as nat;
        }
    }
    is_local_match
}

/// A nested capturing group (see `nested_capturing`).
fn capturing_match(
    is_a_match: &mut bool,
    str_cursor: &mut usize,
    puvec: &Vec<PatternUnit>,
    input_line: &str,
    backreferences: &mut Vec<Vec<u8>>,
    current_group_index: &mut usize,
    shd_increase_current_group_index: &mut bool,
    next_pattern: &Option<PatternUnit>,
    Ghost(fuel): Ghost<nat>,
)
    requires
        nested_capturing(
            fuel,
            units_view(puvec@),
            text_of(input_line),
            *old(shd_increase_current_group_index),
            option_view(*next_pattern),
            mstate(
                *old(is_a_match),
                *old(str_cursor),
                old(backreferences)@,
                *old(current_group_index),
            ),
        ) is Some,
    ensures
        nested_capturing(
            fuel,
            units_view(puvec@),
            text_of(input_line),
            *old(shd_increase_current_group_index),
            option_view(*next_pattern),
            mstate(
                *old(is_a_match),
                *old(str_cursor),
                old(backreferences)@,
                *old(current_group_index),
            ),
        ) == Some(
            mstate(
                *final(is_a_match),
                *final(str_cursor),
                final(backreferences)@,
                *final(current_group_index),
            ),
        ),
        *final(shd_increase_current_group_index) == *old(shd_increase_current_group_index),
    decreases fuel, 1nat,
{
    let str_cursor_start = *str_cursor;
    if *shd_increase_current_group_index {
        *current_group_index = *current_group_index + 1;
    }
    let this_group_index = *current_group_index;
    let bytes = input_line.as_bytes();
    let n = bytes.len();
    if *str_cursor < n {
        let is_local_match = group_loop_match(
            is_a_match,
            str_cursor,
            puvec,
            input_line,
            backreferences,
            current_group_index,
            shd_increase_current_group_index,
            next_pattern,
            true,
            Ghost((fuel - 1) as nat),
        );
        if is_local_match {
            let ghost before = backreferences@;
            let captured = copy_bytes(bytes, str_cursor_start, *str_cursor);
            backreferences.set(this_group_index - 1, captured);
            proof {
                assert(backrefs_view(backreferences@) =~= backrefs_view(before).update(
                    this_group_index - 1,
                    captured@,
                ));
            }
        }
    } else {
        *is_a_match = false;
    }
}

/// A nested non-capturing group (see `nested_noncapturing`).
fn noncapturing_match(
    is_a_match: &mut bool,
    str_cursor: &mut usize,
    puvec: &Vec<PatternUnit>,
    input_line: &str,
    backreferences: &mut Vec<Vec<u8>>,
    current_group_index: &mut usize,
    shd_increase_current_group_index: &mut bool,
    next_pattern: &Option<PatternUnit>,
    Ghost(fuel): Ghost<nat>,
)
    requires
        nested_noncapturing(
            fuel,
            units_view(puvec@),
            text_of(input_line),
            *old(shd_increase_current_group_index),
            option_view(*next_pattern),
            mstate(
                *old(is_a_match),
                *old(str_cursor),
                old(backreferences)@,
                *old(current_group_index),
            ),
        ) is Some,
    ensures
        nested_noncapturing(
            fuel,
            units_view(puvec@),
            text_of(input_line),
            *old(shd_increase_current_group_index),
            option_view(*next_pattern),
            mstate(
                *old(is_a_match),
                *old(str_cursor),
                old(backreferences)@,
                *old(current_group_index),
            ),
        ) == Some(
            mstate(
                *final(is_a_match),
                *final(str_cursor),
                final(backreferences)@,
                *final(current_group_index),
            ),
        ),
        *final(shd_increase_current_group_index) == *old(shd_increase_current_group_index),
    decreases fuel, 1nat,
{
    let n = input_line.as_bytes().len();
    if *str_cursor < n {
        group_loop_match(
            is_a_match,
            str_cursor,
            puvec,
            input_line,
            backreferences,
            current_group_index,
            shd_increase_current_group_index,
            next_pattern,
            false,
            Ghost((fuel - 1) as nat),
        );
    }
}

} // verus!

//! The length covered by the unit anchored at the end of a pattern.
use vstd::prelude::*;
use crate::unit::{PatternUnit, lemma_group_view, units_view};
use crate::semantics::{last_spacing, spacing_sum};

verus! {

/// `spacing_sum` over a prefix: when the whole sum can be taken, so can the
/// sum of every prefix and the spacing of every child.
pub proof fn lemma_spacing_sum_prefix(ch: Seq<crate::unit::Unit>, i: int)
    requires
        spacing_sum(ch) is Some,
        0 <= i <= ch.len(),
    ensures
        spacing_sum(ch.take(i)) is Some,
        i < ch.len() ==> last_spacing(ch[i]) is Some,
        i < ch.len() ==> spacing_sum(ch.take(i + 1)) == Some(
            (spacing_sum(ch.take(i))->0 + last_spacing(ch[i])->0) as u32,
        ),
        i < ch.len() ==> spacing_sum(ch.take(i))->0 + last_spacing(ch[i])->0 <= u32::MAX,
    decreases ch.len() - i,
{
    if i == ch.len() {
        assert(ch.take(i) =~= ch);
    } else {
        lemma_spacing_sum_prefix(ch, i + 1);
        let t = ch.take(i + 1);
        assert(t.drop_last() =~= ch.take(i));
        assert(t.last() == ch[i]);
    }
}

/// How far back from the end of the input the unit anchored at the end is
/// matched when no other unit moved the cursor.
pub fn ending_pattern_last_spacing(pattern_unit: &PatternUnit) -> (length: u32)
    requires
        last_spacing(pattern_unit@) is Some,
    ensures
        length == last_spacing(pattern_unit@)->0,
    decreases *pattern_unit,
{
    match pattern_unit {
        PatternUnit::PlainText(text) => (text.len() - 1) as u32,
        PatternUnit::OneOrMore(pu) => ending_pattern_last_spacing(pu),
        PatternUnit::ZeroOrMore(pu) => ending_pattern_last_spacing(pu),
        PatternUnit::ZeroOrOne(pu) => ending_pattern_last_spacing(pu),
        PatternUnit::Alternation(p) => {
            let val1 = ending_pattern_last_spacing(&p.0);
            let val2 = ending_pattern_last_spacing(&p.1);
            if val1 >= val2 {
                val1
            } else {
                val2
            }
        },
        PatternUnit::CapturingGroup(puvec) => {
            proof {
                lemma_group_view(*puvec);
            }
            group_spacing(puvec)
        },
        PatternUnit::NonCapturingGroup(puvec) => {
            proof {
                lemma_group_view(*puvec);
            }
            group_spacing(puvec)
        },
        _ => 1,
    }
}

/// The sum of the spacings of a group's children.
fn group_spacing(puvec: &Vec<PatternUnit>) -> (length: u32)
    requires
        spacing_sum(units_view(puvec@)) is Some,
    ensures
        length == spacing_sum(units_view(puvec@))->0,
    decreases puvec@,
{
    let ghost ch = units_view(puvec@);
    let mut length: u32 = 0;
    let mut i: usize = 0;
    proof {
        assert(ch.take(0) =~= Seq::<crate::unit::Unit>::empty());
    }
    while i < puvec.len()
        invariant
            ch == units_view(puvec@),
            spacing_sum(ch) is Some,
            i <= puvec.len(),
            spacing_sum(ch.take(i as int)) == Some(length),
        decreases puvec.len() - i,
    {
        proof {
            lemma_spacing_sum_prefix(ch, i as int);
        }
        let x = ending_pattern_last_spacing(&puvec[i]);
        length = length + x;
        i = i + 1;
    }
    proof {
        assert(ch.take(i as int) =~= ch);
    }
    length
}

} // verus!

use vstd::prelude::*;

verus! {

/// The mathematical model of a compiled pattern unit.
pub enum Unit {
    Digit,
    AlphaNumeric,
    /// Literal text, held as its UTF-8 bytes.
    PlainText(Seq<u8>),
    CharGroup(Seq<char>),
    NegCharGroup(Seq<char>),
    OneOrMore(Box<Unit>),
    ZeroOrMore(Box<Unit>),
    ZeroOrOne(Box<Unit>),
    Wildcard,
    Alternation(Box<Unit>, Box<Unit>),
    CapturingGroup(Seq<Unit>),
    NonCapturingGroup(Seq<Unit>),
    BackReference(u16),
}

/// A compiled pattern unit.
#[derive(Debug, PartialEq)]
pub enum PatternUnit {
    Digit,
    AlphaNumeric,
    /// Literal text, held as its UTF-8 bytes.
    PlainText(Vec<u8>),
    CharGroup(Vec<char>),
    NegCharGroup(Vec<char>),
    OneOrMore(Box<PatternUnit>),
    ZeroOrMore(Box<PatternUnit>),
    ZeroOrOne(Box<PatternUnit>),
    Wildcard,
    Alternation((Box<PatternUnit>, Box<PatternUnit>)),
    CapturingGroup(Vec<PatternUnit>),
    NonCapturingGroup(Vec<PatternUnit>),
    BackReference(u16),
}

pub open spec fn unit_view(u: PatternUnit) -> Unit
    decreases u,
{
    match u {
        PatternUnit::Digit => Unit::Digit,
        PatternUnit::AlphaNumeric => Unit::AlphaNumeric,
        PatternUnit::PlainText(t) => Unit::PlainText(t@),
        PatternUnit::CharGroup(g) => Unit::CharGroup(g@),
        PatternUnit::NegCharGroup(g) => Unit::NegCharGroup(g@),
        PatternUnit::OneOrMore(b) => Unit::OneOrMore(Box::new(unit_view(*b))),
        PatternUnit::ZeroOrMore(b) => Unit::ZeroOrMore(Box::new(unit_view(*b))),
        PatternUnit::ZeroOrOne(b) => Unit::ZeroOrOne(Box::new(unit_view(*b))),
        PatternUnit::Wildcard => Unit::Wildcard,
        PatternUnit::Alternation(p) => Unit::Alternation(
            Box::new(unit_view(*p.0)),
            Box::new(unit_view(*p.1)),
        ),
        PatternUnit::CapturingGroup(v) => Unit::CapturingGroup(
            Seq::new(
                v@.len(),
                |i: int|
                    if 0 <= i < v@.len() {
                        unit_view(v@[i])
                    } else {
                        Unit::Wildcard
                    },
            ),
        ),
        PatternUnit::NonCapturingGroup(v) => Unit::NonCapturingGroup(
            Seq::new(
                v@.len(),
                |i: int|
                    if 0 <= i < v@.len() {
                        unit_view(v@[i])
                    } else {
                        Unit::Wildcard
                    },
            ),
        ),
        PatternUnit::BackReference(n) => Unit::BackReference(n),
    }
}

/// The model of a sequence of units.
pub open spec fn units_view(s: Seq<PatternUnit>) -> Seq<Unit> {
    Seq::new(s.len(), |i: int| unit_view(s[i]))
}

impl View for PatternUnit {
    type V = Unit;

    open spec fn view(&self) -> Unit {
        unit_view(*self)
    }
}

pub open spec fn option_view(o: Option<PatternUnit>) -> Option<Unit> {
    match o {
        Some(u) => Some(u@),
        None => None,
    }
}

pub open spec fn is_neg_char_group(u: Unit) -> bool {
    u is NegCharGroup
}

pub open spec fn is_wildcard(u: Unit) -> bool {
    u is Wildcard
}

/// The model of a capturing or non-capturing group is the model of its children.
pub proof fn lemma_group_view(v: Vec<PatternUnit>)
    ensures
        PatternUnit::CapturingGroup(v)@ == Unit::CapturingGroup(units_view(v@)),
        PatternUnit::NonCapturingGroup(v)@ == Unit::NonCapturingGroup(units_view(v@)),
{
    let a = PatternUnit::CapturingGroup(v)@;
    let b = PatternUnit::NonCapturingGroup(v)@;
    assert(a->CapturingGroup_0 =~= units_view(v@));
    assert(b->NonCapturingGroup_0 =~= units_view(v@));
}

pub proof fn lemma_units_view_push(s: Seq<PatternUnit>, x: PatternUnit)
    ensures
        units_view(s.push(x)) == units_view(s).push(x@),
{
    assert(units_view(s.push(x)) =~= units_view(s).push(x@));
}

/// Copies a sequence of units.
pub fn clone_units(v: &Vec<PatternUnit>) -> (r: Vec<PatternUnit>)
    ensures
        units_view(r@) == units_view(v@),
    decreases v@, 0int,
{
    let mut r: Vec<PatternUnit> = Vec::new();
    let mut i: usize = 0;
    while i < v.len()
        invariant
            i <= v.len(),
            r@.len() == i,
            forall|j: int| 0 <= j < i ==> unit_view(#[trigger] r@[j]) == unit_view(v@[j]),
        decreases v.len() - i,
    {
        let c = clone_unit(&v[i]);
        r.push(c);
        i = i + 1;
    }
    assert(units_view(r@) =~= units_view(v@));
    r
}

/// Copies a unit.
pub fn clone_unit(u: &PatternUnit) -> (r: PatternUnit)
    ensures
        r@ == u@,
    decreases *u, 1int,
{
    match u {
        PatternUnit::Digit => PatternUnit::Digit,
        PatternUnit::AlphaNumeric => PatternUnit::AlphaNumeric,
        PatternUnit::PlainText(t) => PatternUnit::PlainText(t.clone()),
        PatternUnit::CharGroup(g) => PatternUnit::CharGroup(g.clone()),
        PatternUnit::NegCharGroup(g) => PatternUnit::NegCharGroup(g.clone()),
        PatternUnit::OneOrMore(b) => PatternUnit::OneOrMore(Box::new(clone_unit(b))),
        PatternUnit::ZeroOrMore(b) => PatternUnit::ZeroOrMore(Box::new(clone_unit(b))),
        PatternUnit::ZeroOrOne(b) => PatternUnit::ZeroOrOne(Box::new(clone_unit(b))),
        PatternUnit::Wildcard => PatternUnit::Wildcard,
        PatternUnit::Alternation(p) => PatternUnit::Alternation(
            (Box::new(clone_unit(&p.0)), Box::new(clone_unit(&p.1))),
        ),
        PatternUnit::CapturingGroup(v) => {
            let r = clone_units(v);
            proof {
                lemma_group_view(r);
                lemma_group_view(*v);
            }
            PatternUnit::CapturingGroup(r)
        },
        PatternUnit::NonCapturingGroup(v) => {
            let r = clone_units(v);
            proof {
                lemma_group_view(r);
                lemma_group_view(*v);
            }
            PatternUnit::NonCapturingGroup(r)
        },
        PatternUnit::BackReference(n) => PatternUnit::BackReference(*n),
    }
}

/// Copies an optional unit.
pub fn clone_option(o: &Option<PatternUnit>) -> (r: Option<PatternUnit>)
    ensures
        option_view(r) == option_view(*o),
{
    match o {
        Some(u) => Some(clone_unit(u)),
        None => None,
    }
}

} // verus!

//! Compiling a pattern into units.
use vstd::prelude::*;
use crate::unit::{PatternUnit, Unit, clone_unit, lemma_group_view, lemma_units_view_push, units_view, option_view};
use crate::groups::{
    Assembly, CurrentAlternationInfo, add_child_groupto_group, add_pattern_unit,
    find_and_push_to_alternation_group,
};
use crate::grammar::{
    Parse, add_part, flush, close_alternation, alternation_of, clear_sides, quantifier_at,
    quantified, add_quantified, escape_unit, find_close, step, lemma_step_advances,
    lemma_find_close, parse_loop, parse, has_start, has_end, initial_parse, finish, plain,
    is_quantifier,
};
use crate::semantics::Compiled;
use crate::encode::encode_chars;

verus! {

/// A compiled pattern.
#[derive(Debug)]
pub struct CompiledPattern {
    pub parts: Vec<PatternUnit>,
    pub start: Option<PatternUnit>,
    pub end: Option<PatternUnit>,
    pub groups: usize,
}

impl View for CompiledPattern {
    type V = Compiled;

    open spec fn view(&self) -> Compiled {
        Compiled {
            parts: units_view(self.parts@),
            start: option_view(self.start),
            end: option_view(self.end),
            groups: self.groups as nat,
        }
    }
}

/// The compiler's state.
pub struct Compiler {
    pub k: usize,
    pub text_buffer: Vec<char>,
    pub pattern_parts: Vec<PatternUnit>,
    pub pattern_parts_group: PatternUnit,
    pub depth: i32,
    pub is_alternation: bool,
    pub is_first_alternation: bool,
    pub info: CurrentAlternationInfo,
    pub groups: usize,
}

impl Compiler {
    pub open spec fn model(&self) -> Parse {
        Parse {
            k: self.k as int,
            text: self.text_buffer@,
            assembly: Assembly {
                parts: units_view(self.pattern_parts@),
                group: self.pattern_parts_group@,
                group1: units_view(self.info.group1@),
                group2: units_view(self.info.group2@),
                first_alternation: self.is_first_alternation,
            },
            depth: self.depth as int,
            is_alternation: self.is_alternation,
            groups: self.groups as nat,
        }
    }

    /// Adds a unit where it belongs.
    fn add(&mut self, u: PatternUnit)
        requires
            add_part(old(self).model(), u@) is Some,
        ensures
            final(self).model() == add_part(old(self).model(), u@)->0,
    {
        add_pattern_unit(
            &mut self.is_alternation,
            u,
            &mut self.pattern_parts,
            self.depth,
            -1,
            &mut self.pattern_parts_group,
            &mut self.info,
            &mut self.is_first_alternation,
        );
    }

    /// Turns the pending literal text into a unit.
    fn flush(&mut self)
        requires
            flush(old(self).model()) is Some,
        ensures
            final(self).model() == flush(old(self).model())->0,
    {
        if self.text_buffer.len() > 0 {
            let bytes = encode_chars(&self.text_buffer);
            self.text_buffer = Vec::new();
            self.add(PatternUnit::PlainText(bytes));
        }
    }

    /// Closes an open alternation.
    fn close_alternation(&mut self)
        requires
            close_alternation(old(self).model()) is Some,
        ensures
            final(self).model() == close_alternation(old(self).model())->0,
    {
        if self.is_alternation {
            self.is_alternation = false;
            let alt = self.alternation_unit();
            self.add(alt);
            self.info.group1 = Vec::new();
            self.info.group2 = Vec::new();
            proof {
                assert(units_view(self.info.group1@) =~= Seq::<Unit>::empty());
                assert(units_view(self.info.group2@) =~= Seq::<Unit>::empty());
            }
        }
    }

    /// Adds `u`, repeated if a quantifier stands at position `j`.
    fn add_quantified(&mut self, pat: &Vec<char>, u: PatternUnit, j: usize)
        requires
            add_quantified(pat@, old(self).model(), u@, j as int) is Some,
            old(self).k == j,
        ensures
            final(self).model() == add_quantified(pat@, old(self).model(), u@, j as int)->0,
    {
        if j < pat.len() && (pat[j] == '+' || pat[j] == '*' || pat[j] == '?') {
            let q = pat[j];
            self.k = self.k + 1;
            let w = if q == '+' {
                PatternUnit::OneOrMore(Box::new(u))
            } else if q == '*' {
                PatternUnit::ZeroOrMore(Box::new(u))
            } else {
                PatternUnit::ZeroOrOne(Box::new(u))
            };
            self.add(w);
        } else {
            self.add(u);
        }
    }

    /// `\\` at position `k`: an escape.
    fn step_escape(&mut self, pat: &Vec<char>)
        requires
            old(self).k < pat.len(),
            pat@[old(self).k as int] == '\\',
            step(pat@, old(self).model()) is Some,
        ensures
            final(self).model() == step(pat@, old(self).model())->0,
    {
        let k = self.k;
        self.flush();
        let d = pat[k + 1];
        if d == 'd' || d == 'w' || ('1' <= d && d <= '8') {
            let u = if d == 'd' {
                PatternUnit::Digit
            } else if d == 'w' {
                PatternUnit::AlphaNumeric
            } else {
                PatternUnit::BackReference((d as u32 - 48) as u16)
            };
            self.k = k + 2;
            self.add_quantified(pat, u, k + 2);
        } else {
            self.k = k + 1;
        }
    }

    /// `.` at position `k`: the wildcard.
    fn step_dot(&mut self, pat: &Vec<char>)
        requires
            old(self).k < pat.len(),
            pat@[old(self).k as int] == '.',
            step(pat@, old(self).model()) is Some,
        ensures
            final(self).model() == step(pat@, old(self).model())->0,
    {
        let k = self.k;
        self.flush();
        self.k = k + 1;
        self.add_quantified(pat, PatternUnit::Wildcard, k + 1);
    }

    /// `[` at position `k`: a character group, when a `]` closes it.
    fn step_bracket(&mut self, pat: &Vec<char>)
        requires
            old(self).k < pat.len(),
            pat@[old(self).k as int] == '[',
            step(pat@, old(self).model()) is Some,
        ensures
            final(self).model() == step(pat@, old(self).model())->0,
    {
        let k = self.k;
        self.flush();
        let neg = pat[k + 1] == '^';
        let from = if neg {
            k + 2
        } else {
            k + 1
        };
        let mut kp = from;
        let mut block: Vec<char> = Vec::new();
        proof {
            lemma_find_close(pat@, from as int);
        }
        while kp < pat.len() && pat[kp] != ']'
            invariant
                from <= kp <= pat.len(),
                block@ == pat@.subrange(from as int, kp as int),
                forall|j: int| from <= j < kp ==> pat@[j] != ']',
            decreases pat.len() - kp,
        {
            block.push(pat[kp]);
            kp = kp + 1;
            proof {
                assert(block@ =~= pat@.subrange(from as int, kp as int));
            }
        }
        if kp < pat.len() {
            proof {
                lemma_find_close(pat@, from as int);
            }
            let u = if neg {
                PatternUnit::NegCharGroup(block)
            } else {
                PatternUnit::CharGroup(block)
            };
            self.k = kp + 1;
            self.add_quantified(pat, u, kp + 1);
        } else {
            self.k = k + 1;
        }
    }

    /// `|` at position `k`: closes an open alternation and opens a new one.
    fn step_bar(&mut self, pat: &Vec<char>)
        requires
            old(self).k < pat.len(),
            pat@[old(self).k as int] == '|',
            step(pat@, old(self).model()) is Some,
        ensures
            final(self).model() == step(pat@, old(self).model())->0,
    {
        let k = self.k;
        self.flush();
        self.close_alternation();
        self.is_first_alternation = true;
        self.is_alternation = true;
        self.k = k + 1;
    }

    /// `(` at position `k`: opens a group.
    fn step_open(&mut self, pat: &Vec<char>)
        requires
            old(self).k < pat.len(),
            pat@[old(self).k as int] == '(',
            step(pat@, old(self).model()) is Some,
            old(self).groups <= old(self).k,
        ensures
            final(self).model() == step(pat@, old(self).model())->0,
    {
        let k = self.k;
        self.flush();
        self.groups = self.groups + 1;
        if self.depth == -1 {
            let empty: Vec<PatternUnit> = Vec::new();
            proof {
                lemma_group_view(empty);
                assert(units_view(empty@) =~= Seq::<Unit>::empty());
            }
            self.pattern_parts_group = PatternUnit::CapturingGroup(empty);
        } else {
            add_child_groupto_group(&mut self.pattern_parts_group, self.depth, 0);
        }
        self.depth = self.depth + 1;
        self.k = k + 1;
    }

    /// `)` at position `k`: closes a group; a group closed at the top level
    /// becomes a unit (repeated if a quantifier follows).
    fn step_close(&mut self, pat: &Vec<char>)
        requires
            old(self).k < pat.len(),
            pat@[old(self).k as int] == ')',
            step(pat@, old(self).model()) is Some,
        ensures
            final(self).model() == step(pat@, old(self).model())->0,
    {
        let k = self.k;
        self.flush();
        if self.is_alternation {
            self.is_alternation = false;
            let alt = self.alternation_unit();
            find_and_push_to_alternation_group(
                &mut self.pattern_parts_group,
                self.depth,
                0,
                &alt,
                &mut self.info,
            );
            self.info.group1 = Vec::new();
            self.info.group2 = Vec::new();
            proof {
                assert(units_view(self.info.group1@) =~= Seq::<Unit>::empty());
                assert(units_view(self.info.group2@) =~= Seq::<Unit>::empty());
            }
        }
        self.depth = self.depth - 1;
        self.k = k + 1;
        if self.depth == -1 {
            let g = clone_unit(&self.pattern_parts_group);
            self.add_quantified(pat, g, k + 1);
        }
    }

    /// Any other character at position `k`: literal text, or a repeated
    /// literal character when a quantifier follows.
    fn step_literal(&mut self, pat: &Vec<char>)
        requires
            old(self).k < pat.len(),
            step(pat@, old(self).model()) is Some,
            pat@[old(self).k as int] != '\\',
            pat@[old(self).k as int] != '.',
            pat@[old(self).k as int] != '[',
            pat@[old(self).k as int] != '|',
            pat@[old(self).k as int] != '(',
            pat@[old(self).k as int] != ')',
        ensures
            final(self).model() == step(pat@, old(self).model())->0,
    {
        let k = self.k;
        let c = pat[k];
        match quantifier_char(pat, k + 1) {
            None => {
                self.text_buffer.push(c);
                self.k = k + 1;
            },
            Some(q) => {
                assert(quantifier_at(pat@, k + 1) == Some(q));
                self.flush();
                let mut one: Vec<char> = Vec::new();
                one.push(c);
                let bytes = encode_chars(&one);
                proof {
                    assert(one@ =~= seq![c]);
                }
                let text = PatternUnit::PlainText(bytes);
                assert(text@ == plain(seq![c]));
                self.k = k + 2;
                if q == '*' {
                    let ghost before = self.pattern_parts@;
                    let u = PatternUnit::ZeroOrMore(Box::new(text));
                    self.pattern_parts.push(u);
                    proof {
                        lemma_units_view_push(before, u);
                    }
                } else if q == '+' {
                    self.add(PatternUnit::OneOrMore(Box::new(text)));
                } else {
                    self.add(PatternUnit::ZeroOrOne(Box::new(text)));
                }
            },
        }
    }

    /// The alternation of the two sides gathered so far.
    fn alternation_unit(&self) -> (r: PatternUnit)
        ensures
            r@ == alternation_of(self.model().assembly),
    {
        let a = crate::unit::clone_units(&self.info.group1);
        let b = crate::unit::clone_units(&self.info.group2);
        proof {
            lemma_group_view(a);
            lemma_group_view(b);
        }
        PatternUnit::Alternation(
            (Box::new(PatternUnit::NonCapturingGroup(a)), Box::new(PatternUnit::NonCapturingGroup(b))),
        )
    }
}

/// Compiles a pattern (see `parse`).
pub fn compile_pattern(pat: &Vec<char>) -> (r: CompiledPattern)
    requires
        parse(pat@) is Some,
    ensures
        r@ == parse(pat@)->0,
{
    let has_start = pat.len() > 0 && pat[0] == '^';
    let has_end_anchor = pat.len() > 0 && pat[pat.len() - 1] == '$';
    let empty: Vec<PatternUnit> = Vec::new();
    proof {
        lemma_group_view(empty);
        assert(units_view(empty@) =~= Seq::<Unit>::empty());
    }
    let mut c = Compiler {
        k: if has_start {
            1
        } else {
            0
        },
        text_buffer: Vec::new(),
        pattern_parts: Vec::new(),
        pattern_parts_group: PatternUnit::CapturingGroup(empty),
        depth: -1,
        is_alternation: false,
        is_first_alternation: false,
        info: CurrentAlternationInfo { group1: Vec::new(), group2: Vec::new() },
        groups: 0,
    };
    proof {
        assert(units_view(c.pattern_parts@) =~= Seq::<Unit>::empty());
        assert(units_view(c.info.group1@) =~= Seq::<Unit>::empty());
        assert(units_view(c.info.group2@) =~= Seq::<Unit>::empty());
        assert(c.model() == initial_parse(pat@));
    }
    let has_end = has_end_anchor;
    let ghost target = parse_loop(pat@, has_end, initial_parse(pat@));
    while c.k < pat.len() && !(has_end && c.k == pat.len() - 1)
        invariant
            parse_loop(pat@, has_end, c.model()) == target,
            target is Some,
            c.groups <= c.k <= pat.len(),
            has_end == crate::grammar::has_end(pat@),
        decreases pat.len() - c.k,
    {
        let ghost p = c.model();
        proof {
            lemma_step_advances(pat@, p);
        }
        let ch = pat[c.k];
        if ch == '\\' {
            c.step_escape(pat);
        } else if ch == '.' {
            c.step_dot(pat);
        } else if ch == '[' {
            c.step_bracket(pat);
        } else if ch == '|' {
            c.step_bar(pat);
        } else if ch == '(' {
            c.step_open(pat);
        } else if ch == ')' {
            c.step_close(pat);
        } else {
            c.step_literal(pat);
        }
    }
    if c.k < pat.len() {
        c.close_alternation();
    }
    assert(c.model() == target->0);
    c.flush();
    c.close_alternation();
    let mut parts = c.pattern_parts;
    let ghost all = parts@;
    let start = if has_start {
        let u = parts.remove(0);
        proof {
            assert(units_view(parts@) =~= units_view(all).drop_first());
        }
        Some(u)
    } else {
        None
    };
    let ghost rest = parts@;
    let end = if has_end {
        let n = parts.len();
        let u = parts.remove(n - 1);
        proof {
            assert(units_view(parts@) =~= units_view(rest).drop_last());
        }
        Some(u)
    } else {
        None
    };
    CompiledPattern { parts, start, end, groups: c.groups }
}

/// Whether `c` is one of `+`, `*`, `?` at position `j`.
fn quantifier_char(pat: &Vec<char>, j: usize) -> (r: Option<char>)
    ensures
        r == quantifier_at(pat@, j as int),
{
    if j < pat.len() && (pat[j] == '+' || pat[j] == '*' || pat[j] == '?') {
        Some(pat[j])
    } else {
        None
    }
}

} // verus!

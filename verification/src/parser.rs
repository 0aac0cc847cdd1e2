//! The pattern compiler.
//!
//! `spec_parse` is the mathematical model of the recursive-descent parser:
//! one node per call, with a quantifier suffix, chained onto the rest of the
//! pattern; groups recurse and number themselves in the order their opening
//! parentheses appear. `parse_pattern` is proved to build exactly the chain
//! the model describes, and to report exactly the model's errors.

use vstd::prelude::*;

use crate::captures::CaptureState;
use crate::pattern::alts_view;
use crate::pattern::chain_view;
use crate::pattern::lemma_alts_view_push;
use crate::pattern::node_view;
use crate::pattern::Atom;
use crate::pattern::Pattern;
use crate::pattern::Quantifier;

verus! {

/// Why a pattern string was rejected.
#[derive(Clone, Copy, PartialEq, Eq, Structural, Debug)]
pub enum ParseError {
    /// A group is not closed, or something other than `|` or `)` follows an
    /// alternative.
    MalformedGroup,
    /// A character class is opened with `[` but never closed with `]`.
    UnterminatedClass,
}

/// Whether the character is an ASCII decimal digit.
pub open spec fn spec_is_digit(c: char) -> bool {
    48 <= c as u32 && c as u32 <= 57
}

/// The numeric value of an ASCII decimal digit.
pub open spec fn digit_val(c: char) -> int {
    c as u32 - 48
}

/// The first position at or after `j` holding no ASCII digit (the length of
/// the string if digits run to its end).
pub open spec fn digit_end(chars: Seq<char>, j: int) -> int
    decreases chars.len() - j,
{
    if !(0 <= j && j < chars.len()) {
        j
    } else if !spec_is_digit(chars[j]) {
        j
    } else {
        digit_end(chars, j + 1)
    }
}

/// One step of reading a decimal number left to right, saturating at the
/// largest machine integer: backreference indices beyond it could never name
/// a real group.
pub open spec fn sat_push_digit(acc: int, d: int) -> int {
    if acc > (usize::MAX - d) / 10 {
        usize::MAX as int
    } else {
        acc * 10 + d
    }
}

/// The saturating value of the decimal digits in `chars[lo..hi]`.
pub open spec fn digits_value(chars: Seq<char>, lo: int, hi: int) -> int
    decreases hi - lo,
{
    if hi <= lo {
        0
    } else {
        sat_push_digit(digits_value(chars, lo, hi - 1), digit_val(chars[hi - 1]))
    }
}

/// The first position at or after `j` holding a closing bracket (the length
/// of the string if there is none).
pub open spec fn find_close(chars: Seq<char>, j: int) -> int
    decreases chars.len() - j,
{
    if !(0 <= j && j < chars.len()) {
        if j < 0 {
            chars.len() as int
        } else {
            j
        }
    } else if chars[j] == ']' {
        j
    } else {
        find_close(chars, j + 1)
    }
}

/// A position clamped into a range (identity for every position the parser
/// actually produces).
pub open spec fn clamp_at_least(v: int, lo: int, hi: int) -> int {
    if lo <= v && v <= hi {
        v
    } else {
        lo
    }
}

/// The model of reading one atom at `pos` (with `chars[pos]` in bounds):
/// the atom, the group index it captures to (zero for non-groups), the
/// position after the atom, and the updated group counter.
pub open spec fn spec_parse_atom(chars: Seq<char>, pos: int, counter: int) -> Result<
    (crate::pattern::SpecAtom, usize, int, int),
    ParseError,
>
    decreases chars.len() - pos, 0int,
        when 0 <= pos < chars.len()
{
    let c = chars[pos];
    if c == '\\' {
        if pos + 1 >= chars.len() {
            Result::Ok((crate::pattern::SpecAtom::Wildcard, 0, pos + 1, counter))
        } else {
            let e = chars[pos + 1];
            if e == 'd' {
                Result::Ok((crate::pattern::SpecAtom::Digit, 0, pos + 2, counter))
            } else if e == 'w' {
                Result::Ok((crate::pattern::SpecAtom::Alnum, 0, pos + 2, counter))
            } else if spec_is_digit(e) {
                let de = digit_end(chars, pos + 2);
                Result::Ok(
                    (
                        crate::pattern::SpecAtom::Backreference(
                            digits_value(chars, pos + 1, de) as usize,
                        ),
                        0,
                        de,
                        counter,
                    ),
                )
            } else {
                Result::Ok((crate::pattern::SpecAtom::Wildcard, 0, pos + 2, counter))
            }
        }
    } else if c == '(' {
        match spec_parse(chars, pos + 1, counter + 1) {
            Result::Err(e) => Result::Err(e),
            Result::Ok(t1) => {
                let p1 = clamp_at_least(t1.1, pos + 1, chars.len() as int);
                match spec_parse_alts(chars, p1, t1.2, seq![t1.0]) {
                    Result::Err(e) => Result::Err(e),
                    Result::Ok(t2) => Result::Ok(
                        (crate::pattern::SpecAtom::Group(t2.0), counter as usize, t2.1, t2.2),
                    ),
                }
            },
        }
    } else if c == '[' {
        let neg = pos + 1 < chars.len() && chars[pos + 1] == '^';
        let start = if neg {
            pos + 2
        } else {
            pos + 1
        };
        let e = find_close(chars, start);
        if e >= chars.len() {
            Result::Err(ParseError::UnterminatedClass)
        } else {
            let s = chars.subrange(start, e).to_set();
            if neg {
                Result::Ok((crate::pattern::SpecAtom::NegCharSet(s), 0, e + 1, counter))
            } else {
                Result::Ok((crate::pattern::SpecAtom::CharSet(s), 0, e + 1, counter))
            }
        }
    } else if c == '.' {
        Result::Ok((crate::pattern::SpecAtom::Wildcard, 0, pos + 1, counter))
    } else if c == '^' {
        Result::Ok((crate::pattern::SpecAtom::StartAnchor, 0, pos + 1, counter))
    } else if c == '$' {
        Result::Ok((crate::pattern::SpecAtom::EndAnchor, 0, pos + 1, counter))
    } else {
        Result::Ok(
            (
                crate::pattern::SpecAtom::CharSet(chars.subrange(pos, pos + 1).to_set()),
                0,
                pos + 1,
                counter,
            ),
        )
    }
}

/// The model of reading the remaining alternatives of a group, after its
/// latest alternative ended at `pos`: `)` closes the group, `|` starts
/// another alternative, anything else (or running out of input) is malformed
/// group syntax.
pub open spec fn spec_parse_alts(
    chars: Seq<char>,
    pos: int,
    counter: int,
    acc: Seq<Seq<crate::pattern::SpecNode>>,
) -> Result<(Seq<Seq<crate::pattern::SpecNode>>, int, int), ParseError>
    decreases chars.len() - pos, 2int,
{
    if pos >= chars.len() {
        Result::Err(ParseError::MalformedGroup)
    } else if chars[pos] == ')' {
        Result::Ok((acc, pos + 1, counter))
    } else if chars[pos] == '|' {
        match spec_parse(chars, pos + 1, counter) {
            Result::Err(e) => Result::Err(e),
            Result::Ok(t) => spec_parse_alts(
                chars,
                clamp_at_least(t.1, pos + 1, chars.len() as int),
                t.2,
                acc.push(t.0),
            ),
        }
    } else {
        Result::Err(ParseError::MalformedGroup)
    }
}

/// The model of the whole parser at `pos`: the chain compiled from the
/// pattern's remainder up to the end of the current alternative, the position
/// it stopped at, and the group counter after it. An exhausted pattern
/// yields the single default node (a wildcard, exactly once).
pub open spec fn spec_parse(chars: Seq<char>, pos: int, counter: int) -> Result<
    (Seq<crate::pattern::SpecNode>, int, int),
    ParseError,
>
    decreases chars.len() - pos, 1int,
{
    if pos >= chars.len() {
        Result::Ok(
            (
                seq![
                    crate::pattern::SpecNode {
                        atom: crate::pattern::SpecAtom::Wildcard,
                        quantifier: crate::pattern::Quantifier::ExactlyOnce,
                        group_index: 0,
                    },
                ],
                pos,
                counter,
            ),
        )
    } else {
        match spec_parse_atom(chars, pos, counter) {
            Result::Err(e) => Result::Err(e),
            Result::Ok(t) => {
                let apos = clamp_at_least(t.2, pos + 1, chars.len() as int);
                let q = if apos < chars.len() && chars[apos] == '+' {
                    crate::pattern::Quantifier::OneOrMore
                } else if apos < chars.len() && chars[apos] == '?' {
                    crate::pattern::Quantifier::Optional
                } else {
                    crate::pattern::Quantifier::ExactlyOnce
                };
                let qpos = if apos < chars.len() && (chars[apos] == '+' || chars[apos] == '?') {
                    apos + 1
                } else {
                    apos
                };
                let node = crate::pattern::SpecNode {
                    atom: t.0,
                    quantifier: q,
                    group_index: t.1,
                };
                if qpos >= chars.len() || chars[qpos] == '|' || chars[qpos] == ')' {
                    Result::Ok((seq![node], qpos, t.3))
                } else {
                    match spec_parse(chars, qpos, t.3) {
                        Result::Err(e) => Result::Err(e),
                        Result::Ok(t2) => Result::Ok((seq![node] + t2.0, t2.1, t2.2)),
                    }
                }
            },
        }
    }
}

/// Whether the character is an ASCII decimal digit.
fn is_digit_ch(c: char) -> (r: bool)
    ensures
        r == spec_is_digit(c),
{
    let u = c as u32;
    48 <= u && u <= 57
}

/// One saturating step of reading a decimal number.
fn sat_push_exec(acc: usize, d: usize) -> (r: usize)
    requires
        d <= 9,
    ensures
        r as int == sat_push_digit(acc as int, d as int),
{
    let limit = (usize::MAX - d) / 10;
    if acc > limit {
        usize::MAX
    } else {
        proof {
            assert(acc * 10 <= limit * 10) by (nonlinear_arith)
                requires
                    acc <= limit,
            ;
            assert(limit * 10 <= usize::MAX - d) by (nonlinear_arith)
                requires
                    limit == (usize::MAX - d) / 10,
                    d <= 9,
            ;
        }
        acc * 10 + d
    }
}

/// Read the remaining alternatives of a group, accumulating onto `acc`,
/// exactly as the model prescribes.
#[verifier::loop_isolation(false)]
fn parse_alts(chars: &Vec<char>, pos: usize, cs: &mut CaptureState, acc: Vec<Pattern>) -> (r:
    Result<(Vec<Pattern>, usize), ParseError>)
    requires
        pos <= chars@.len(),
        old(cs).counter + (chars@.len() - pos) <= usize::MAX,
    ensures
        final(cs).captures() == old(cs).captures(),
        (spec_parse_alts(chars@, pos as int, old(cs).counter as int, alts_view(acc@))
            matches Result::Ok(t) ==> (r matches Result::Ok(v) && alts_view(v.0@) == t.0
            && v.1 as int == t.1 && final(cs).counter as int == t.2)),
        (spec_parse_alts(chars@, pos as int, old(cs).counter as int, alts_view(acc@))
            matches Result::Err(e) ==> r == Result::<(Vec<Pattern>, usize), ParseError>::Err(e)
            && old(cs).counter <= final(cs).counter),
        (r matches Result::Ok(v) ==> pos <= v.1 <= chars@.len() && final(cs).counter
            <= old(cs).counter + (v.1 - pos)),
        old(cs).counter <= final(cs).counter,
    decreases chars@.len() - pos, 2int,
{
    if pos >= chars.len() {
        return Result::Err(ParseError::MalformedGroup);
    }
    let d = chars[pos];
    if d == ')' {
        return Result::Ok((acc, pos + 1));
    }
    if d == '|' {
        match parse_pattern(chars, pos + 1, cs) {
            Result::Err(e) => {
                return Result::Err(e);
            },
            Result::Ok((pk, posk)) => {
                let mut acc2 = acc;
                acc2.push(pk);
                proof {
                    lemma_alts_view_push(acc@, pk);
                }
                let r2 = parse_alts(chars, posk, cs, acc2);
                return r2;
            },
        }
    }
    Result::Err(ParseError::MalformedGroup)
}

/// Read one atom at `pos` (with `pos` on the pattern): the atom, the group
/// index it captures to, and the position after it, exactly as the model
/// prescribes.
#[verifier::loop_isolation(false)]
fn parse_atom(chars: &Vec<char>, pos: usize, cs: &mut CaptureState) -> (r: Result<
    (Atom, usize, usize),
    ParseError,
>)
    requires
        pos < chars@.len(),
        old(cs).counter + (chars@.len() - pos) <= usize::MAX,
    ensures
        final(cs).captures() == old(cs).captures(),
        (spec_parse_atom(chars@, pos as int, old(cs).counter as int) matches Result::Ok(t) ==> (r
            matches Result::Ok(v) && crate::pattern::atom_view(v.0) == t.0 && v.1 == t.1
            && v.2 as int == t.2 && final(cs).counter as int == t.3)),
        (spec_parse_atom(chars@, pos as int, old(cs).counter as int) matches Result::Err(e) ==> r
            == Result::<(Atom, usize, usize), ParseError>::Err(e)),
        (r matches Result::Ok(v) ==> pos + 1 <= v.2 <= chars@.len() && final(cs).counter <= old(
            cs,
        ).counter + (v.2 - pos)),
        old(cs).counter <= final(cs).counter,
    decreases chars@.len() - pos, 0int,
{
    let ghost counter_in = cs.counter;
    let n = chars.len();
    let c0 = chars[pos];
    let mut atom: Atom = Atom::Wildcard;
    let mut gidx: usize = 0;
    let mut apos: usize = pos + 1;
    if c0 == '\\' {
        if pos + 1 < chars.len() {
            let e = chars[pos + 1];
            if e == 'd' {
                atom = Atom::Digit;
                apos = pos + 2;
            } else if e == 'w' {
                atom = Atom::Alnum;
                apos = pos + 2;
            } else if is_digit_ch(e) {
                let mut j: usize = pos + 2;
                let mut acc_val: usize = (e as u32 - 48) as usize;
                proof {
                    reveal_with_fuel(digits_value, 2);
                    assert(digits_value(chars@, pos + 1, pos + 1) == 0);
                    assert(acc_val as int == digits_value(chars@, pos + 1, pos + 2));
                }
                while j < chars.len() && is_digit_ch(chars[j])
                    invariant
                        pos + 2 <= j <= chars@.len(),
                        digit_end(chars@, pos + 2) == digit_end(chars@, j as int),
                        acc_val as int == digits_value(chars@, pos + 1, j as int),
                    decreases chars@.len() - j,
                {
                    let dv = (chars[j] as u32 - 48) as usize;
                    acc_val = sat_push_exec(acc_val, dv);
                    j = j + 1;
                }
                proof {
                    assert(digit_end(chars@, j as int) == j);
                }
                atom = Atom::Backreference(acc_val);
                apos = j;
            } else {
                apos = pos + 2;
            }
        }
    } else if c0 == '(' {
        let gidx0 = cs.counter;
        cs.counter = cs.counter + 1;
        match parse_pattern(chars, pos + 1, cs) {
            Result::Err(e) => {
                return Result::Err(e);
            },
            Result::Ok((p1, pos1)) => {
                let mut acc0: Vec<Pattern> = Vec::new();
                acc0.push(p1);
                proof {
                    lemma_alts_view_push(Seq::<Pattern>::empty(), p1);
                    assert(Seq::<Pattern>::empty().push(p1) =~= acc0@);
                    assert(alts_view(Seq::<Pattern>::empty()) == Seq::<
                        Seq<crate::pattern::SpecNode>,
                    >::empty());
                    assert(alts_view(acc0@) =~= seq![chain_view(p1)]);
                }
                match parse_alts(chars, pos1, cs, acc0) {
                    Result::Err(e) => {
                        return Result::Err(e);
                    },
                    Result::Ok((alts_vec, pos2)) => {
                        atom = Atom::Group(alts_vec);
                        gidx = gidx0;
                        apos = pos2;
                    },
                }
            },
        }
    } else if c0 == '[' {
        let mut j: usize = pos + 1;
        let mut neg = false;
        if j < chars.len() && chars[j] == '^' {
            neg = true;
            j = j + 1;
        }
        let ghost start = j as int;
        let mut elems: Vec<char> = Vec::new();
        proof {
            assert(elems@ =~= chars@.subrange(start, j as int));
        }
        while j < chars.len() && chars[j] != ']'
            invariant
                start <= j <= chars@.len(),
                find_close(chars@, start) == find_close(chars@, j as int),
                elems@ == chars@.subrange(start, j as int),
            decreases chars@.len() - j,
        {
            elems.push(chars[j]);
            j = j + 1;
            proof {
                assert(elems@ =~= chars@.subrange(start, j as int));
            }
        }
        if j >= chars.len() {
            proof {
                assert(find_close(chars@, j as int) == j);
            }
            return Result::Err(ParseError::UnterminatedClass);
        }
        proof {
            assert(find_close(chars@, j as int) == j);
        }
        atom = if neg {
            Atom::NegCharSet(elems)
        } else {
            Atom::CharSet(elems)
        };
        apos = j + 1;
    } else if c0 == '.' {
        atom = Atom::Wildcard;
    } else if c0 == '^' {
        atom = Atom::StartAnchor;
    } else if c0 == '$' {
        atom = Atom::EndAnchor;
    } else {
        let mut v: Vec<char> = Vec::new();
        v.push(c0);
        proof {
            assert(v@ =~= chars@.subrange(pos as int, pos as int + 1));
        }
        atom = Atom::CharSet(v);
    }
    proof {
        assert(spec_parse_atom(chars@, pos as int, counter_in as int) matches Result::Ok(t)
            && crate::pattern::atom_view(atom) == t.0 && gidx == t.1 && apos as int == t.2
            && cs.counter as int == t.3);
    }
    Result::Ok((atom, gidx, apos))
}

/// Read one pattern node at `pos` and recursively the rest of its chain,
/// assigning group indices from the state's counter; returns the compiled
/// chain head and the position the parse stopped at. Exactly the chain, the
/// stopping position and the errors of the model.
pub fn parse_pattern(chars: &Vec<char>, pos: usize, cs: &mut CaptureState) -> (r: Result<
    (Pattern, usize),
    ParseError,
>)
    requires
        pos <= chars@.len(),
        old(cs).counter + (chars@.len() - pos) <= usize::MAX,
    ensures
        final(cs).captures() == old(cs).captures(),
        (spec_parse(chars@, pos as int, old(cs).counter as int) matches Result::Ok(t) ==> (r
            matches Result::Ok(v) && chain_view(v.0) == t.0 && v.1 as int == t.1
            && final(cs).counter as int == t.2)),
        (spec_parse(chars@, pos as int, old(cs).counter as int) matches Result::Err(e) ==> r
            == Result::<(Pattern, usize), ParseError>::Err(e) && old(cs).counter
            <= final(cs).counter),
        (r matches Result::Ok(v) ==> pos <= v.1 <= chars@.len() && final(cs).counter <= old(
            cs,
        ).counter + (v.1 - pos)),
        old(cs).counter <= final(cs).counter,
    decreases chars@.len() - pos, 1int,
{
    if pos >= chars.len() {
        let node = Pattern {
            atom: Atom::Wildcard,
            quantifier: Quantifier::ExactlyOnce,
            next: Option::None,
            group_index: 0,
        };
        proof {
            assert(chain_view(node) =~= seq![node_view(node)]);
        }
        return Result::Ok((node, pos));
    }
    let (atom, gidx, apos) = match parse_atom(chars, pos, cs) {
        Result::Err(e) => {
            return Result::Err(e);
        },
        Result::Ok(v) => v,
    };
    let mut quant = Quantifier::ExactlyOnce;
    let mut qpos = apos;
    if apos < chars.len() {
        let qc = chars[apos];
        if qc == '+' {
            quant = Quantifier::OneOrMore;
            qpos = apos + 1;
        } else if qc == '?' {
            quant = Quantifier::Optional;
            qpos = apos + 1;
        }
    }
    if qpos >= chars.len() || chars[qpos] == '|' || chars[qpos] == ')' {
        let node = Pattern { atom, quantifier: quant, next: Option::None, group_index: gidx };
        proof {
            assert(chain_view(node) =~= seq![node_view(node)]);
        }
        return Result::Ok((node, qpos));
    }
    match parse_pattern(chars, qpos, cs) {
        Result::Err(e) => Result::Err(e),
        Result::Ok((rest, p2)) => {
            let node = Pattern {
                atom,
                quantifier: quant,
                next: Option::Some(Box::new(rest)),
                group_index: gidx,
            };
            proof {
                assert(chain_view(node) == seq![node_view(node)] + chain_view(rest));
            }
            Result::Ok((node, p2))
        },
    }
}

/// Compile a whole pattern string into a node chain, numbering groups from
/// the state's counter.
pub fn make_pattern(pattern: &Vec<char>, cs: &mut CaptureState) -> (r: Result<Pattern, ParseError>)
    requires
        old(cs).counter + pattern@.len() <= usize::MAX,
    ensures
        final(cs).captures() == old(cs).captures(),
        (spec_parse(pattern@, 0, old(cs).counter as int) matches Result::Ok(t) ==> (r
            matches Result::Ok(p) && chain_view(p) == t.0 && final(cs).counter as int == t.2)),
        (spec_parse(pattern@, 0, old(cs).counter as int) matches Result::Err(e) ==> r
            == Result::<Pattern, ParseError>::Err(e)),
{
    match parse_pattern(pattern, 0, cs) {
        Result::Err(e) => Result::Err(e),
        Result::Ok((p, _end)) => Result::Ok(p),
    }
}

} // verus!

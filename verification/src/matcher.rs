//! The backtracking matcher.
//!
//! `spec_try_chain` is the mathematical model of one match attempt: given a
//! model chain, the line, a start offset and the capture table, it returns
//! whether the chain matches, the end offset, and the capture table after the
//! attempt (captures recorded by failed branches are kept, as the engine's
//! design prescribes). `Pattern::try_match` is proved to return exactly what
//! the model says, `match_pattern` tries every start offset in order, and
//! `match_string` composes compilation and search.

use vstd::prelude::*;

use crate::captures::copy_range;
use crate::captures::CaptureState;
use crate::parser::make_pattern;
use crate::parser::spec_parse;
use crate::parser::ParseError;
use crate::pattern::alts_view;
use crate::pattern::alts_list_size;
use crate::pattern::chain_size;
use crate::pattern::chain_view;
use crate::pattern::lemma_alts_list_size_parts;
use crate::pattern::lemma_alts_view_index;
use crate::pattern::lemma_alts_view_len;
use crate::pattern::lemma_chain_size_parts;
use crate::pattern::lemma_chain_view_shape;
use crate::pattern::node_size;
use crate::pattern::node_view;
use crate::pattern::Atom;
use crate::pattern::Pattern;
use crate::pattern::Quantifier;
use crate::pattern::SpecAtom;
use crate::pattern::SpecNode;
use crate::unicode::char_is_alnum;
use crate::unicode::char_is_numeric;
use crate::unicode::is_alnum_char;
use crate::unicode::is_numeric_char;

verus! {

/// Whether a single-character atom accepts the character.
pub open spec fn class_test(a: SpecAtom, ch: char) -> bool {
    match a {
        SpecAtom::Digit => is_numeric_char(ch),
        SpecAtom::Alnum => is_alnum_char(ch),
        SpecAtom::Wildcard => true,
        SpecAtom::CharSet(s) => s.contains(ch),
        SpecAtom::NegCharSet(s) => !s.contains(ch),
        _ => false,
    }
}

/// Whether the atom is a single-character class (as opposed to an anchor, a
/// group or a backreference).
pub open spec fn is_class_atom(a: SpecAtom) -> bool {
    match a {
        SpecAtom::Digit => true,
        SpecAtom::Alnum => true,
        SpecAtom::Wildcard => true,
        SpecAtom::CharSet(_) => true,
        SpecAtom::NegCharSet(_) => true,
        _ => false,
    }
}

/// A position clamped into a range; identity whenever the position already
/// lies in the range, which every reachable position does.
pub open spec fn clamp_pos(v: int, lo: int, hi: int) -> int {
    if lo <= v && v <= hi {
        v
    } else {
        lo
    }
}

/// Character-by-character comparison of a recorded capture against the line,
/// starting at `idx`: returns whether the whole capture is repeated there and
/// the offset reached by the comparison.
pub open spec fn spec_backref_scan(cap: Seq<char>, text: Seq<char>, idx: int) -> (bool, int)
    decreases cap.len(),
{
    if cap.len() == 0 {
        (true, idx)
    } else if idx >= text.len() {
        (false, idx)
    } else if cap[0] != text[idx] {
        (false, idx)
    } else {
        spec_backref_scan(cap.subrange(1, cap.len() as int), text, idx + 1)
    }
}

/// One match attempt of a model chain at offset `index`. Empty chains have
/// matched in full. A non-empty chain fails at or beyond the end of the line
/// unless its head atom is the end anchor; an optional head first tries the
/// rest of the chain without consuming anything.
pub open spec fn spec_try_chain(
    c: Seq<SpecNode>,
    text: Seq<char>,
    index: int,
    caps: Map<usize, Seq<char>>,
) -> (bool, int, Map<usize, Seq<char>>)
    decreases text.len() - index, chain_size(c), 2int,
    via spec_try_chain_dec
{
    if c.len() == 0 {
        (true, index, caps)
    } else if index > text.len() || (index == text.len() && !(c[0].atom is EndAnchor)) {
        (false, index, caps)
    } else if c[0].quantifier is Optional {
        let rest = c.subrange(1, c.len() as int);
        let skip = spec_try_chain(rest, text, index, caps);
        if skip.0 {
            skip
        } else {
            spec_consume(c, text, index, skip.2)
        }
    } else {
        spec_consume(c, text, index, caps)
    }
}

/// Consume the head atom of the chain at `index`, then hand over to the
/// quantifier and continuation step; `c` is non-empty and `index` lies on the
/// line (or at its very end for the end anchor).
pub open spec fn spec_consume(
    c: Seq<SpecNode>,
    text: Seq<char>,
    index: int,
    caps: Map<usize, Seq<char>>,
) -> (bool, int, Map<usize, Seq<char>>)
    decreases text.len() - index, chain_size(c), 1int,
    via spec_consume_dec
{
    if c.len() == 0 {
        (true, index, caps)
    } else {
        let node = c[0];
        match node.atom {
            SpecAtom::Group(alts) => spec_try_alts(
                alts,
                node.group_index,
                c.subrange(1, c.len() as int),
                text,
                index,
                caps,
            ),
            SpecAtom::StartAnchor => if index != 0 {
                (false, index, caps)
            } else {
                spec_tail(c, text, index, index, caps)
            },
            SpecAtom::EndAnchor => if index != text.len() {
                (false, index, caps)
            } else {
                spec_tail(c, text, index, index, caps)
            },
            SpecAtom::Backreference(k) => if !caps.dom().contains(k) {
                (false, index, caps)
            } else {
                let scan = spec_backref_scan(caps[k], text, index);
                if !scan.0 {
                    (false, scan.1, caps)
                } else {
                    spec_tail(c, text, index, scan.1, caps)
                }
            },
            _ => if 0 <= index && index < text.len() && class_test(node.atom, text[index]) {
                spec_tail(c, text, index, index + 1, caps)
            } else {
                (false, index, caps)
            },
        }
    }
}

/// After the head atom consumed the line from `start` up to `idx`: greedily
/// re-attempt the same chain when the quantifier asks for more and something
/// was consumed, then delegate to the rest of the chain.
pub open spec fn spec_tail(
    c: Seq<SpecNode>,
    text: Seq<char>,
    start: int,
    idx: int,
    caps: Map<usize, Seq<char>>,
) -> (bool, int, Map<usize, Seq<char>>)
    decreases text.len() - start, chain_size(c), 0int,
    via spec_tail_dec
{
    if c.len() == 0 {
        (true, idx, caps)
    } else {
        let j = clamp_pos(idx, start, text.len() as int);
        let rest = c.subrange(1, c.len() as int);
        if c[0].quantifier is OneOrMore && j > start {
            let again = spec_try_chain(c, text, j, caps);
            if again.0 {
                again
            } else {
                spec_try_chain(rest, text, j, again.2)
            }
        } else {
            spec_try_chain(rest, text, j, caps)
        }
    }
}

/// Try each alternative sub-chain of a group in order at `start`. The first
/// alternative whose body matches records the consumed text under the group's
/// index and hands over to the chain after the group; if that continuation
/// fails, the whole group fails without trying further alternatives. Later
/// alternatives are reached only when a body itself fails to match.
pub open spec fn spec_try_alts(
    alts: Seq<Seq<SpecNode>>,
    gidx: usize,
    rest: Seq<SpecNode>,
    text: Seq<char>,
    start: int,
    caps: Map<usize, Seq<char>>,
) -> (bool, int, Map<usize, Seq<char>>)
    decreases text.len() - start, alts_list_size(alts) + chain_size(rest) + 1, 0int,
    via spec_try_alts_dec
{
    if alts.len() == 0 {
        (false, start, caps)
    } else {
        let body = spec_try_chain(alts[0], text, start, caps);
        if !body.0 {
            spec_try_alts(
                alts.subrange(1, alts.len() as int),
                gidx,
                rest,
                text,
                start,
                body.2,
            )
        } else {
            let end = clamp_pos(body.1, start, text.len() as int);
            let caps2 = body.2.insert(gidx, text.subrange(start, end));
            let cont = spec_try_chain(rest, text, end, caps2);
            if cont.0 {
                cont
            } else {
                (false, start, cont.2)
            }
        }
    }
}

#[via_fn]
proof fn spec_try_chain_dec(c: Seq<SpecNode>, text: Seq<char>, index: int, caps: Map<
    usize,
    Seq<char>,
>) {
    if c.len() != 0 {
        lemma_chain_size_parts(c);
    }
}

#[via_fn]
proof fn spec_consume_dec(c: Seq<SpecNode>, text: Seq<char>, index: int, caps: Map<
    usize,
    Seq<char>,
>) {
    if c.len() != 0 {
        lemma_chain_size_parts(c);
        match c[0].atom {
            SpecAtom::Group(alts) => {
                assert(node_size(c[0]) == 3 + alts_list_size(alts));
            },
            _ => {},
        }
    }
}

#[via_fn]
proof fn spec_tail_dec(c: Seq<SpecNode>, text: Seq<char>, start: int, idx: int, caps: Map<
    usize,
    Seq<char>,
>) {
    if c.len() != 0 {
        lemma_chain_size_parts(c);
    }
}

#[via_fn]
proof fn spec_try_alts_dec(
    alts: Seq<Seq<SpecNode>>,
    gidx: usize,
    rest: Seq<SpecNode>,
    text: Seq<char>,
    start: int,
    caps: Map<usize, Seq<char>>,
) {
    if alts.len() != 0 {
        lemma_alts_list_size_parts(alts);
    }
}

/// The search driver's model: attempt the chain at every offset of `i..=len`
/// in order, threading the capture table from one failed attempt into the
/// next, and report the first success.
pub open spec fn spec_search_from(
    c: Seq<SpecNode>,
    text: Seq<char>,
    i: int,
    caps: Map<usize, Seq<char>>,
) -> (bool, Map<usize, Seq<char>>)
    decreases text.len() + 1 - i,
{
    if i > text.len() {
        (false, caps)
    } else {
        let attempt = spec_try_chain(c, text, i, caps);
        if attempt.0 {
            (true, attempt.2)
        } else {
            spec_search_from(c, text, i + 1, attempt.2)
        }
    }
}

/// Compile-then-search, starting the group numbering at one and with no
/// captures recorded: what matching a whole line against a pattern string
/// means.
pub open spec fn spec_match_string(line: Seq<char>, pat: Seq<char>) -> Result<bool, ParseError> {
    match spec_parse(pat, 0, 1) {
        Result::Err(e) => Result::Err(e),
        Result::Ok(t) => Result::Ok(spec_search_from(t.0, line, 0, Map::empty()).0),
    }
}

/// Whether the vector holds the character.
fn contains_char(v: &Vec<char>, ch: char) -> (r: bool)
    ensures
        r == v@.contains(ch),
{
    let mut i: usize = 0;
    while i < v.len()
        invariant
            i <= v@.len(),
            forall|t: int| 0 <= t < i ==> v@[t] != ch,
        decreases v@.len() - i,
    {
        if v[i] == ch {
            return true;
        }
        i = i + 1;
    }
    false
}

impl Pattern {
    /// Attempt to match this node chain against `text` at offset `index`,
    /// recording group captures in `cs`; returns whether the chain matched
    /// and the offset it consumed up to, exactly as the model prescribes.
    #[verifier::loop_isolation(false)]
    pub fn try_match(&self, text: &Vec<char>, index: usize, cs: &mut CaptureState) -> (r: (
        bool,
        usize,
    ))
        ensures
            ({
                let t = spec_try_chain(chain_view(*self), text@, index as int, old(cs).captures());
                r.0 == t.0 && r.1 as int == t.1 && final(cs).captures() == t.2
            }),
            final(cs).counter == old(cs).counter,
            index <= r.1,
            index <= text@.len() ==> r.1 <= text@.len(),
        decreases text@.len() - index, chain_size(chain_view(*self)),
    {
        proof {
            reveal_with_fuel(spec_try_chain, 3);
            reveal_with_fuel(spec_consume, 2);
            reveal_with_fuel(spec_tail, 2);
            reveal_with_fuel(spec_try_alts, 2);
            reveal_with_fuel(spec_backref_scan, 2);
            lemma_chain_view_shape(*self);
            lemma_chain_size_parts(chain_view(*self));
        }
        let ghost c = chain_view(*self);
        let ghost rest = c.subrange(1, c.len() as int);
        let ghost caps0 = cs.captures();
        let ghost counter0 = cs.counter;
        let ghost goal = spec_try_chain(c, text@, index as int, caps0);
        let tlen = text.len();
        if index >= tlen {
            let is_end = matches!(&self.atom, Atom::EndAnchor);
            if index > tlen || !is_end {
                proof {
                    assert((c[0].atom is EndAnchor) == (self.atom is EndAnchor));
                }
                return (false, index);
            }
        }
        if self.quantifier == Quantifier::Optional {
            match &self.next {
                Option::Some(nx) => {
                    let (ok, end) = nx.try_match(text, index, cs);
                    if ok {
                        return (ok, end);
                    }
                },
                Option::None => {
                    proof {
                        assert(rest.len() == 0);
                    }
                    return (true, index);
                },
            }
        }
        let ghost caps1 = cs.captures();
        proof {
            assert(goal == spec_consume(c, text@, index as int, caps1));
        }
        let mut idx = index;
        match &self.atom {
            Atom::Digit => {
                if !char_is_numeric(text[index]) {
                    return (false, index);
                }
                idx = index + 1;
            },
            Atom::Alnum => {
                if !char_is_alnum(text[index]) {
                    return (false, index);
                }
                idx = index + 1;
            },
            Atom::Wildcard => {
                idx = index + 1;
            },
            Atom::CharSet(v) => {
                if !contains_char(v, text[index]) {
                    return (false, index);
                }
                idx = index + 1;
            },
            Atom::NegCharSet(v) => {
                if contains_char(v, text[index]) {
                    return (false, index);
                }
                idx = index + 1;
            },
            Atom::StartAnchor => {
                if index != 0 {
                    return (false, index);
                }
            },
            Atom::EndAnchor => {
                if index != tlen {
                    return (false, index);
                }
            },
            Atom::Backreference(k) => {
                match cs.lookup(*k) {
                    Option::None => {
                        return (false, index);
                    },
                    Option::Some(cap) => {
                        let clen = cap.len();
                        let mut j: usize = 0;
                        let mut pos2: usize = index;
                        proof {
                            assert(cap@.subrange(0, clen as int) =~= cap@);
                        }
                        while j < clen
                            invariant
                                j <= clen,
                                clen == cap@.len(),
                                pos2 == index + j,
                                index <= text@.len(),
                                pos2 <= text@.len(),
                                tlen == text@.len(),
                                spec_backref_scan(cap@, text@, index as int) == spec_backref_scan(
                                    cap@.subrange(j as int, clen as int),
                                    text@,
                                    pos2 as int,
                                ),
                            decreases clen - j,
                        {
                            let ghost before = cap@.subrange(j as int, clen as int);
                            if pos2 >= tlen {
                                return (false, pos2);
                            }
                            if cap[j] != text[pos2] {
                                return (false, pos2);
                            }
                            j = j + 1;
                            pos2 = pos2 + 1;
                            proof {
                                assert(before.subrange(1, before.len() as int) =~= cap@.subrange(
                                    j as int,
                                    clen as int,
                                ));
                            }
                        }
                        proof {
                            assert(cap@.subrange(clen as int, clen as int) =~= Seq::<
                                char,
                            >::empty());
                        }
                        idx = pos2;
                    },
                }
            },
            Atom::Group(alts) => {
                let ghost avs = alts_view(alts@);
                proof {
                    lemma_alts_view_len(alts@);
                    assert(c[0].atom == SpecAtom::Group(avs));
                    assert(node_size(c[0]) == 3 + alts_list_size(avs));
                }
                let ghost target = spec_try_alts(
                    avs,
                    self.group_index,
                    rest,
                    text@,
                    index as int,
                    caps1,
                );
                proof {
                    assert(goal == target);
                }
                let n = alts.len();
                let mut i: usize = 0;
                proof {
                    assert(avs.subrange(0, n as int) =~= avs);
                }
                while i < n
                    invariant
                        i <= n,
                        n == alts@.len(),
                        n == avs.len(),
                        index <= text@.len(),
                        tlen == text@.len(),
                        avs == alts_view(alts@),
                        cs.counter == counter0,
                        chain_size(c) == node_size(c[0]) + chain_size(rest),
                        node_size(c[0]) == 3 + alts_list_size(avs),
                        c == chain_view(*self),
                        rest == c.subrange(1, c.len() as int),
                        (self.next matches Option::Some(b) ==> rest == chain_view(*b)),
                        (self.next is None ==> rest.len() == 0),
                        spec_try_alts(
                            avs.subrange(i as int, n as int),
                            self.group_index,
                            rest,
                            text@,
                            index as int,
                            cs.captures(),
                        ) == target,
                    decreases n - i,
                {
                    proof {
                        lemma_alts_view_index(alts@, i as int);
                        lemma_alts_list_size_parts(avs.subrange(i as int, n as int));
                    }
                    let ghost remaining = avs.subrange(i as int, n as int);
                    let ghost capsI = cs.captures();
                    let (ok, end) = alts[i].try_match(text, index, cs);
                    proof {
                        assert(remaining[0] == avs[i as int]);
                        assert(remaining.subrange(1, remaining.len() as int) =~= avs.subrange(
                            i as int + 1,
                            n as int,
                        ));
                    }
                    if ok {
                        let cap = copy_range(text, index, end);
                        cs.record(self.group_index, cap);
                        match &self.next {
                            Option::Some(nx) => {
                                let (ok2, end2) = nx.try_match(text, end, cs);
                                if ok2 {
                                    return (ok2, end2);
                                } else {
                                    return (false, index);
                                }
                            },
                            Option::None => {
                                return (true, end);
                            },
                        }
                    }
                    i = i + 1;
                }
                proof {
                    assert(avs.subrange(n as int, n as int) =~= Seq::<Seq<SpecNode>>::empty());
                }
                return (false, index);
            },
        }
        let ghost caps2 = cs.captures();
        proof {
            assert(caps2 == caps1);
            assert(goal == spec_tail(c, text@, index as int, idx as int, caps2));
        }
        if self.quantifier == Quantifier::OneOrMore && idx > index {
            let (ok, end) = self.try_match(text, idx, cs);
            if ok {
                return (ok, end);
            }
        }
        match &self.next {
            Option::Some(nx) => {
                let (ok3, end3) = nx.try_match(text, idx, cs);
                return (ok3, end3);
            },
            Option::None => {
                return (true, idx);
            },
        }
    }
}

/// Search driver: attempt the compiled chain at every start offset of the
/// line in order (the offset one past the end included, where only an end
/// anchor can match), and report whether some offset matched.
///
/// One capture table is shared by all the attempts, so captures recorded by
/// a failed attempt at an earlier offset stay visible to later attempts
/// unless overwritten; the contract states that sharing exactly rather than
/// scoping captures per attempt.
#[verifier::loop_isolation(false)]
pub fn match_pattern(input_line: &Vec<char>, pattern: &Pattern, cs: &mut CaptureState) -> (r: bool)
    requires
        input_line@.len() < usize::MAX,
    ensures
        ({
            let t = spec_search_from(chain_view(*pattern), input_line@, 0, old(cs).captures());
            r == t.0 && final(cs).captures() == t.1
        }),
        final(cs).counter == old(cs).counter,
{
    let ghost c = chain_view(*pattern);
    let ghost caps0 = cs.captures();
    let ghost counter0 = cs.counter;
    let ghost target = spec_search_from(c, input_line@, 0, caps0);
    let mut i: usize = 0;
    while i <= input_line.len()
        invariant
            i <= input_line@.len() + 1,
            cs.counter == counter0,
            spec_search_from(c, input_line@, i as int, cs.captures()) == target,
        decreases input_line@.len() + 1 - i,
    {
        let (ok, _end) = pattern.try_match(input_line, i, cs);
        if ok {
            return true;
        }
        i = i + 1;
    }
    false
}

/// Compile the pattern string and search the line with it: true exactly when
/// some start offset yields a full match of the compiled chain, and the
/// model's parse error when the pattern is rejected.
pub fn match_string(input_line: &Vec<char>, pattern: &Vec<char>) -> (r: Result<bool, ParseError>)
    requires
        input_line@.len() < usize::MAX,
        pattern@.len() < usize::MAX,
    ensures
        r == spec_match_string(input_line@, pattern@),
{
    let mut cs = CaptureState::new();
    match make_pattern(pattern, &mut cs) {
        Result::Err(e) => Result::Err(e),
        Result::Ok(p) => Result::Ok(match_pattern(input_line, &p, &mut cs)),
    }
}

} // verus!

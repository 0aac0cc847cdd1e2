//! Compiled pattern trees and their mathematical model.
//!
//! The executable types mirror the data model of the engine: a `Pattern` is
//! one node of a singly linked concatenation chain, owning its continuation.
//! The specification model flattens such a chain into a `Seq<SpecNode>`, a
//! character class into a `Set<char>`, and a group into a `Seq` of
//! alternative sub-chains; every contract in the crate speaks of that model.

use vstd::prelude::*;

verus! {

/// How many times a node's atom may or must be consumed.
#[derive(Clone, Copy, PartialEq, Eq, Structural)]
pub enum Quantifier {
    /// The atom may be skipped entirely.
    Optional,
    /// The atom is consumed exactly once.
    ExactlyOnce,
    /// The atom is consumed once and then greedily repeated.
    OneOrMore,
}

/// The smallest unit a pattern node matches: a character class, an anchor, a
/// parenthesized group of alternatives, or a backreference.
pub enum Atom {
    /// A Unicode numeric character.
    Digit,
    /// A Unicode alphanumeric character.
    Alnum,
    /// Any single character.
    Wildcard,
    /// Succeeds only at offset zero, consuming nothing.
    StartAnchor,
    /// Succeeds only at the end of the line, consuming nothing.
    EndAnchor,
    /// Any character listed between brackets; a single literal character is
    /// the one-element case.
    CharSet(Vec<char>),
    /// Any character not listed between brackets.
    NegCharSet(Vec<char>),
    /// Alternative sub-chains, tried in order; the matched text is recorded
    /// under the node's group index.
    Group(Vec<Pattern>),
    /// Requires the text to repeat the capture of the named group verbatim.
    Backreference(usize),
}

/// One unit of a compiled pattern: an atom, its quantifier, the following
/// node of the same concatenation chain, and, for groups, the capture slot
/// the group writes to.
pub struct Pattern {
    pub atom: Atom,
    pub quantifier: Quantifier,
    pub next: Option<Box<Pattern>>,
    pub group_index: usize,
}

/// Model of one pattern node: its continuation lives in the surrounding
/// sequence rather than in the node itself.
pub struct SpecNode {
    pub atom: SpecAtom,
    pub quantifier: Quantifier,
    pub group_index: usize,
}

/// Model of an atom: character classes are sets, and a group is a sequence
/// of alternative sub-chains.
pub enum SpecAtom {
    Digit,
    Alnum,
    Wildcard,
    StartAnchor,
    EndAnchor,
    CharSet(Set<char>),
    NegCharSet(Set<char>),
    Group(Seq<Seq<SpecNode>>),
    Backreference(usize),
}

/// The model of a single node, ignoring its continuation link.
pub open spec fn node_view(p: Pattern) -> SpecNode
    decreases p, 0int,
{
    SpecNode { atom: atom_view(p.atom), quantifier: p.quantifier, group_index: p.group_index }
}

/// The model of an atom.
pub open spec fn atom_view(a: Atom) -> SpecAtom
    decreases a, 0int,
{
    match a {
        Atom::Digit => SpecAtom::Digit,
        Atom::Alnum => SpecAtom::Alnum,
        Atom::Wildcard => SpecAtom::Wildcard,
        Atom::StartAnchor => SpecAtom::StartAnchor,
        Atom::EndAnchor => SpecAtom::EndAnchor,
        Atom::CharSet(v) => SpecAtom::CharSet(v@.to_set()),
        Atom::NegCharSet(v) => SpecAtom::NegCharSet(v@.to_set()),
        Atom::Group(alts) => SpecAtom::Group(alts_view(alts@)),
        Atom::Backreference(k) => SpecAtom::Backreference(k),
    }
}

/// The models of a sequence of alternative sub-chains.
pub open spec fn alts_view(s: Seq<Pattern>) -> Seq<Seq<SpecNode>>
    decreases s, 0int,
{
    if s.len() == 0 {
        Seq::empty()
    } else {
        seq![chain_view(s[0])] + alts_view(s.subrange(1, s.len() as int))
    }
}

/// The model of a whole concatenation chain, flattened into a sequence by
/// following the ownership links.
pub open spec fn chain_view(p: Pattern) -> Seq<SpecNode>
    decreases p, 1int,
{
    seq![node_view(p)] + match p.next {
        Option::None => Seq::<SpecNode>::empty(),
        Option::Some(b) => chain_view(*b),
    }
}

/// Structural size of a model node, used as a termination measure by the
/// matcher: a group outweighs everything it contains.
pub open spec fn node_size(n: SpecNode) -> nat
    decreases n, 0int,
{
    match n.atom {
        SpecAtom::Group(alts) => 3 + alts_list_size(alts),
        _ => 1,
    }
}

/// Combined size of a list of alternative sub-chains.
pub open spec fn alts_list_size(s: Seq<Seq<SpecNode>>) -> nat
    decreases s, 0int,
{
    if s.len() == 0 {
        0
    } else {
        chain_size(s[0]) + 1 + alts_list_size(s.subrange(1, s.len() as int))
    }
}

/// Combined size of a model chain.
pub open spec fn chain_size(c: Seq<SpecNode>) -> nat
    decreases c, 1int,
{
    if c.len() == 0 {
        0
    } else {
        node_size(c[0]) + chain_size(c.subrange(1, c.len() as int))
    }
}

/// A chain's model always starts with the model of its head node.
pub proof fn lemma_chain_view_shape(p: Pattern)
    ensures
        chain_view(p).len() >= 1,
        chain_view(p)[0] == node_view(p),
        (p.next matches Option::Some(b) ==> chain_view(p).subrange(1, chain_view(p).len() as int)
            == chain_view(*b)),
        (p.next is None ==> chain_view(p).subrange(1, chain_view(p).len() as int)
            == Seq::<SpecNode>::empty()),
{
    match p.next {
        Option::None => {
            assert(chain_view(p).subrange(1, chain_view(p).len() as int) =~= Seq::<
                SpecNode,
            >::empty());
        },
        Option::Some(b) => {
            assert(chain_view(p).subrange(1, chain_view(p).len() as int) =~= chain_view(*b));
        },
    }
}

/// Every model node has positive size, and a chain's size dominates the size
/// of the chain after its head.
pub proof fn lemma_chain_size_parts(c: Seq<SpecNode>)
    requires
        c.len() >= 1,
    ensures
        chain_size(c) == node_size(c[0]) + chain_size(c.subrange(1, c.len() as int)),
        node_size(c[0]) >= 1,
        chain_size(c) > chain_size(c.subrange(1, c.len() as int)),
{
}

/// A non-empty list of alternatives weighs more than its first alternative
/// and more than the list without it.
pub proof fn lemma_alts_list_size_parts(s: Seq<Seq<SpecNode>>)
    requires
        s.len() >= 1,
    ensures
        alts_list_size(s) == chain_size(s[0]) + 1 + alts_list_size(
            s.subrange(1, s.len() as int),
        ),
{
}

/// Indexing the model list of alternatives agrees with taking the model of
/// the corresponding alternative, and each alternative weighs less than the
/// whole list.
pub proof fn lemma_alts_view_index(s: Seq<Pattern>, i: int)
    requires
        0 <= i < s.len(),
    ensures
        alts_view(s).len() == s.len(),
        alts_view(s)[i] == chain_view(s[i]),
        chain_size(alts_view(s)[i]) < alts_list_size(alts_view(s)),
    decreases s.len(),
{
    let rest = s.subrange(1, s.len() as int);
    assert(alts_view(s) == seq![chain_view(s[0])] + alts_view(rest));
    lemma_alts_view_len(rest);
    if i == 0 {
        assert(alts_view(s)[0] == chain_view(s[0]));
        assert(alts_view(s).subrange(1, alts_view(s).len() as int) =~= alts_view(rest));
    } else {
        lemma_alts_view_index(rest, i - 1);
        assert(alts_view(s)[i] == alts_view(rest)[i - 1]);
        assert(alts_view(s).subrange(1, alts_view(s).len() as int) =~= alts_view(rest));
        assert(alts_list_size(alts_view(s)) == chain_size(chain_view(s[0])) + 1 + alts_list_size(
            alts_view(rest),
        ));
    }
}

/// Appending an alternative appends its model chain.
pub proof fn lemma_alts_view_push(s: Seq<Pattern>, p: Pattern)
    ensures
        alts_view(s.push(p)) == alts_view(s).push(chain_view(p)),
    decreases s.len(),
{
    if s.len() == 0 {
        assert(s.push(p).subrange(1, 1) =~= Seq::<Pattern>::empty());
        assert(alts_view(Seq::<Pattern>::empty()) == Seq::<Seq<SpecNode>>::empty());
        assert(s =~= Seq::<Pattern>::empty());
        assert(s.push(p)[0] == p);
        assert(alts_view(s.push(p)) == seq![chain_view(p)] + Seq::<Seq<SpecNode>>::empty());
        assert(alts_view(s.push(p)) =~~= alts_view(s).push(chain_view(p)));
    } else {
        let rest = s.subrange(1, s.len() as int);
        assert(s.push(p).subrange(1, s.len() as int + 1) =~= rest.push(p));
        lemma_alts_view_push(rest, p);
        assert(s.push(p)[0] == s[0]);
        assert(alts_view(s.push(p)) == seq![chain_view(s.push(p)[0])] + alts_view(
            s.push(p).subrange(1, s.push(p).len() as int),
        ));
        assert(alts_view(s) == seq![chain_view(s[0])] + alts_view(rest));
        assert(alts_view(s.push(p)) =~~= alts_view(s).push(chain_view(p)));
    }
}

/// The model list of alternatives has one entry per alternative.
pub proof fn lemma_alts_view_len(s: Seq<Pattern>)
    ensures
        alts_view(s).len() == s.len(),
    decreases s.len(),
{
    if s.len() > 0 {
        lemma_alts_view_len(s.subrange(1, s.len() as int));
    }
}

} // verus!

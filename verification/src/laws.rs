//! Engine-wide properties, stated over the model and proved once and for
//! all: single-character literal search, determinism of compilation, and the
//! demand the one-or-more quantifier places on its atom.

use vstd::prelude::*;

use crate::matcher::class_test;
use crate::matcher::is_class_atom;
use crate::matcher::spec_search_from;
use crate::matcher::spec_try_chain;
use crate::parser::spec_parse;
use crate::pattern::Quantifier;
use crate::pattern::SpecAtom;
use crate::pattern::SpecNode;

verus! {

/// Whether the character opens one of the parser's special forms; any other
/// single character compiles to a literal one-character class.
pub open spec fn is_meta_char(c: char) -> bool {
    c == '\\' || c == '(' || c == '[' || c == '.' || c == '^' || c == '$'
}

/// The chain a single literal character compiles to.
pub open spec fn literal_node(c: char) -> SpecNode {
    SpecNode {
        atom: SpecAtom::CharSet(seq![c].to_set()),
        quantifier: Quantifier::ExactlyOnce,
        group_index: 0,
    }
}

/// A one-character pattern made of an ordinary character compiles to a
/// single exactly-once node holding that character alone, whatever the group
/// counter.
pub proof fn lemma_literal_compile(c: char, ctr: int)
    requires
        !is_meta_char(c),
    ensures
        spec_parse(seq![c], 0, ctr) == Result::<(Seq<SpecNode>, int, int), crate::parser::ParseError>::Ok(
            (seq![literal_node(c)], 1, ctr),
        ),
{
    let chars = seq![c];
    assert(chars.subrange(0, 1) =~= chars);
    assert(crate::parser::spec_parse_atom(chars, 0, ctr) == Result::<
        (SpecAtom, usize, int, int),
        crate::parser::ParseError,
    >::Ok((SpecAtom::CharSet(chars.to_set()), 0, 1, ctr)));
}

/// One attempt of the literal chain at offset `i` succeeds exactly when the
/// character at `i` is the literal, and never changes the captures.
proof fn lemma_literal_attempt(c: char, s: Seq<char>, i: int, caps: Map<usize, Seq<char>>)
    requires
        0 <= i,
    ensures
        spec_try_chain(seq![literal_node(c)], s, i, caps).0 == (i < s.len() && s[i] == c),
        spec_try_chain(seq![literal_node(c)], s, i, caps).2 == caps,
{
    let chain = seq![literal_node(c)];
    let rest = chain.subrange(1, 1);
    assert(rest =~= Seq::<SpecNode>::empty());
    if i > s.len() {
        assert(spec_try_chain(chain, s, i, caps) == (false, i, caps));
    } else if i == s.len() {
        assert(!(chain[0].atom is EndAnchor));
        assert(spec_try_chain(chain, s, i, caps) == (false, i, caps));
    } else {
        assert(seq![c].to_set().contains(s[i]) == (s[i] == c)) by {
            if seq![c].contains(s[i]) {
                let w = choose|w: int| 0 <= w < seq![c].len() && seq![c][w] == s[i];
                assert(w == 0);
            }
            if s[i] == c {
                assert(seq![c][0] == s[i]);
                assert(seq![c].contains(s[i]));
            }
        }
        assert(class_test(chain[0].atom, s[i]) == (s[i] == c));
        assert(spec_try_chain(chain, s, i, caps) == crate::matcher::spec_consume(
            chain,
            s,
            i,
            caps,
        ));
        if s[i] == c {
            assert(crate::matcher::spec_consume(chain, s, i, caps)
                == crate::matcher::spec_tail(chain, s, i, i + 1, caps));
            assert(crate::matcher::clamp_pos(i + 1, i, s.len() as int) == i + 1);
            assert(crate::matcher::spec_tail(chain, s, i, i + 1, caps) == spec_try_chain(
                rest,
                s,
                i + 1,
                caps,
            ));
            assert(spec_try_chain(rest, s, i + 1, caps) == (true, i + 1, caps));
        } else {
            assert(crate::matcher::spec_consume(chain, s, i, caps) == (false, i, caps));
        }
    }
}

/// For every single literal character and every line: searching the line
/// with the compiled one-character pattern succeeds exactly when the line
/// contains that character, whatever captures an earlier attempt left
/// behind.
pub proof fn lemma_literal_search(c: char, s: Seq<char>, ctr: int, caps: Map<usize, Seq<char>>)
    requires
        !is_meta_char(c),
    ensures
        spec_parse(seq![c], 0, ctr) matches Result::Ok(t) && spec_search_from(
            t.0,
            s,
            0,
            caps,
        ).0 == s.contains(c),
{
    lemma_literal_compile(c, ctr);
    lemma_literal_search_from(c, s, 0, caps);
    assert((exists|j: int| 0 <= j < s.len() && s[j] == c) == s.contains(c));
}

/// Search from offset `i` onward finds the literal exactly when it occurs at
/// or after `i`.
proof fn lemma_literal_search_from(c: char, s: Seq<char>, i: int, caps: Map<usize, Seq<char>>)
    requires
        0 <= i,
    ensures
        spec_search_from(seq![literal_node(c)], s, i, caps).0 == exists|j: int|
            i <= j < s.len() && s[j] == c,
    decreases s.len() + 1 - i,
{
    let chain = seq![literal_node(c)];
    if i > s.len() {
        assert(!(exists|j: int| i <= j < s.len() && s[j] == c));
    } else {
        lemma_literal_attempt(c, s, i, caps);
        if i < s.len() && s[i] == c {
            assert(i <= i < s.len() && s[i] == c);
        } else {
            lemma_literal_search_from(c, s, i + 1, caps);
            assert((exists|j: int| i + 1 <= j < s.len() && s[j] == c) == (exists|j: int|
                i <= j < s.len() && s[j] == c)) by {
                if exists|j: int| i <= j < s.len() && s[j] == c {
                    let w = choose|j: int| i <= j < s.len() && s[j] == c;
                    assert(w != i);
                    assert(i + 1 <= w < s.len() && s[w] == c);
                }
            }
        }
    }
}

/// Compiling the same pattern string twice (with the same starting group
/// counter) yields chains that produce identical search results, captures
/// included, on every line: compilation is a function of the pattern alone.
pub proof fn lemma_compile_idempotent(
    pat: Seq<char>,
    ctr: int,
    c1: Seq<SpecNode>,
    c2: Seq<SpecNode>,
    line: Seq<char>,
    caps: Map<usize, Seq<char>>,
)
    requires
        spec_parse(pat, 0, ctr) matches Result::Ok(t) && c1 == t.0,
        spec_parse(pat, 0, ctr) matches Result::Ok(t) && c2 == t.0,
    ensures
        spec_search_from(c1, line, 0, caps) == spec_search_from(c2, line, 0, caps),
{
}

/// The one-or-more quantifier requires at least one consumption: a chain
/// headed by a character-class node marked one-or-more can match only if the
/// class itself accepts the character at the start offset.
pub proof fn lemma_one_or_more_consumes(
    c: Seq<SpecNode>,
    text: Seq<char>,
    i: int,
    caps: Map<usize, Seq<char>>,
)
    requires
        c.len() > 0,
        c[0].quantifier is OneOrMore,
        is_class_atom(c[0].atom),
    ensures
        spec_try_chain(c, text, i, caps).0 ==> 0 <= i < text.len() && class_test(
            c[0].atom,
            text[i],
        ),
{
    assert(!(c[0].atom is EndAnchor));
    if i > text.len() || i == text.len() {
        assert(!spec_try_chain(c, text, i, caps).0);
    } else {
        assert(spec_try_chain(c, text, i, caps) == crate::matcher::spec_consume(
            c,
            text,
            i,
            caps,
        ));
        if !(0 <= i && i < text.len() && class_test(c[0].atom, text[i])) {
            assert(crate::matcher::spec_consume(c, text, i, caps) == (false, i, caps));
        }
    }
}

} // verus!

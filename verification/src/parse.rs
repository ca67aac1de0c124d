//! Tokens of the table-driven lexer with their place in the text.
use vstd::prelude::*;
use std::collections::HashMap;
use crate::lex::{get_lexer, lengths_before, lua_rules, raw_rules, reverse_map, tokenization, tokenize};
use crate::syntax_kind::{spec_raw, SyntaxKind};
use crate::unicode::{byte_length, lemma_encode_len};

verus! {

broadcast use vstd::std_specs::hash::group_hash_axioms;

/// A token with the byte offsets where it starts and ends.
#[derive(Debug, Clone, Copy, PartialEq, Eq, Structural)]
pub struct GroundedToken {
    pub start: usize,
    pub end: usize,
    pub kind: SyntaxKind,
}

/// Each token placed after the ones before it, with its kind looked up.
pub open spec fn grounded(tokens: Seq<(u16, usize)>, reverse: Map<u16, SyntaxKind>) -> Seq<GroundedToken> {
    Seq::new(
        tokens.len(),
        |i: int|
            GroundedToken {
                start: lengths_before(tokens, i) as usize,
                end: lengths_before(tokens, i + 1) as usize,
                kind: reverse[tokens[i].0],
            },
    )
}

pub proof fn lemma_lengths_mono(tokens: Seq<(u16, usize)>, i: int, j: int)
    requires
        0 <= i <= j,
    ensures
        0 <= lengths_before(tokens, i) <= lengths_before(tokens, j),
    decreases j - i,
{
    if i < j {
        lemma_lengths_mono(tokens, i, j - 1);
    } else {
        lemma_lengths_nonneg(tokens, i);
    }
}

proof fn lemma_lengths_nonneg(tokens: Seq<(u16, usize)>, i: int)
    ensures
        0 <= lengths_before(tokens, i),
    decreases i,
{
    if i > 0 {
        lemma_lengths_nonneg(tokens, i - 1);
    }
}

/// The tokens cover the `n` bytes of a text exactly: each is not empty, the
/// first starts at 0, each starts where the one before ends, and the last
/// ends at `n`.
pub open spec fn tiles(v: Seq<GroundedToken>, n: int) -> bool {
    &&& forall|i: int| 0 <= i < v.len() ==> #[trigger] v[i].start < v[i].end
    &&& forall|i: int, j: int|
        0 <= i && j == i + 1 && j < v.len() ==> #[trigger] v[i].end == #[trigger] v[j].start
    &&& v.len() > 0 ==> v[0].start == 0 && v.last().end == n
    &&& v.len() == 0 ==> n == 0
}

/// Tokens of positive length that add up to `n` bytes, placed one after the
/// other, cover the text exactly.
pub proof fn lemma_grounded_tiles(tokens: Seq<(u16, usize)>, reverse: Map<u16, SyntaxKind>, n: int)
    requires
        forall|i: int| 0 <= i < tokens.len() ==> #[trigger] tokens[i].1 > 0,
        lengths_before(tokens, tokens.len() as int) == n,
        n <= usize::MAX,
    ensures
        tiles(grounded(tokens, reverse), n),
{
    let v = grounded(tokens, reverse);
    let m = tokens.len() as int;
    assert forall|i: int| 0 <= i < v.len() implies #[trigger] v[i].start < v[i].end by {
        lemma_lengths_mono(tokens, 0, i);
        lemma_lengths_mono(tokens, i + 1, m);
        assert(tokens[i].1 > 0);
    }
    assert forall|i: int, j: int| 0 <= i && j == i + 1 && j < v.len() implies #[trigger] v[i].end
        == #[trigger] v[j].start by {
        lemma_lengths_mono(tokens, 0, j);
        lemma_lengths_mono(tokens, j, m);
    }
    if m > 0 {
        lemma_lengths_mono(tokens, 0, m);
        assert(v.last() == v[m - 1]);
        assert(v[0].start == 0);
    }
}

/// Places each token after the ones before it and looks up its kind.
pub fn ground_tokens(tokens: &Vec<(u16, usize)>, reverse: &HashMap<u16, SyntaxKind>) -> (r: Vec<GroundedToken>)
    requires
        forall|i: int| 0 <= i < tokens@.len() ==> reverse@.contains_key(#[trigger] tokens@[i].0),
        lengths_before(tokens@, tokens@.len() as int) <= usize::MAX,
    ensures
        r@ == grounded(tokens@, reverse@),
{
    let mut res: Vec<GroundedToken> = Vec::new();
    let mut position: usize = 0;
    let mut i: usize = 0;
    while i < tokens.len()
        invariant
            i <= tokens@.len(),
            position == lengths_before(tokens@, i as int),
            lengths_before(tokens@, tokens@.len() as int) <= usize::MAX,
            forall|j: int| 0 <= j < tokens@.len() ==> reverse@.contains_key(#[trigger] tokens@[j].0),
            res@ == grounded(tokens@, reverse@).take(i as int),
        decreases tokens@.len() - i,
    {
        let (k, len) = tokens[i];
        proof {
            lemma_lengths_mono(tokens@, i + 1, tokens@.len() as int);
        }
        let kind = match reverse.get(&k) {
            Some(kind) => *kind,
            None => SyntaxKind::NONE,
        };
        res.push(GroundedToken { start: position, end: position + len, kind });
        position = position + len;
        i = i + 1;
        assert(res@ =~= grounded(tokens@, reverse@).take(i as int));
    }
    assert(grounded(tokens@, reverse@).take(tokens@.len() as int) =~= grounded(tokens@, reverse@));
    res
}

/// The placed tokens of a text, by the Lua lexer's rules; None when a token
/// has a kind the rules do not give, an error token where no rule matches.
pub fn parse_text(text: &str) -> (r: Option<Vec<GroundedToken>>)
    ensures
        ({
            let toks = tokenization(raw_rules(lua_rules()), seq![spec_raw(SyntaxKind::NONE)], text@);
            &&& r is Some <==> forall|i: int|
                0 <= i < toks.len() ==> reverse_map(lua_rules()).contains_key(#[trigger] toks[i].0)
            &&& r matches Some(v) ==> v@ == grounded(toks, reverse_map(lua_rules()))
            &&& r matches Some(v) ==> tiles(v@, byte_length(text@))
        }),
{
    let (lexer, reverse) = get_lexer();
    let tokens = tokenize(&lexer, text);
    proof {
        lemma_encode_len(text@);
    }
    let _total = text.as_bytes().len();
    let mut i: usize = 0;
    while i < tokens.len()
        invariant
            i <= tokens@.len(),
            reverse@ == reverse_map(lua_rules()),
            tokens@ == tokenization(raw_rules(lua_rules()), seq![spec_raw(SyntaxKind::NONE)], text@),
            forall|j: int| 0 <= j < i ==> reverse@.contains_key(#[trigger] tokens@[j].0),
        decreases tokens@.len() - i,
    {
        if !reverse.contains_key(&tokens[i].0) {
            assert(!reverse_map(lua_rules()).contains_key(tokens@[i as int].0));
            return None;
        }
        i = i + 1;
    }
    proof {
        lemma_grounded_tiles(tokens@, reverse@, byte_length(text@));
    }
    Some(ground_tokens(&tokens, &reverse))
}

} // verus!

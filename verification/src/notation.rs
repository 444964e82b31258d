//! A whole notation: tokens separated by commas, and the components that
//! they name together.

use vstd::prelude::*;
use crate::error::Failure;
use crate::internal::RangeComponent;
use crate::parse::token_components;

verus! {

/// The tokens of a notation: the stretches between its commas. A notation
/// without a comma is one token; each comma ends a token and starts the
/// next; a token between two commas, or at an end, may be empty.
pub open spec fn tokens_of(text: Seq<char>) -> Seq<Seq<char>>
    decreases text.len(),
{
    if text.len() == 0 {
        seq![Seq::<char>::empty()]
    } else {
        let before = tokens_of(text.drop_last());
        if text.last() == ',' {
            before.push(Seq::<char>::empty())
        } else {
            before.drop_last().push(before.last().push(text.last()))
        }
    }
}

/// The tokens written out again with a comma between each two.
pub open spec fn joined(tokens: Seq<Seq<char>>) -> Seq<char>
    decreases tokens.len(),
{
    if tokens.len() == 0 {
        Seq::<char>::empty()
    } else if tokens.len() == 1 {
        tokens[0]
    } else {
        joined(tokens.drop_last()).push(',') + tokens.last()
    }
}

/// Whether every token of a run is empty.
pub open spec fn all_empty(tokens: Seq<Seq<char>>) -> bool {
    forall|i: int| 0 <= i < tokens.len() ==> (#[trigger] tokens[i]).len() == 0
}

/// The components that a run of tokens names: those of each token, taken
/// together. The first token from the left that is refused decides the
/// failure; an empty token is refused as any other token of a wrong length.
pub open spec fn components_of_tokens(tokens: Seq<Seq<char>>) -> Result<
    Set<RangeComponent>,
    Failure,
>
    decreases tokens.len(),
{
    if tokens.len() == 0 {
        Ok(Set::<RangeComponent>::empty())
    } else {
        match components_of_tokens(tokens.drop_last()) {
            Err(failure) => Err(failure),
            Ok(before) => match token_components(tokens.last()) {
                Err(failure) => Err(failure),
                Ok(more) => Ok(before.union(more)),
            },
        }
    }
}

/// The components that a notation names, or the reason it is refused. A
/// notation of nothing but empty tokens, the empty notation among them, is
/// an empty range. In every other notation the first token from the left
/// that is refused decides, an empty token too; where none is refused, the
/// notation names what its tokens name together.
pub open spec fn notation_components(text: Seq<char>) -> Result<Set<RangeComponent>, Failure> {
    if all_empty(tokens_of(text)) {
        Err(Failure::EmptyRange)
    } else {
        components_of_tokens(tokens_of(text))
    }
}

/// The tokens that a vector of character vectors holds.
pub open spec fn token_views(tokens: Seq<Vec<char>>) -> Seq<Seq<char>> {
    Seq::new(tokens.len(), |i: int| tokens[i]@)
}

/// Splits a notation at its commas.
pub fn split_tokens(text: &str) -> (tokens: Vec<Vec<char>>)
    ensures
        token_views(tokens@) == tokens_of(text@),
{
    let mut done: Vec<Vec<char>> = Vec::new();
    let mut current: Vec<char> = Vec::new();
    let ghost mut seen: Seq<char> = Seq::empty();
    for c in it: text.chars()
        invariant
            it.seq() == text@,
            seen == it.history(),
            token_views(done@).push(current@) == tokens_of(seen),
    {
        proof {
            assert(seen.push(c).drop_last() =~= seen);
            seen = seen.push(c);
        }
        if c == ',' {
            done.push(current);
            current = Vec::new();
        } else {
            current.push(c);
        }
    }
    assert(seen =~= text@);
    done.push(current);
    done
}

/// Whether every token is empty.
pub fn only_empty_tokens(tokens: &Vec<Vec<char>>) -> (only: bool)
    ensures
        only == all_empty(token_views(tokens@)),
{
    let mut at: usize = 0;
    while at < tokens.len()
        invariant
            at <= tokens@.len(),
            forall|i: int| 0 <= i < at ==> (#[trigger] token_views(tokens@)[i]).len() == 0,
        decreases tokens@.len() - at,
    {
        if tokens[at].len() > 0 {
            assert(token_views(tokens@)[at as int].len() > 0);
            return false;
        }
        at += 1;
    }
    true
}

/// A failure among the first tokens is the failure of the whole run.
pub proof fn lemma_failure_stays(tokens: Seq<Seq<char>>, count: int)
    requires
        0 <= count <= tokens.len(),
        components_of_tokens(tokens.take(count)) is Err,
    ensures
        components_of_tokens(tokens) == components_of_tokens(tokens.take(count)),
    decreases tokens.len(),
{
    if count == tokens.len() {
        assert(tokens.take(count) =~= tokens);
    } else {
        assert(tokens.drop_last().take(count) =~= tokens.take(count));
        lemma_failure_stays(tokens.drop_last(), count);
    }
}

/// What the first tokens name is told from what those before the last of
/// them name and from that last one.
pub proof fn lemma_one_more_token(tokens: Seq<Seq<char>>, count: int)
    requires
        0 <= count < tokens.len(),
    ensures
        components_of_tokens(tokens.take(count + 1)) == (match components_of_tokens(
            tokens.take(count),
        ) {
            Err(failure) => Err(failure),
            Ok(before) => match token_components(tokens[count]) {
                Err(failure) => Err(failure),
                Ok(more) => Ok(before.union(more)),
            },
        }),
{
    assert(tokens.take(count + 1).drop_last() =~= tokens.take(count));
}

} // verus!

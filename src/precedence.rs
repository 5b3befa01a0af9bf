use vstd::prelude::*;

use crate::token::{
    alnum_run, boolean_match, classifier_matches, classify, is_alnum, lemma_alnum_run,
    longest_match, prefer, Match, TokenModel,
};

verus! {

/// Length consumed by a match that is present.
pub open spec fn match_len(m: Match) -> nat
    recommends
        m is Some,
{
    match m {
        Some((_, n)) => n,
        None => 0,
    }
}

/// When no match in `ms` reaches length `c`, neither does their reduction.
pub proof fn lemma_longest_match_below(ms: Seq<Match>, c: nat)
    requires
        forall|j: int| 0 <= j < ms.len() && (#[trigger] ms[j]) is Some ==> match_len(ms[j]) < c,
    ensures
        longest_match(ms) is Some ==> match_len(longest_match(ms)) < c,
    decreases ms.len(),
{
    if ms.len() > 0 {
        let init = ms.drop_last();
        assert forall|j: int| 0 <= j < init.len() && (#[trigger] init[j]) is Some implies match_len(
            init[j],
        ) < c by {
            assert(init[j] == ms[j]);
        }
        lemma_longest_match_below(init, c);
    }
}

/// The reduction is absent exactly when every match is absent.
pub proof fn lemma_longest_match_none(ms: Seq<Match>)
    ensures
        longest_match(ms) is None <==> forall|j: int| 0 <= j < ms.len() ==> (#[trigger] ms[j]) is None,
    decreases ms.len(),
{
    if ms.len() > 0 {
        let init = ms.drop_last();
        lemma_longest_match_none(init);
        if longest_match(ms) is None {
            assert forall|j: int| 0 <= j < ms.len() implies (#[trigger] ms[j]) is None by {
                if j < ms.len() - 1 {
                    assert(init[j] == ms[j]);
                }
            }
        } else {
            if forall|j: int| 0 <= j < ms.len() ==> (#[trigger] ms[j]) is None {
                assert forall|j: int| 0 <= j < init.len() implies (#[trigger] init[j]) is None by {
                    assert(init[j] == ms[j]);
                }
                assert(ms[ms.len() - 1] is None);
            }
        }
    }
}

/// The engine's reduction picks the first of the longest matches: a match
/// that is longer than every earlier one and no shorter than every later one
/// is the result.
pub proof fn lemma_first_longest_wins(ms: Seq<Match>, i: int)
    requires
        0 <= i < ms.len(),
        ms[i] is Some,
        forall|j: int|
            0 <= j < i && (#[trigger] ms[j]) is Some ==> match_len(ms[j]) < match_len(ms[i]),
        forall|j: int|
            i < j < ms.len() && (#[trigger] ms[j]) is Some ==> match_len(ms[j]) <= match_len(
                ms[i],
            ),
    ensures
        longest_match(ms) == ms[i],
    decreases ms.len(),
{
    let init = ms.drop_last();
    if i == ms.len() - 1 {
        assert forall|j: int| 0 <= j < init.len() && (#[trigger] init[j]) is Some implies match_len(
            init[j],
        ) < match_len(ms[i]) by {
            assert(init[j] == ms[j]);
        }
        lemma_longest_match_below(init, match_len(ms[i]));
    } else {
        assert forall|j: int| 0 <= j < i && (#[trigger] init[j]) is Some implies match_len(init[j])
            < match_len(init[i]) by {
            assert(init[j] == ms[j]);
        }
        assert forall|j: int|
            i < j < init.len() && (#[trigger] init[j]) is Some implies match_len(init[j])
            <= match_len(init[i]) by {
            assert(init[j] == ms[j]);
        }
        lemma_first_longest_wins(init, i);
        assert(ms.last() == ms[ms.len() - 1]);
    }
}

/// What a present match says about the first character of the source.
proof fn lemma_first_char(s: Seq<char>)
    ensures
        classifier_matches(s)[0] is Some ==> s.len() > 0 && s[0] == '{',
        classifier_matches(s)[1] is Some ==> s.len() > 0 && s[0] == '}',
        classifier_matches(s)[2] is Some ==> s.len() > 0 && s[0] == '=',
        classifier_matches(s)[3] is Some ==> s.len() > 0 && (s[0] == '\n' || s[0] == ';'),
        classifier_matches(s)[4] is Some ==> s.len() > 0 && (s[0] == 't' || s[0] == 'f'),
        classifier_matches(s)[5] is Some ==> s.len() > 0 && is_alnum(s[0]),
{
    let ms = classifier_matches(s);
    if s.len() > 0 {
        assert(s.subrange(0, 1)[0] == s[0]);
    }
    if s.len() >= 4 {
        assert(s.subrange(0, 4)[0] == s[0]);
    }
    if s.len() >= 5 {
        assert(s.subrange(0, 5)[0] == s[0]);
    }
    if ms[5] is Some {
        lemma_alnum_run(s);
    }
}

/// A boolean literal is also a run of letters, at least as long.
proof fn lemma_symbol_covers_boolean(s: Seq<char>)
    requires
        boolean_match(s) is Some,
    ensures
        alnum_run(s) >= match_len(boolean_match(s)),
{
    lemma_alnum_run(s);
    let n = match_len(boolean_match(s)) as int;
    assert forall|k: int| 0 <= k < n implies is_alnum(#[trigger] s[k]) by {
        assert(s.subrange(0, n)[k] == s[k]);
    }
    if alnum_run(s) < n {
        assert(is_alnum(s[alnum_run(s) as int]));
    }
}

/// Only the boolean and the symbol classifiers ever match together, and then
/// the symbol is at least as long.
proof fn lemma_overlap(s: Seq<char>, i: int, j: int)
    requires
        0 <= i < j < 6,
        classifier_matches(s)[i] is Some,
        classifier_matches(s)[j] is Some,
    ensures
        i == 4 && j == 5,
        match_len(classifier_matches(s)[4]) <= match_len(classifier_matches(s)[5]),
{
    lemma_first_char(s);
    if i == 4 {
        lemma_symbol_covers_boolean(s);
    }
}

/// Tie-break: where two classifiers match with equal length, the engine
/// returns the earlier classifier's match.
pub proof fn tie_goes_to_earlier(s: Seq<char>, i: int, j: int)
    requires
        0 <= i < j < 6,
        classifier_matches(s)[i] is Some,
        classifier_matches(s)[j] is Some,
        match_len(classifier_matches(s)[i]) == match_len(classifier_matches(s)[j]),
    ensures
        classify(s) == classifier_matches(s)[i],
{
    let ms = classifier_matches(s);
    lemma_overlap(s, i, j);
    assert forall|k: int| 0 <= k < i && (#[trigger] ms[k]) is Some implies match_len(ms[k])
        < match_len(ms[i]) by {
        lemma_overlap(s, k, i);
    }
    lemma_first_longest_wins(ms, i);
}

/// Longest match: where one classifier matches strictly longer than another,
/// the engine returns the longer match.
pub proof fn longer_match_wins(s: Seq<char>, i: int, j: int)
    requires
        0 <= i < 6,
        0 <= j < 6,
        classifier_matches(s)[i] is Some,
        classifier_matches(s)[j] is Some,
        match_len(classifier_matches(s)[i]) < match_len(classifier_matches(s)[j]),
    ensures
        classify(s) == classifier_matches(s)[j],
        classify(s) != classifier_matches(s)[i],
{
    let ms = classifier_matches(s);
    if i < j {
        lemma_overlap(s, i, j);
    } else {
        lemma_overlap(s, j, i);
    }
    assert forall|k: int| 0 <= k < j && (#[trigger] ms[k]) is Some implies match_len(ms[k])
        < match_len(ms[j]) by {
        lemma_overlap(s, k, j);
    }
    lemma_first_longest_wins(ms, j);
}

/// A run of letters and digits that is neither `true` nor `false` is a
/// symbol consuming the whole run.
pub proof fn symbol_takes_whole_run(s: Seq<char>)
    requires
        alnum_run(s) > 0,
        s.subrange(0, alnum_run(s) as int) != seq!['t', 'r', 'u', 'e'],
        s.subrange(0, alnum_run(s) as int) != seq!['f', 'a', 'l', 's', 'e'],
    ensures
        classify(s) == Some((TokenModel::Symbol(s.subrange(0, alnum_run(s) as int)), alnum_run(s))),
{
    let ms = classifier_matches(s);
    let n = alnum_run(s);
    if boolean_match(s) is Some {
        lemma_symbol_covers_boolean(s);
    }
    assert forall|k: int| 0 <= k < 5 && (#[trigger] ms[k]) is Some implies match_len(ms[k])
        < match_len(ms[5]) by {
        lemma_overlap(s, k, 5);
    }
    lemma_first_longest_wins(ms, 5);
}

/// A source beginning with `{`, `}` or `=` gives that single-character token.
pub proof fn fixed_literal_is_one_char(s: Seq<char>)
    requires
        s.len() > 0,
    ensures
        s[0] == '{' ==> classify(s) == Some((TokenModel::OpenBracket, 1nat)),
        s[0] == '}' ==> classify(s) == Some((TokenModel::CloseBracket, 1nat)),
        s[0] == '=' ==> classify(s) == Some((TokenModel::Assign, 1nat)),
{
    let ms = classifier_matches(s);
    lemma_first_char(s);
    assert(s.subrange(0, 1) =~= seq![s[0]]);
    let i: int = if s[0] == '{' {
        0
    } else if s[0] == '}' {
        1
    } else {
        2
    };
    if s[0] == '{' || s[0] == '}' || s[0] == '=' {
        assert forall|k: int| 0 <= k < 6 && k != i implies (#[trigger] ms[k]) is None by {
            if ms[k] is Some {
                if k < i {
                    lemma_overlap(s, k, i);
                } else {
                    lemma_overlap(s, i, k);
                }
            }
        }
        lemma_first_longest_wins(ms, i);
    }
}

/// The engine finds nothing exactly when no classifier matches; in
/// particular nothing on the empty source.
pub proof fn no_match_iff_no_classifier(s: Seq<char>)
    ensures
        classify(s) is None <==> forall|k: int| 0 <= k < 6 ==> (#[trigger] classifier_matches(s)[k]) is None,
        s.len() == 0 ==> classify(s) is None,
{
    lemma_longest_match_none(classifier_matches(s));
    if s.len() == 0 {
        lemma_first_char(s);
    }
}

} // verus!

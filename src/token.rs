use vstd::prelude::*;
use vstd::std_specs::iter::IteratorSpec;
use vstd::utf8::encode_utf8;

use crate::annotation::Ann;
use crate::value::{Data, Local};

verus! {

/// A lexical unit, without position.
#[derive(Debug, Clone, PartialEq, Eq)]
pub enum Token {
    OpenBracket,
    CloseBracket,
    Sep,
    Assign,
    Symbol(Local),
    Boolean(Data),
}

/// The mathematical value of a [`Token`]: an identifier is its characters.
pub enum TokenModel {
    OpenBracket,
    CloseBracket,
    Sep,
    Assign,
    Symbol(Seq<char>),
    Boolean(Data),
}

impl View for Token {
    type V = TokenModel;

    open spec fn view(&self) -> TokenModel {
        match self {
            Token::OpenBracket => TokenModel::OpenBracket,
            Token::CloseBracket => TokenModel::CloseBracket,
            Token::Sep => TokenModel::Sep,
            Token::Assign => TokenModel::Assign,
            Token::Symbol(l) => TokenModel::Symbol(l@),
            Token::Boolean(d) => TokenModel::Boolean(*d),
        }
    }
}

/// A recognised token and the number of characters it consumed, or nothing.
pub type Consume = Option<(Token, usize)>;

/// What a classifier (or the whole engine) reports, in the model.
pub type Match = Option<(TokenModel, nat)>;

/// The model of an executable result.
pub open spec fn consume_model(r: Consume) -> Match {
    match r {
        Some((k, n)) => Some((k@, n as nat)),
        None => None,
    }
}

/// `s` begins with `lit`: the match is `kind`, consuming `lit`'s length.
pub open spec fn literal_match(s: Seq<char>, lit: Seq<char>, kind: TokenModel) -> Match {
    if lit.len() <= s.len() && s.subrange(0, lit.len() as int) == lit {
        Some((kind, lit.len()))
    } else {
        None
    }
}


/// An ASCII letter or digit.
pub open spec fn is_alnum(c: char) -> bool {
    ('a' <= c && c <= 'z') || ('A' <= c && c <= 'Z') || ('0' <= c && c <= '9')
}

/// Length of the run of ASCII letters and digits at the front of `s`.
pub open spec fn alnum_run(s: Seq<char>) -> nat
    decreases s.len(),
{
    if s.len() > 0 && is_alnum(s[0]) {
        1 + alnum_run(s.drop_first())
    } else {
        0
    }
}

pub open spec fn open_bracket_match(s: Seq<char>) -> Match {
    literal_match(s, seq!['{'], TokenModel::OpenBracket)
}

pub open spec fn close_bracket_match(s: Seq<char>) -> Match {
    literal_match(s, seq!['}'], TokenModel::CloseBracket)
}

pub open spec fn assign_match(s: Seq<char>) -> Match {
    literal_match(s, seq!['='], TokenModel::Assign)
}

/// A newline or `;` as the first character.
pub open spec fn sep_match(s: Seq<char>) -> Match {
    if s.len() > 0 && (s[0] == '\n' || s[0] == ';') {
        Some((TokenModel::Sep, 1))
    } else {
        None
    }
}

/// `true`, else `false`.
pub open spec fn boolean_match(s: Seq<char>) -> Match {
    let t = literal_match(s, seq!['t', 'r', 'u', 'e'], TokenModel::Boolean(Data::Boolean(true)));
    if t is Some {
        t
    } else {
        literal_match(s, seq!['f', 'a', 'l', 's', 'e'], TokenModel::Boolean(Data::Boolean(false)))
    }
}

/// The whole run of ASCII letters and digits at the front, if it is not empty.
pub open spec fn symbol_match(s: Seq<char>) -> Match {
    let n = alnum_run(s);
    if n > 0 {
        Some((TokenModel::Symbol(s.subrange(0, n as int)), n))
    } else {
        None
    }
}

/// The classifiers' results on `s`, in order of precedence.
pub open spec fn classifier_matches(s: Seq<char>) -> Seq<Match> {
    seq![
        open_bracket_match(s),
        close_bracket_match(s),
        assign_match(s),
        sep_match(s),
        boolean_match(s),
        symbol_match(s),
    ]
}

/// One step of the reduction: a new match replaces the best so far only when
/// it is strictly longer.
pub open spec fn prefer(best: Match, next: Match) -> Match {
    match next {
        None => best,
        Some((_, c)) => match best {
            None => next,
            Some((_, o)) => if c > o {
                next
            } else {
                best
            },
        },
    }
}

/// Longest match over `ms`, the earliest one winning a tie.
pub open spec fn longest_match(ms: Seq<Match>) -> Match
    decreases ms.len(),
{
    if ms.len() == 0 {
        None
    } else {
        prefer(longest_match(ms.drop_last()), ms.last())
    }
}

/// The token at the front of `s`, if any.
pub open spec fn classify(s: Seq<char>) -> Match {
    longest_match(classifier_matches(s))
}

/// `alnum_run` is the length of the longest all-alphanumeric prefix.
pub proof fn lemma_alnum_run(s: Seq<char>)
    ensures
        alnum_run(s) <= s.len(),
        forall|k: int| 0 <= k < alnum_run(s) ==> is_alnum(#[trigger] s[k]),
        alnum_run(s) < s.len() ==> !is_alnum(s[alnum_run(s) as int]),
    decreases s.len(),
{
    if s.len() > 0 && is_alnum(s[0]) {
        lemma_alnum_run(s.drop_first());
        assert forall|k: int| 0 <= k < alnum_run(s) implies is_alnum(#[trigger] s[k]) by {
            if k > 0 {
                assert(s[k] == s.drop_first()[k - 1]);
            }
        }
    }
}

/// A prefix of length `n` that is all alphanumeric and cannot be extended
/// is the run.
pub proof fn lemma_alnum_run_exact(s: Seq<char>, n: nat)
    requires
        n <= s.len(),
        forall|k: int| 0 <= k < n ==> is_alnum(#[trigger] s[k]),
        n < s.len() ==> !is_alnum(s[n as int]),
    ensures
        alnum_run(s) == n,
    decreases n,
{
    if n > 0 {
        assert(is_alnum(s[0]));
        let t = s.drop_first();
        assert forall|k: int| 0 <= k < n - 1 implies is_alnum(#[trigger] t[k]) by {
            assert(t[k] == s[k + 1]);
        }
        lemma_alnum_run_exact(t, (n - 1) as nat);
    }
}

/// Reducing one more match onto a prefix of `ms`.
pub proof fn lemma_longest_match_step(ms: Seq<Match>, k: int)
    requires
        0 <= k < ms.len(),
    ensures
        longest_match(ms.subrange(0, k + 1)) == prefer(longest_match(ms.subrange(0, k)), ms[k]),
{
    assert(ms.subrange(0, k + 1).drop_last() =~= ms.subrange(0, k));
}

/// Every character takes at least one byte in UTF-8.
proof fn lemma_encoded_len(chars: Seq<char>)
    ensures
        chars.len() <= encode_utf8(chars).len(),
    decreases chars.len(),
{
    if chars.len() > 0 {
        lemma_encoded_len(chars.drop_first());
    }
}

fn is_ascii_alnum(c: char) -> (r: bool)
    ensures
        r == is_alnum(c),
{
    ('a' <= c && c <= 'z') || ('A' <= c && c <= 'Z') || ('0' <= c && c <= '9')
}

impl Token {

    /// Classifies the token at the front of `source`: every classifier is
    /// tried in order of precedence, the longest match wins and, between
    /// matches of equal length, the earlier classifier.
    pub fn from(source: &str) -> (r: Consume)
        ensures
            consume_model(r) == classify(source@),
    {
        let ghost ms = classifier_matches(source@);
        let mut best: Consume = None;
        best = Token::keep_longer(best, Token::open_bracket(source));
        proof {
            lemma_longest_match_step(ms, 0);
            assert(ms.subrange(0, 0) =~= Seq::<Match>::empty());
        }
        best = Token::keep_longer(best, Token::close_bracket(source));
        proof {
            lemma_longest_match_step(ms, 1);
        }
        best = Token::keep_longer(best, Token::assign(source));
        proof {
            lemma_longest_match_step(ms, 2);
        }
        best = Token::keep_longer(best, Token::sep(source));
        proof {
            lemma_longest_match_step(ms, 3);
        }
        best = Token::keep_longer(best, Token::boolean(source));
        proof {
            lemma_longest_match_step(ms, 4);
        }
        best = Token::keep_longer(best, Token::symbol(source));
        proof {
            lemma_longest_match_step(ms, 5);
            assert(ms.subrange(0, 6) =~= ms);
        }
        best
    }

    /// `next` replaces `best` only when it is strictly longer.
    fn keep_longer(best: Consume, next: Consume) -> (r: Consume)
        ensures
            consume_model(r) == prefer(consume_model(best), consume_model(next)),
    {
        match next {
            None => best,
            Some((k, c)) => match best {
                None => Some((k, c)),
                Some((b, o)) => if c > o {
                    Some((k, c))
                } else {
                    Some((b, o))
                },
            },
        }
    }

    /// The run of ASCII letters and digits at the front, as an identifier.
    fn symbol(source: &str) -> (r: Consume)
        ensures
            consume_model(r) == symbol_match(source@),
    {
        let byte_len = source.as_bytes().len();
        proof {
            lemma_encoded_len(source@);
        }
        let mut len: usize = 0;
        let mut it = source.chars();
        loop
            invariant_except_break
                it.remaining() == source@.subrange(len as int, source@.len() as int),
            invariant
                source@.len() <= byte_len,
                len <= source@.len(),
                forall|k: int| 0 <= k < len ==> is_alnum(#[trigger] source@[k]),
            ensures
                len <= source@.len(),
                forall|k: int| 0 <= k < len ==> is_alnum(#[trigger] source@[k]),
                len < source@.len() ==> !is_alnum(source@[len as int]),
            decreases source@.len() - len,
        {
            match it.next() {
                None => {
                    break ;
                },
                Some(c) => {
                    if !is_ascii_alnum(c) {
                        break ;
                    }
                    len = len + 1;
                },
            }
        }
        proof {
            lemma_alnum_run_exact(source@, len as nat);
        }
        if len == 0 {
            None
        } else {
            let name = source.substring_char(0, len).to_owned();
            Some((Token::Symbol(Local::new(name)), len))
        }
    }

    fn open_bracket(source: &str) -> (r: Consume)
        ensures
            consume_model(r) == open_bracket_match(source@),
    {
        proof {
            reveal_strlit("{");
            assert("{"@ =~= seq!['{']);
        }
        Token::literal(source, "{", Token::OpenBracket)
    }

    fn close_bracket(source: &str) -> (r: Consume)
        ensures
            consume_model(r) == close_bracket_match(source@),
    {
        proof {
            reveal_strlit("}");
            assert("}"@ =~= seq!['}']);
        }
        Token::literal(source, "}", Token::CloseBracket)
    }

    fn assign(source: &str) -> (r: Consume)
        ensures
            consume_model(r) == assign_match(source@),
    {
        proof {
            reveal_strlit("=");
            assert("="@ =~= seq!['=']);
        }
        Token::literal(source, "=", Token::Assign)
    }

    /// `true`, else `false`.
    fn boolean(source: &str) -> (r: Consume)
        ensures
            consume_model(r) == boolean_match(source@),
    {
        proof {
            reveal_strlit("true");
            reveal_strlit("false");
            assert("true"@ =~= seq!['t', 'r', 'u', 'e']);
            assert("false"@ =~= seq!['f', 'a', 'l', 's', 'e']);
        }
        let t = Token::literal(source, "true", Token::Boolean(Data::Boolean(true)));
        if t.is_some() {
            return t;
        }
        Token::literal(source, "false", Token::Boolean(Data::Boolean(false)))
    }

    /// A newline or `;`, one character.
    fn sep(source: &str) -> (r: Consume)
        ensures
            consume_model(r) == sep_match(source@),
    {
        let mut it = source.chars();
        match it.next() {
            Some(c) => if c == '\n' || c == ';' {
                Some((Token::Sep, 1))
            } else {
                None
            },
            None => None,
        }
    }

    /// `kind`, consuming `literal`'s length, where `source` begins with
    /// `literal`; compares characters, so it never splits one.
    fn literal(source: &str, literal: &str, kind: Token) -> (r: Consume)
        ensures
            consume_model(r) == literal_match(source@, literal@, kind@),
    {
        let lit_len = literal.unicode_len();
        let mut src = source.chars();
        let mut lit = literal.chars();
        let mut i: usize = 0;
        while i < lit_len
            invariant
                lit_len == literal@.len(),
                i <= lit_len,
                i <= source@.len(),
                src.remaining() == source@.subrange(i as int, source@.len() as int),
                lit.remaining() == literal@.subrange(i as int, literal@.len() as int),
                source@.subrange(0, i as int) == literal@.subrange(0, i as int),
            decreases lit_len - i,
        {
            let a = lit.next();
            let b = src.next();
            match b {
                None => {
                    return None;
                },
                Some(c) => {
                    if a != Some(c) {
                        assert(lit_len <= source@.len() ==> source@.subrange(0, lit_len as int)[i as int]
                            != literal@[i as int]);
                        return None;
                    }
                },
            }
            assert(source@.subrange(0, i + 1) =~= source@.subrange(0, i as int).push(source@[i as int]));
            assert(literal@.subrange(0, i + 1) =~= literal@.subrange(0, i as int).push(literal@[i as int]));
            i = i + 1;
        }
        assert(literal@.subrange(0, lit_len as int) =~= literal@);
        Some((kind, lit_len))
    }
}

/// A token paired with where it was found.
#[derive(Debug, Clone, PartialEq, Eq)]
pub struct AnnToken {
    pub kind: Token,
    pub ann: Ann,
}

impl AnnToken {
    pub fn new(kind: Token, ann: Ann) -> (r: AnnToken)
        ensures
            r.kind == kind,
            r.ann == ann,
    {
        AnnToken { kind, ann }
    }
}

} // verus!

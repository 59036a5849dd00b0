//! Tokenizer for the pattern language.
//!
//! A pattern string is scanned left to right into a flat sequence of
//! [`Token`]s, keeping at most one pending token: path separators, braces,
//! commas and `!` are single-character tokens, a `*` merges with a pending
//! `*` into `**`, and any other character extends a pending word or starts
//! a new one.

use vstd::prelude::*;

verus! {

/// One lexical token of the pattern language.
#[derive(Debug, PartialEq)]
pub enum Token {
    /// `*`
    WildCard,
    /// `**`, produced by collapsing two adjacent `*`
    WildCardDepth,
    /// A maximal run of characters outside `{ } , / * !`
    Word(String),
    /// `{`
    Open,
    /// `}`
    Close,
    /// `,`
    Comma,
    /// `/`
    Slash,
    /// `!`
    Not,
}

/// Mathematical model of a token: a word carries its character sequence.
pub enum TokenV {
    WildCard,
    WildCardDepth,
    Word(Seq<char>),
    Open,
    Close,
    Comma,
    Slash,
    Not,
}

impl DeepView for Token {
    type V = TokenV;

    open spec fn deep_view(&self) -> TokenV {
        match self {
            Token::WildCard => TokenV::WildCard,
            Token::WildCardDepth => TokenV::WildCardDepth,
            Token::Word(s) => TokenV::Word(s@),
            Token::Open => TokenV::Open,
            Token::Close => TokenV::Close,
            Token::Comma => TokenV::Comma,
            Token::Slash => TokenV::Slash,
            Token::Not => TokenV::Not,
        }
    }
}

/// One step of the scan: given the next character and the pending token,
/// yields the token to emit (if any) and the new pending token.
pub open spec fn spec_token_next(c: char, pending: Option<TokenV>) -> (Option<TokenV>, TokenV) {
    if c == '/' {
        (pending, TokenV::Slash)
    } else if c == '{' {
        (pending, TokenV::Open)
    } else if c == '}' {
        (pending, TokenV::Close)
    } else if c == ',' {
        (pending, TokenV::Comma)
    } else if c == '*' {
        if pending == Some(TokenV::WildCard) {
            (None, TokenV::WildCardDepth)
        } else {
            (pending, TokenV::WildCard)
        }
    } else if c == '!' {
        (pending, TokenV::Not)
    } else {
        match pending {
            Some(TokenV::Word(s)) => (None, TokenV::Word(s.push(c))),
            _ => (pending, TokenV::Word(seq![c])),
        }
    }
}

/// The scan state after consuming `s`: the tokens emitted so far and the
/// pending token, folding [`spec_token_next`] over the characters.
pub open spec fn spec_scan(s: Seq<char>) -> (Seq<TokenV>, Option<TokenV>)
    decreases s.len(),
{
    if s.len() == 0 {
        (Seq::empty(), None)
    } else {
        let (toks, pending) = spec_scan(s.drop_last());
        let (push, next) = spec_token_next(s.last(), pending);
        (
            match push {
                Some(t) => toks.push(t),
                None => toks,
            },
            Some(next),
        )
    }
}

/// The token sequence a pattern denotes: the scan's tokens with the final
/// pending token flushed; an empty token sequence is never valid.
pub open spec fn spec_tokenize(s: Seq<char>) -> Option<Seq<TokenV>> {
    let (toks, pending) = spec_scan(s);
    let all = match pending {
        Some(t) => toks.push(t),
        None => toks,
    };
    if all.len() == 0 {
        None
    } else {
        Some(all)
    }
}

/// Relies on char::to_string: the result is a string holding exactly the
/// one character.
#[verifier::external_body]
fn char_to_string(c: char) -> (r: String)
    ensures
        r@ == seq![c],
{
    c.to_string()
}

impl Token {
    /// One step of the tokenizer on character `c` with pending token `tk`:
    /// returns the token to emit, if any, and the new pending token.
    pub fn next(c: char, tk: Option<Token>) -> (r: (Option<Token>, Token))
        ensures
            ({
                let (push, next) = spec_token_next(c, tk.deep_view());
                r.0.deep_view() == push && r.1.deep_view() == next
            }),
    {
        match (c, tk) {
            ('/', tk) => (tk, Token::Slash),
            ('{', tk) => (tk, Token::Open),
            ('}', tk) => (tk, Token::Close),
            (',', tk) => (tk, Token::Comma),
            ('*', Some(Token::WildCard)) => (None, Token::WildCardDepth),
            ('*', tk) => (tk, Token::WildCard),
            ('!', tk) => (tk, Token::Not),
            (c, Some(Token::Word(s))) => {
                let joined = s.concat(char_to_string(c).as_str());
                proof {
                    assert(joined@ =~= spec_token_next(c, Some(TokenV::Word(s@))).1->Word_0);
                }
                (None, Token::Word(joined))
            },
            (c, tk) => (tk, Token::Word(char_to_string(c))),
        }
    }

    /// Tokenizes a whole pattern; yields `None` on an empty pattern, whose
    /// empty token sequence is never valid.
    pub fn many_from(pattern: &str) -> (r: Option<Vec<Token>>)
        ensures
            r.deep_view() == spec_tokenize(pattern@),
    {
        let n = pattern.unicode_len();
        let mut v: Vec<Token> = Vec::new();
        let mut tk: Option<Token> = None;
        let mut i: usize = 0;
        while i < n
            invariant
                n == pattern@.len(),
                i <= n,
                (v.deep_view(), tk.deep_view()) == spec_scan(pattern@.take(i as int)),
            decreases n - i,
        {
            let c = pattern.get_char(i);
            let (push, next) = Token::next(c, tk);
            proof {
                assert(pattern@.take(i + 1 as int).drop_last() =~= pattern@.take(i as int));
                assert(pattern@.take(i + 1 as int).last() == pattern@[i as int]);
            }
            if let Some(push) = push {
                v.push(push);
            }
            tk = Some(next);
            i += 1;
        }
        proof {
            assert(pattern@.take(n as int) =~= pattern@);
        }
        if let Some(tk) = tk {
            v.push(tk);
        }
        if v.len() == 0 {
            return None;
        }
        Some(v)
    }
}

/// The literal text a token stands for in a pattern.
pub open spec fn spec_token_text(t: TokenV) -> Seq<char> {
    match t {
        TokenV::WildCard => seq!['*'],
        TokenV::WildCardDepth => seq!['*', '*'],
        TokenV::Word(s) => s,
        TokenV::Open => seq!['{'],
        TokenV::Close => seq!['}'],
        TokenV::Comma => seq![','],
        TokenV::Slash => seq!['/'],
        TokenV::Not => seq!['!'],
    }
}

/// The concatenation of the literal texts of a token sequence.
pub open spec fn spec_texts(ts: Seq<TokenV>) -> Seq<char>
    decreases ts.len(),
{
    if ts.len() == 0 {
        Seq::empty()
    } else {
        spec_texts(ts.drop_last()) + spec_token_text(ts.last())
    }
}

proof fn lemma_scan_texts(s: Seq<char>)
    ensures
        ({
            let (toks, pending) = spec_scan(s);
            spec_texts(toks) + match pending {
                Some(t) => spec_token_text(t),
                None => Seq::<char>::empty(),
            } =~= s
        }),
    decreases s.len(),
{
    if s.len() != 0 {
        lemma_scan_texts(s.drop_last());
        assert(s =~= s.drop_last().push(s.last()));
        let (toks0, pending0) = spec_scan(s.drop_last());
        let (push, next) = spec_token_next(s.last(), pending0);
        if let Some(t) = push {
            assert(toks0.push(t).drop_last() =~= toks0);
            assert(spec_texts(toks0.push(t)) == spec_texts(toks0) + spec_token_text(t));
        }
    }
}

/// Round-trip of the tokenizer: the literal texts of the tokens of a
/// pattern, concatenated in order, reconstruct the pattern exactly.
pub proof fn lemma_tokenize_round_trip(s: Seq<char>, toks: Seq<TokenV>)
    requires
        spec_tokenize(s) == Some(toks),
    ensures
        spec_texts(toks) =~= s,
{
    lemma_scan_texts(s);
    let (toks0, pending) = spec_scan(s);
    if let Some(t) = pending {
        assert(toks0.push(t).drop_last() =~= toks0);
        assert(spec_texts(toks0.push(t)) == spec_texts(toks0) + spec_token_text(t));
    }
}

} // verus!

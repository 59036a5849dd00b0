//! Parser for the pattern language.
//!
//! Tokens are consumed left to right into a [`Selector`] tree. The parser
//! keeps one level of accumulators — `concat` (atoms of the current
//! segment), `route` (segments of the current alternative), `option`
//! (alternatives) — plus a pending-negation flag, and a stack of saved
//! levels for nested brace groups.

use std::rc::Rc;
use vstd::prelude::*;
use crate::selector_tokens::{Token, TokenV, spec_tokenize};

verus! {

/// Parsed abstract syntax tree of the pattern language.
#[derive(Debug, PartialEq)]
pub enum Selector {
    /// `{a,b}` — alternation
    Option(Vec<Selector>),
    /// `a/b/c` — path-segment sequence
    Route(Vec<Selector>),
    /// `abc` as adjacent atoms — same-segment concatenation
    Concat(Vec<Selector>),
    /// `*`
    WildCard,
    /// `**`
    WildCardDepth,
    /// `!` — negation of exactly one child
    Not(Rc<Selector>),
    /// A literal word
    Word(String),
}

/// Mathematical model of a selector tree.
pub enum SelectorV {
    Option(Seq<SelectorV>),
    Route(Seq<SelectorV>),
    Concat(Seq<SelectorV>),
    WildCard,
    WildCardDepth,
    Not(Box<SelectorV>),
    Word(Seq<char>),
}

/// The model of a selector tree, child list by child list.
pub open spec fn spec_view_selector(s: Selector) -> SelectorV
    decreases s,
    via spec_view_selector_decreases
{
    match s {
        Selector::Option(v) => SelectorV::Option(spec_view_selectors(v@)),
        Selector::Route(v) => SelectorV::Route(spec_view_selectors(v@)),
        Selector::Concat(v) => SelectorV::Concat(spec_view_selectors(v@)),
        Selector::WildCard => SelectorV::WildCard,
        Selector::WildCardDepth => SelectorV::WildCardDepth,
        Selector::Not(s2) => SelectorV::Not(Box::new(spec_view_selector(*s2))),
        Selector::Word(w) => SelectorV::Word(w@),
    }
}

/// The models of a sequence of selector trees, in order.
pub open spec fn spec_view_selectors(v: Seq<Selector>) -> Seq<SelectorV>
    decreases v,
    via spec_view_selectors_decreases
{
    if v.len() == 0 {
        Seq::empty()
    } else {
        spec_view_selectors(v.drop_last()).push(spec_view_selector(v.last()))
    }
}

#[via_fn]
proof fn spec_view_selector_decreases(s: Selector) {
    match s {
        Selector::Option(v) => {
            assert(decreases_to!(s => v));
            assert(decreases_to!(v => v@));
        },
        Selector::Route(v) => {
            assert(decreases_to!(s => v));
            assert(decreases_to!(v => v@));
        },
        Selector::Concat(v) => {
            assert(decreases_to!(s => v));
            assert(decreases_to!(v => v@));
        },
        _ => {},
    }
}

#[via_fn]
proof fn spec_view_selectors_decreases(v: Seq<Selector>) {
    if v.len() != 0 {
        assert(v.drop_last() == v.subrange(0, v.len() - 1));
        assert(decreases_to!(v => v.subrange(0, v.len() - 1)));
        assert(v.last() == v[v.len() - 1]);
        assert(decreases_to!(v => v[v.len() - 1]));
    }
}

/// The length and elements of [`spec_view_selectors`]: the model of each
/// child, in place.
pub proof fn lemma_view_selectors(v: Seq<Selector>)
    ensures
        spec_view_selectors(v).len() == v.len(),
        forall|i: int|
            0 <= i < v.len() ==> spec_view_selectors(v)[i] == spec_view_selector(v[i]),
    decreases v.len(),
{
    if v.len() != 0 {
        lemma_view_selectors(v.drop_last());
    }
}

/// Pushing one selector extends the model sequence by that selector's
/// model.
pub proof fn lemma_view_selectors_push(v: Seq<Selector>, x: Selector)
    ensures
        spec_view_selectors(v.push(x)) == spec_view_selectors(v).push(spec_view_selector(x)),
{
    assert(v.push(x).drop_last() =~= v);
}

impl DeepView for Selector {
    type V = SelectorV;

    open spec fn deep_view(&self) -> SelectorV {
        spec_view_selector(*self)
    }
}

/// Model of one parse level: the three accumulators and the
/// pending-negation flag.
pub struct LevelV {
    pub option: Seq<SelectorV>,
    pub route: Seq<SelectorV>,
    pub concat: Seq<SelectorV>,
    pub negate_next: bool,
}

/// Model of the whole parser: the current level and the stack of levels
/// saved by open groups.
pub struct ParserV {
    pub stack: Seq<LevelV>,
    pub current: LevelV,
}

pub open spec fn msg_unused_negation() -> Seq<char> {
    "Unused negation mark"@
}

pub open spec fn msg_nothing_before_slash() -> Seq<char> {
    "Nothing before the slash"@
}

pub open spec fn msg_nothing_before_comma() -> Seq<char> {
    "Nothing before the comma"@
}

pub open spec fn msg_empty() -> Seq<char> {
    "Empty"@
}

pub open spec fn msg_no_opened_group() -> Seq<char> {
    "No opened group"@
}

pub open spec fn msg_unclosed_group() -> Seq<char> {
    "Unclosed group"@
}

pub open spec fn msg_invalid_pattern() -> Seq<char> {
    "Invalid pattern"@
}

/// A fresh, all-empty parse level.
pub open spec fn spec_level_new() -> LevelV {
    LevelV { option: Seq::empty(), route: Seq::empty(), concat: Seq::empty(), negate_next: false }
}

/// Appending an atom to `concat`, honoring and clearing a pending negation.
pub open spec fn spec_push_to_concat(l: LevelV, atom: SelectorV) -> LevelV {
    if l.negate_next {
        LevelV { concat: l.concat.push(SelectorV::Not(Box::new(atom))), negate_next: false, ..l }
    } else {
        LevelV { concat: l.concat.push(atom), ..l }
    }
}

/// Flushing `concat` into `route`: a singleton moves as is, a longer list
/// is wrapped in `Concat`, an empty list is an error only under `force`;
/// a pending negation mark must have been consumed.
pub open spec fn spec_push_to_route(l: LevelV, force: bool) -> Result<LevelV, Seq<char>> {
    if l.negate_next {
        Err(msg_unused_negation())
    } else if l.concat.len() == 1 {
        Ok(LevelV { concat: Seq::empty(), route: l.route.push(l.concat[0]), ..l })
    } else if l.concat.len() == 0 {
        if force {
            Err(msg_nothing_before_slash())
        } else {
            Ok(l)
        }
    } else {
        Ok(LevelV { concat: Seq::empty(), route: l.route.push(SelectorV::Concat(l.concat)), ..l })
    }
}

/// Flushing `concat` into `route` permissively, then `route` into
/// `option` under the same collapse rule.
pub open spec fn spec_push_to_option(l: LevelV, force: bool) -> Result<LevelV, Seq<char>> {
    match spec_push_to_route(l, false) {
        Err(e) => Err(e),
        Ok(l1) => if l1.route.len() == 1 {
            Ok(LevelV { route: Seq::empty(), option: l1.option.push(l1.route[0]), ..l1 })
        } else if l1.route.len() == 0 {
            if force {
                Err(msg_nothing_before_comma())
            } else {
                Ok(l1)
            }
        } else {
            Ok(LevelV { route: Seq::empty(), option: l1.option.push(SelectorV::Route(l1.route)), ..l1 })
        },
    }
}

/// Collapsing a fully flushed level to a single selector: a singleton
/// alternative stands alone, several wrap in `Option`, none is an error.
pub open spec fn spec_collect(l: LevelV) -> Result<SelectorV, Seq<char>> {
    match spec_push_to_option(l, false) {
        Err(e) => Err(e),
        Ok(l1) => if l1.option.len() == 1 {
            Ok(l1.option[0])
        } else if l1.option.len() == 0 {
            Err(msg_empty())
        } else {
            Ok(SelectorV::Option(l1.option))
        },
    }
}

/// A `}`: collapse the current level and append the result as an atom of
/// the restored level, honoring that level's pending negation.
pub open spec fn spec_pop(p: ParserV) -> Result<ParserV, Seq<char>> {
    if p.stack.len() == 0 {
        Err(msg_no_opened_group())
    } else {
        match spec_push_to_option(p.current, false) {
            Err(e) => Err(e),
            Ok(l1) => match spec_collect(l1) {
                Err(e) => Err(e),
                Ok(sel) => Ok(
                    ParserV {
                        stack: p.stack.drop_last(),
                        current: spec_push_to_concat(p.stack.last(), sel),
                    },
                ),
            },
        }
    }
}

/// The parser's transition on one token.
pub open spec fn spec_append_token(p: ParserV, t: TokenV) -> Result<ParserV, Seq<char>> {
    match t {
        TokenV::WildCard => Ok(
            ParserV { current: spec_push_to_concat(p.current, SelectorV::WildCard), ..p },
        ),
        TokenV::WildCardDepth => Ok(
            ParserV { current: spec_push_to_concat(p.current, SelectorV::WildCardDepth), ..p },
        ),
        TokenV::Word(s) => Ok(
            ParserV { current: spec_push_to_concat(p.current, SelectorV::Word(s)), ..p },
        ),
        TokenV::Not => Ok(
            ParserV { current: LevelV { negate_next: true, ..p.current }, ..p },
        ),
        TokenV::Open => Ok(ParserV { stack: p.stack.push(p.current), current: spec_level_new() }),
        TokenV::Close => spec_pop(p),
        TokenV::Comma => match spec_push_to_option(p.current, true) {
            Err(e) => Err(e),
            Ok(l) => Ok(ParserV { current: l, ..p }),
        },
        TokenV::Slash => match spec_push_to_route(p.current, true) {
            Err(e) => Err(e),
            Ok(l) => Ok(ParserV { current: l, ..p }),
        },
    }
}

/// Folding the parser over a token sequence, stopping at the first error.
pub open spec fn spec_parse_tokens(p: ParserV, ts: Seq<TokenV>) -> Result<ParserV, Seq<char>>
    decreases ts.len(),
{
    if ts.len() == 0 {
        Ok(p)
    } else {
        match spec_append_token(p, ts[0]) {
            Err(e) => Err(e),
            Ok(p1) => spec_parse_tokens(p1, ts.drop_first()),
        }
    }
}

/// The final state is valid only with no group left open; the top level
/// then collapses exactly as a `}` would.
pub open spec fn spec_get_valid_selector(p: ParserV) -> Result<SelectorV, Seq<char>> {
    if p.stack.len() != 0 {
        Err(msg_unclosed_group())
    } else {
        spec_collect(p.current)
    }
}

/// What parsing a whole pattern yields: the tokens of the pattern, folded
/// through the parser, collapsed to one selector — or the first error.
pub open spec fn spec_parse_selector(pattern: Seq<char>) -> Result<SelectorV, Seq<char>> {
    match spec_tokenize(pattern) {
        None => Err(msg_invalid_pattern()),
        Some(ts) => match spec_parse_tokens(
            ParserV { stack: Seq::empty(), current: spec_level_new() },
            ts,
        ) {
            Err(e) => Err(e),
            Ok(p) => spec_get_valid_selector(p),
        },
    }
}

/// One parse level holding the three accumulators and the
/// pending-negation flag.
pub struct ParserLevel {
    pub option: Vec<Selector>,
    pub route: Vec<Selector>,
    pub concat: Vec<Selector>,
    pub negate_next: bool,
}

impl DeepView for ParserLevel {
    type V = LevelV;

    open spec fn deep_view(&self) -> LevelV {
        LevelV {
            option: spec_view_selectors(self.option@),
            route: spec_view_selectors(self.route@),
            concat: spec_view_selectors(self.concat@),
            negate_next: self.negate_next,
        }
    }
}

impl ParserLevel {
    pub fn new() -> (r: Self)
        ensures
            r.deep_view() == spec_level_new(),
    {
        let r = ParserLevel {
            option: Vec::new(),
            route: Vec::new(),
            concat: Vec::new(),
            negate_next: false,
        };
        proof {
            assert(r.deep_view().option =~= spec_level_new().option);
            assert(r.deep_view().route =~= spec_level_new().route);
            assert(r.deep_view().concat =~= spec_level_new().concat);
        }
        r
    }

    /// Marks the next atom for negation; a repeated mark does not toggle.
    pub fn negate(&mut self)
        ensures
            final(self).deep_view() == (LevelV { negate_next: true, ..old(self).deep_view() }),
    {
        self.negate_next = true;
    }

    /// Appends an atom to `concat`, wrapping it in `Not` if a negation
    /// mark is pending.
    pub fn push_to_concat(&mut self, atom: Selector)
        ensures
            final(self).deep_view() == spec_push_to_concat(
                old(self).deep_view(),
                atom.deep_view(),
            ),
    {
        let ghost av = spec_view_selector(atom);
        let use_not = self.negate_next;
        if use_not {
            self.negate_next = false;
        }
        let wrapped = if use_not {
            Selector::Not(Rc::new(atom))
        } else {
            atom
        };
        proof {
            lemma_view_selectors_push(self.concat@, wrapped);
        }
        self.concat.push(wrapped);
    }

    /// Flushes `concat` into `route`; fails under `force` on an empty
    /// `concat`, and always on an unused negation mark.
    pub fn push_to_route(&mut self, force: bool) -> (r: Result<(), &'static str>)
        ensures
            ({
                let spec = spec_push_to_route(old(self).deep_view(), force);
                match r {
                    Ok(()) => spec is Ok && final(self).deep_view() == spec->Ok_0,
                    Err(e) => spec is Err && e@ == spec->Err_0 && final(self).deep_view() == old(
                        self,
                    ).deep_view(),
                }
            }),
    {
        if self.negate_next {
            return Err("Unused negation mark");
        }
        proof {
            lemma_view_selectors(self.concat@);
        }
        if self.concat.len() == 1 {
            let a = self.concat.pop().unwrap();
            proof {
                lemma_view_selectors(old(self).concat@);
                lemma_view_selectors_push(self.route@, a);
                assert(self.concat@ =~= Seq::<Selector>::empty());
            }
            self.route.push(a);
        } else if self.concat.len() == 0 {
            if force {
                return Err("Nothing before the slash");
            }
        } else {
            let mut taken: Vec<Selector> = Vec::new();
            core::mem::swap(&mut taken, &mut self.concat);
            let wrapped = Selector::Concat(taken);
            proof {
                lemma_view_selectors_push(self.route@, wrapped);
            }
            self.route.push(wrapped);
        }
        Ok(())
    }

    /// Flushes `concat` permissively, then `route` into `option`; fails
    /// under `force` on an empty `route`.
    pub fn push_to_option(&mut self, force: bool) -> (r: Result<(), &'static str>)
        ensures
            ({
                let spec = spec_push_to_option(old(self).deep_view(), force);
                match r {
                    Ok(()) => spec is Ok && final(self).deep_view() == spec->Ok_0,
                    Err(e) => spec is Err && e@ == spec->Err_0 && final(self).deep_view() == old(
                        self,
                    ).deep_view(),
                }
            }),
    {
        match self.push_to_route(false) {
            Err(e) => {
                return Err(e);
            },
            Ok(()) => {},
        }
        let ghost midroute = self.route@;
        proof {
            lemma_view_selectors(midroute);
        }
        if self.route.len() == 1 {
            let a = self.route.pop().unwrap();
            proof {
                lemma_view_selectors(midroute);
                lemma_view_selectors_push(self.option@, a);
                assert(self.route@ =~= Seq::<Selector>::empty());
            }
            self.option.push(a);
        } else if self.route.len() == 0 {
            if force {
                return Err("Nothing before the comma");
            }
        } else {
            let mut taken: Vec<Selector> = Vec::new();
            core::mem::swap(&mut taken, &mut self.route);
            let wrapped = Selector::Route(taken);
            proof {
                lemma_view_selectors_push(self.option@, wrapped);
            }
            self.option.push(wrapped);
        }
        Ok(())
    }

    /// Collapses the fully flushed level to one selector.
    pub fn collect(&mut self) -> (r: Result<Selector, &'static str>)
        ensures
            ({
                let spec = spec_collect(old(self).deep_view());
                match r {
                    Ok(sel) => spec is Ok && sel.deep_view() == spec->Ok_0,
                    Err(e) => spec is Err && e@ == spec->Err_0,
                }
            }),
    {
        match self.push_to_option(false) {
            Err(e) => {
                return Err(e);
            },
            Ok(()) => {},
        }
        proof {
            lemma_view_selectors(self.option@);
        }
        if self.option.len() == 1 {
            let a = self.option.pop().unwrap();
            Ok(a)
        } else if self.option.len() == 0 {
            Err("Empty")
        } else {
            let mut taken: Vec<Selector> = Vec::new();
            core::mem::swap(&mut taken, &mut self.option);
            Ok(Selector::Option(taken))
        }
    }
}

/// The parser: the current level and the stack of levels saved by open
/// brace groups.
pub struct Parser {
    pub stack: Vec<ParserLevel>,
    pub current: ParserLevel,
}

impl DeepView for Parser {
    type V = ParserV;

    open spec fn deep_view(&self) -> ParserV {
        ParserV { stack: self.stack.deep_view(), current: self.current.deep_view() }
    }
}

impl Parser {
    pub fn new() -> (r: Self)
        ensures
            r.deep_view() == (ParserV { stack: Seq::empty(), current: spec_level_new() }),
    {
        let r = Parser { stack: Vec::new(), current: ParserLevel::new() };
        proof {
            assert(r.deep_view().stack =~= Seq::<LevelV>::empty());
        }
        r
    }

    /// An `{`: saves the current level and starts a fresh one.
    pub fn push_to_stack(&mut self)
        ensures
            final(self).deep_view() == (ParserV {
                stack: old(self).deep_view().stack.push(old(self).deep_view().current),
                current: spec_level_new(),
            }),
    {
        let mut fresh = ParserLevel::new();
        core::mem::swap(&mut fresh, &mut self.current);
        self.stack.push(fresh);
        proof {
            assert(self.stack.deep_view() =~= old(self).stack.deep_view().push(
                old(self).current.deep_view(),
            ));
        }
    }

    /// A `}`: collapses the current level and appends it as an atom of the
    /// restored level.
    pub fn pop_from_stack(&mut self) -> (r: Result<(), &'static str>)
        ensures
            ({
                let spec = spec_pop(old(self).deep_view());
                match r {
                    Ok(()) => spec is Ok && final(self).deep_view() == spec->Ok_0,
                    Err(e) => spec is Err && e@ == spec->Err_0,
                }
            }),
    {
        if let Some(top) = self.stack.pop() {
            proof {
                assert(old(self).deep_view().stack.last() == old(self).stack@.last().deep_view());
                assert(self.stack.deep_view() =~= old(self).deep_view().stack.drop_last());
            }
            let mut top = top;
            match self.current.push_to_option(false) {
                Err(e) => {
                    return Err(e);
                },
                Ok(()) => {},
            }
            let sel = match self.current.collect() {
                Err(e) => {
                    return Err(e);
                },
                Ok(s) => s,
            };
            top.push_to_concat(sel);
            self.current = top;
            Ok(())
        } else {
            Err("No opened group")
        }
    }

    /// Advances the parser by one token.
    pub fn append_token(&mut self, tk: &Token) -> (r: Result<(), &'static str>)
        ensures
            ({
                let spec = spec_append_token(old(self).deep_view(), tk.deep_view());
                match r {
                    Ok(()) => spec is Ok && final(self).deep_view() == spec->Ok_0,
                    Err(e) => spec is Err && e@ == spec->Err_0,
                }
            }),
    {
        match tk {
            Token::WildCard => {
                self.current.push_to_concat(Selector::WildCard);
                Ok(())
            },
            Token::WildCardDepth => {
                self.current.push_to_concat(Selector::WildCardDepth);
                Ok(())
            },
            Token::Not => {
                self.current.negate();
                Ok(())
            },
            Token::Word(n) => {
                self.current.push_to_concat(Selector::Word(n.clone()));
                Ok(())
            },
            Token::Open => {
                self.push_to_stack();
                Ok(())
            },
            Token::Close => self.pop_from_stack(),
            Token::Comma => self.current.push_to_option(true),
            Token::Slash => self.current.push_to_route(true),
        }
    }

    /// The parsed selector, if no group is left open.
    pub fn get_valid_selector(&mut self) -> (r: Result<Selector, &'static str>)
        ensures
            ({
                let spec = spec_get_valid_selector(old(self).deep_view());
                match r {
                    Ok(sel) => spec is Ok && sel.deep_view() == spec->Ok_0,
                    Err(e) => spec is Err && e@ == spec->Err_0,
                }
            }),
    {
        if self.stack.len() != 0 {
            return Err("Unclosed group");
        }
        // with an empty stack we are in the first level, where no group is open
        self.current.collect()
    }
}

/// Parses a pattern string into a selector tree: tokenizes it, folds the
/// parser over the tokens, and collapses the top level — or reports the
/// first error, as [`spec_parse_selector`] states.
pub fn parse_selector(pattern: &str) -> (r: Result<Selector, &'static str>)
    ensures
        ({
            let spec = spec_parse_selector(pattern@);
            match r {
                Ok(sel) => spec is Ok && sel.deep_view() == spec->Ok_0,
                Err(e) => spec is Err && e@ == spec->Err_0,
            }
        }),
{
    let mut parser = Parser::new();
    let tokens = match Token::many_from(pattern) {
        None => {
            return Err("Invalid pattern");
        },
        Some(t) => t,
    };
    proof {
        assert(spec_tokenize(pattern@) == Some(tokens.deep_view()));
    }
    let ghost ts = tokens.deep_view();
    proof {
        assert(ts.skip(0) =~= ts);
    }
    let mut i: usize = 0;
    while i < tokens.len()
        invariant
            i <= tokens.len(),
            ts == tokens.deep_view(),
            spec_tokenize(pattern@) == Some(ts),
            spec_parse_tokens(
                ParserV { stack: Seq::empty(), current: spec_level_new() },
                ts,
            ) == spec_parse_tokens(parser.deep_view(), ts.skip(i as int)),
        decreases tokens.len() - i,
    {
        proof {
            assert(ts.skip(i as int)[0] == ts[i as int]);
            assert(ts.skip(i as int).drop_first() =~= ts.skip(i + 1 as int));
        }
        let ghost prev = parser.deep_view();
        match parser.append_token(&tokens[i]) {
            Err(e) => {
                proof {
                    assert(ts[i as int] == tokens@[i as int].deep_view());
                    assert(spec_parse_tokens(prev, ts.skip(i as int)) == spec_append_token(
                        prev,
                        ts[i as int],
                    ));
                }
                return Err(e);
            },
            Ok(()) => {},
        }
        i += 1;
    }
    proof {
        assert(ts.skip(tokens.len() as int) =~= Seq::<TokenV>::empty());
    }
    parser.get_valid_selector()
}


/// The word texts a selector tree holds, left to right.
pub open spec fn spec_words_of_selector(s: SelectorV) -> Seq<Seq<char>>
    decreases s,
    via spec_words_of_selector_decreases
{
    match s {
        SelectorV::Option(v) => spec_words_of_children(v),
        SelectorV::Route(v) => spec_words_of_children(v),
        SelectorV::Concat(v) => spec_words_of_children(v),
        SelectorV::WildCard => Seq::empty(),
        SelectorV::WildCardDepth => Seq::empty(),
        SelectorV::Not(x) => spec_words_of_selector(*x),
        SelectorV::Word(w) => seq![w],
    }
}

/// The word texts of a sequence of selector trees, left to right.
pub open spec fn spec_words_of_children(v: Seq<SelectorV>) -> Seq<Seq<char>>
    decreases v,
    via spec_words_of_children_decreases
{
    if v.len() == 0 {
        Seq::empty()
    } else {
        spec_words_of_children(v.drop_last()) + spec_words_of_selector(v.last())
    }
}

#[via_fn]
proof fn spec_words_of_selector_decreases(s: SelectorV) {
    match s {
        SelectorV::Option(v) => {
            assert(decreases_to!(s => v));
        },
        SelectorV::Route(v) => {
            assert(decreases_to!(s => v));
        },
        SelectorV::Concat(v) => {
            assert(decreases_to!(s => v));
        },
        _ => {},
    }
}

#[via_fn]
proof fn spec_words_of_children_decreases(v: Seq<SelectorV>) {
    if v.len() != 0 {
        assert(v.drop_last() == v.subrange(0, v.len() - 1));
        assert(decreases_to!(v => v.subrange(0, v.len() - 1)));
        assert(v.last() == v[v.len() - 1]);
        assert(decreases_to!(v => v[v.len() - 1]));
    }
}

/// The word texts a parse level holds: its alternatives, then its
/// segments, then its pending atoms.
pub open spec fn spec_words_of_level(l: LevelV) -> Seq<Seq<char>> {
    spec_words_of_children(l.option) + spec_words_of_children(l.route) + spec_words_of_children(
        l.concat,
    )
}

/// The word texts the saved levels hold, outermost first.
pub open spec fn spec_words_of_stack(st: Seq<LevelV>) -> Seq<Seq<char>>
    decreases st.len(),
{
    if st.len() == 0 {
        Seq::empty()
    } else {
        spec_words_of_stack(st.drop_last()) + spec_words_of_level(st.last())
    }
}

/// The word texts the whole parser holds.
pub open spec fn spec_words_of_parser(p: ParserV) -> Seq<Seq<char>> {
    spec_words_of_stack(p.stack) + spec_words_of_level(p.current)
}

/// The word text a token carries, if any.
pub open spec fn spec_word_of_token(t: TokenV) -> Seq<Seq<char>> {
    match t {
        TokenV::Word(w) => seq![w],
        _ => Seq::empty(),
    }
}

/// The word texts of a token sequence, in order.
pub open spec fn spec_words_of_tokens(ts: Seq<TokenV>) -> Seq<Seq<char>>
    decreases ts.len(),
{
    if ts.len() == 0 {
        Seq::empty()
    } else {
        spec_word_of_token(ts[0]) + spec_words_of_tokens(ts.drop_first())
    }
}

/// Appending an atom to a level adds exactly that atom's words.
proof fn lemma_words_push_to_concat(l: LevelV, atom: SelectorV)
    ensures
        spec_words_of_level(spec_push_to_concat(l, atom)) =~= spec_words_of_level(l)
            + spec_words_of_selector(atom),
{
    if l.negate_next {
        let wrapped = SelectorV::Not(Box::new(atom));
        assert(spec_words_of_selector(wrapped) == spec_words_of_selector(atom));
        assert(l.concat.push(wrapped).drop_last() =~= l.concat);
    } else {
        assert(l.concat.push(atom).drop_last() =~= l.concat);
    }
}

/// A successful flush of `concat` into `route` moves words, never adds
/// or drops one.
proof fn lemma_words_push_to_route(l: LevelV, force: bool)
    requires
        spec_push_to_route(l, force) is Ok,
    ensures
        spec_words_of_level(spec_push_to_route(l, force)->Ok_0) =~= spec_words_of_level(l),
{
    if l.concat.len() == 1 {
        assert(l.concat.drop_last() =~= Seq::<SelectorV>::empty());
        assert(spec_words_of_children(Seq::<SelectorV>::empty()) == Seq::<Seq<char>>::empty());
        assert(l.concat.last() == l.concat[0]);
        assert(spec_words_of_children(l.concat) == Seq::<Seq<char>>::empty()
            + spec_words_of_selector(l.concat[0]));
        let l1 = spec_push_to_route(l, force)->Ok_0;
        assert(l1.route.drop_last() =~= l.route);
    } else if l.concat.len() == 0 {
    } else {
        let l1 = spec_push_to_route(l, force)->Ok_0;
        assert(l1.route.drop_last() =~= l.route);
        assert(spec_words_of_selector(SelectorV::Concat(l.concat)) == spec_words_of_children(
            l.concat,
        ));
    }
}

/// A successful flush of `route` into `option` moves words, never adds
/// or drops one.
proof fn lemma_words_push_to_option(l: LevelV, force: bool)
    requires
        spec_push_to_option(l, force) is Ok,
    ensures
        spec_words_of_level(spec_push_to_option(l, force)->Ok_0) =~= spec_words_of_level(l),
{
    lemma_words_push_to_route(l, false);
    let l1 = spec_push_to_route(l, false)->Ok_0;
    if l1.route.len() == 1 {
        assert(l1.route.drop_last() =~= Seq::<SelectorV>::empty());
        assert(spec_words_of_children(Seq::<SelectorV>::empty()) == Seq::<Seq<char>>::empty());
        assert(l1.route.last() == l1.route[0]);
        assert(spec_words_of_children(l1.route) == Seq::<Seq<char>>::empty()
            + spec_words_of_selector(l1.route[0]));
        let l2 = spec_push_to_option(l, force)->Ok_0;
        assert(l2.option.drop_last() =~= l1.option);
    } else if l1.route.len() == 0 {
    } else {
        let l2 = spec_push_to_option(l, force)->Ok_0;
        assert(l2.option.drop_last() =~= l1.option);
        assert(spec_words_of_selector(SelectorV::Route(l1.route)) == spec_words_of_children(
            l1.route,
        ));
    }
}

/// Collapsing a level to one selector keeps exactly the level's words.
proof fn lemma_words_collect(l: LevelV)
    requires
        spec_collect(l) is Ok,
    ensures
        spec_words_of_selector(spec_collect(l)->Ok_0) =~= spec_words_of_level(l),
{
    lemma_words_push_to_option(l, false);
    let l1 = spec_push_to_option(l, false)->Ok_0;
    if l1.option.len() == 1 {
        assert(l1.option.drop_last() =~= Seq::<SelectorV>::empty());
        assert(spec_words_of_children(Seq::<SelectorV>::empty()) == Seq::<Seq<char>>::empty());
        assert(l1.option.last() == l1.option[0]);
        assert(spec_words_of_children(l1.option) == Seq::<Seq<char>>::empty()
            + spec_words_of_selector(l1.option[0]));
    }
}

/// One successful parser step adds exactly the consumed token's word.
proof fn lemma_words_append_token(p: ParserV, t: TokenV)
    requires
        spec_append_token(p, t) is Ok,
    ensures
        spec_words_of_parser(spec_append_token(p, t)->Ok_0) =~= spec_words_of_parser(p)
            + spec_word_of_token(t),
{
    match t {
        TokenV::WildCard => {
            lemma_words_push_to_concat(p.current, SelectorV::WildCard);
        },
        TokenV::WildCardDepth => {
            lemma_words_push_to_concat(p.current, SelectorV::WildCardDepth);
        },
        TokenV::Word(w) => {
            lemma_words_push_to_concat(p.current, SelectorV::Word(w));
        },
        TokenV::Not => {},
        TokenV::Open => {
            assert(p.stack.push(p.current).drop_last() =~= p.stack);
        },
        TokenV::Close => {
            let l1 = spec_push_to_option(p.current, false)->Ok_0;
            lemma_words_push_to_option(p.current, false);
            lemma_words_collect(l1);
            let sel = spec_collect(l1)->Ok_0;
            lemma_words_push_to_concat(p.stack.last(), sel);
            assert(spec_words_of_stack(p.stack) == spec_words_of_stack(p.stack.drop_last())
                + spec_words_of_level(p.stack.last()));
        },
        TokenV::Comma => {
            lemma_words_push_to_option(p.current, true);
        },
        TokenV::Slash => {
            lemma_words_push_to_route(p.current, true);
        },
    }
}

/// A successful parser run adds exactly the words of the consumed
/// tokens, in order.
proof fn lemma_words_parse_tokens(p: ParserV, ts: Seq<TokenV>)
    requires
        spec_parse_tokens(p, ts) is Ok,
    ensures
        spec_words_of_parser(spec_parse_tokens(p, ts)->Ok_0) =~= spec_words_of_parser(p)
            + spec_words_of_tokens(ts),
    decreases ts.len(),
{
    if ts.len() == 0 {
    } else {
        let p1 = spec_append_token(p, ts[0])->Ok_0;
        lemma_words_append_token(p, ts[0]);
        lemma_words_parse_tokens(p1, ts.drop_first());
    }
}

/// Round-trip of the parser's literal atoms: the word texts of a parsed
/// tree are exactly the word tokens of the pattern, left to right — the
/// parser rearranges words but never invents, drops or alters one. With
/// [`crate::selector_tokens::lemma_tokenize_round_trip`], the tokens in
/// turn reconstruct the pattern text itself.
pub proof fn lemma_parse_words_round_trip(pattern: Seq<char>, sel: SelectorV)
    requires
        spec_parse_selector(pattern) == Ok::<SelectorV, Seq<char>>(sel),
    ensures
        spec_tokenize(pattern) is Some,
        spec_words_of_selector(sel) =~= spec_words_of_tokens(spec_tokenize(pattern)->0),
{
    let ts = spec_tokenize(pattern)->0;
    let p0 = ParserV { stack: Seq::empty(), current: spec_level_new() };
    let pf = spec_parse_tokens(p0, ts)->Ok_0;
    lemma_words_parse_tokens(p0, ts);
    assert(spec_words_of_level(spec_level_new()) =~= Seq::<Seq<char>>::empty());
    lemma_words_collect(pf.current);
}

} // verus!

//! Concrete segment matchers.
//!
//! A [`Route`] is an ordered sequence of [`RouteItem`]s: per-segment
//! matchers (`Name`) and depth wildcards (`AnySubRoute`). A `Name` holds
//! [`NameMatch`] fragments — literal text, negated literal text, or an
//! in-segment wildcard — matched left to right against a path segment.

use vstd::prelude::*;

verus! {

/// One fragment of a single segment's matcher.
#[derive(Debug, PartialEq, Clone)]
pub enum NameMatch {
    /// Text that must occur as is
    Literal(String),
    /// Text that must not occur (anchored by neighboring wildcards)
    NegatedLiteral(String),
    /// An in-segment wildcard fragment
    Any,
}

/// Mathematical model of a fragment.
pub enum NameMatchV {
    Literal(Seq<char>),
    NegatedLiteral(Seq<char>),
    Any,
}

impl DeepView for NameMatch {
    type V = NameMatchV;

    open spec fn deep_view(&self) -> NameMatchV {
        match self {
            NameMatch::Literal(s) => NameMatchV::Literal(s@),
            NameMatch::NegatedLiteral(s) => NameMatchV::NegatedLiteral(s@),
            NameMatch::Any => NameMatchV::Any,
        }
    }
}

/// One element of a route: a single-segment matcher or a depth wildcard.
#[derive(Debug, PartialEq, Clone)]
pub enum RouteItem {
    /// One path segment's matcher
    Name(Vec<NameMatch>),
    /// Matches zero or more path segments recursively (the expansion of `**`)
    AnySubRoute,
}

/// Mathematical model of a route item.
pub enum RouteItemV {
    Name(Seq<NameMatchV>),
    AnySubRoute,
}

impl DeepView for RouteItem {
    type V = RouteItemV;

    open spec fn deep_view(&self) -> RouteItemV {
        match self {
            RouteItem::Name(v) => RouteItemV::Name(v.deep_view()),
            RouteItem::AnySubRoute => RouteItemV::AnySubRoute,
        }
    }
}

/// One concrete ordered sequence of segment matchers.
pub type Route = Vec<RouteItem>;

/// Whether `needle` occurs in `hay` at offset `i`.
pub open spec fn spec_occurs_at(hay: Seq<char>, needle: Seq<char>, i: int) -> bool {
    0 <= i && i + needle.len() <= hay.len() && hay.subrange(i, i + needle.len()) == needle
}

/// The offset of the first occurrence of `needle` in `hay`, if any; an
/// empty needle occurs at offset zero.
pub open spec fn spec_find(hay: Seq<char>, needle: Seq<char>) -> Option<int>
    decreases hay.len(),
{
    if needle.len() > hay.len() {
        None
    } else if hay.subrange(0, needle.len() as int) == needle {
        Some(0)
    } else if hay.len() == 0 {
        None
    } else {
        match spec_find(hay.drop_first(), needle) {
            Some(i) => Some(i + 1),
            None => None,
        }
    }
}

/// [`spec_find`] yields the first occurrence: the found offset occurs, no
/// earlier offset does, and a `None` means no offset occurs at all.
pub proof fn lemma_find_first(hay: Seq<char>, needle: Seq<char>)
    ensures
        match spec_find(hay, needle) {
            Some(i) => spec_occurs_at(hay, needle, i) && forall|j: int|
                0 <= j < i ==> !spec_occurs_at(hay, needle, j),
            None => forall|j: int| !spec_occurs_at(hay, needle, j),
        },
    decreases hay.len(),
{
    if needle.len() > hay.len() {
    } else if hay.subrange(0, needle.len() as int) == needle {
    } else if hay.len() == 0 {
        assert(hay.subrange(0, needle.len() as int) =~= needle);
    } else {
        lemma_find_first(hay.drop_first(), needle);
        assert forall|j: int| 1 <= j implies spec_occurs_at(hay, needle, j) == spec_occurs_at(
            hay.drop_first(),
            needle,
            j - 1,
        ) by {
            if j + needle.len() <= hay.len() {
                assert(hay.subrange(j, j + needle.len()) =~= hay.drop_first().subrange(
                    j - 1,
                    j - 1 + needle.len(),
                ));
            }
        }
        assert(!spec_occurs_at(hay, needle, 0));
    }
}

/// Copies the characters of a string into a vector.
pub(crate) fn str_to_chars(s: &str) -> (r: Vec<char>)
    ensures
        r@ == s@,
{
    let n = s.unicode_len();
    let mut r: Vec<char> = Vec::new();
    let mut i: usize = 0;
    while i < n
        invariant
            n == s@.len(),
            i <= n,
            r@ == s@.take(i as int),
        decreases n - i,
    {
        r.push(s.get_char(i));
        proof {
            assert(s@.take(i + 1 as int) =~= s@.take(i as int).push(s@[i as int]));
        }
        i += 1;
    }
    proof {
        assert(s@.take(n as int) =~= s@);
    }
    r
}

/// Whether `needle` occurs in `hay` at offset `at`, by direct comparison.
fn chars_eq_at(hay: &Vec<char>, at: usize, needle: &Vec<char>) -> (r: bool)
    requires
        at + needle@.len() <= hay@.len(),
    ensures
        r == (hay@.subrange(at as int, at + needle@.len()) == needle@),
{
    let n = needle.len();
    let hlen = hay.len();
    let mut k: usize = 0;
    while k < n
        invariant
            n == needle@.len(),
            hlen == hay@.len(),
            k <= n,
            at + n <= hlen,
            forall|m: int| 0 <= m < k ==> hay@[at + m] == needle@[m],
        decreases n - k,
    {
        if hay[at + k] != needle[k] {
            proof {
                assert(hay@.subrange(at as int, at + needle@.len())[k as int] != needle@[
                    k as int
                ]);
            }
            return false;
        }
        k += 1;
    }
    proof {
        assert(hay@.subrange(at as int, at + needle@.len()) =~= needle@);
    }
    true
}

/// The first occurrence of `needle` in `hay` at or after `from`, as an
/// offset relative to `from`.
fn find_from(hay: &Vec<char>, from: usize, needle: &Vec<char>) -> (r: Option<usize>)
    requires
        from <= hay@.len(),
    ensures
        ({
            let f = spec_find(hay@.skip(from as int), needle@);
            match r {
                Some(u) => f == Some(u as int) && from + u + needle@.len() <= hay@.len(),
                None => f is None,
            }
        }),
{
    let ghost sub = hay@.skip(from as int);
    let n = needle.len();
    let h = hay.len();
    if n == 0 {
        proof {
            assert(sub.subrange(0, 0) =~= needle@);
        }
        return Some(0);
    }
    if n > h - from {
        proof {
            lemma_find_first(sub, needle@);
        }
        return None;
    }
    let limit = h - from - n;
    let mut start: usize = 0;
    while start <= limit
        invariant
            sub == hay@.skip(from as int),
            n == needle@.len(),
            h == hay@.len(),
            1 <= n,
            from + n <= h,
            limit == h - from - n,
            start <= limit + 1,
            forall|j: int| 0 <= j < start ==> !spec_occurs_at(sub, needle@, j),
        decreases limit + 1 - start,
    {
        proof {
            lemma_find_first(sub, needle@);
            assert(sub.subrange(start as int, start + needle@.len()) =~= hay@.subrange(
                from + start,
                from + start + needle@.len(),
            ));
        }
        if chars_eq_at(hay, from + start, needle) {
            proof {
                assert(spec_occurs_at(sub, needle@, start as int));
                assert(spec_find(sub, needle@) == Some(start as int));
            }
            return Some(start);
        }
        start += 1;
    }
    proof {
        lemma_find_first(sub, needle@);
        assert forall|j: int| !spec_occurs_at(sub, needle@, j) by {
            if 0 <= j && j + needle@.len() <= sub.len() {
                assert(!spec_occurs_at(sub, needle@, j));
            }
        }
    }
    None
}


/// What a negated literal blocks: a blacklisted text found at the start of
/// the remainder, or anywhere in it when a wildcard is in effect.
pub open spec fn spec_found_blocked(remain: Seq<char>, item: Seq<char>, free: bool) -> bool {
    match spec_find(remain, item) {
        Some(i) => i == 0 || free,
        None => false,
    }
}

/// The blacklist check: no pending negated literal blocks the remainder.
pub open spec fn spec_blacklist_ok(bl: Seq<Seq<char>>, remain: Seq<char>, free: bool) -> bool {
    forall|k: int| 0 <= k < bl.len() ==> !spec_found_blocked(remain, bl[k], free)
}

/// Matching a segment's remaining fragments against the remaining text,
/// with a wildcard flag and the pending blacklist: a negated literal joins
/// the blacklist, a wildcard frees the next match, and a literal must be
/// found at the start — or anywhere, when free and unblocked — consuming
/// the text up to its end. At the end the text must be consumed, or free
/// and unblocked.
pub open spec fn spec_match_from(
    ms: Seq<NameMatchV>,
    remain: Seq<char>,
    free: bool,
    bl: Seq<Seq<char>>,
) -> bool
    decreases ms.len(),
{
    if ms.len() == 0 {
        remain.len() == 0 || (free && spec_blacklist_ok(bl, remain, free))
    } else {
        match ms[0] {
            NameMatchV::NegatedLiteral(n) => spec_match_from(
                ms.drop_first(),
                remain,
                free,
                bl.push(n),
            ),
            NameMatchV::Any => spec_match_from(ms.drop_first(), remain, true, bl),
            NameMatchV::Literal(n) => match spec_find(remain, n) {
                Some(i) => if i == 0 || (free && spec_blacklist_ok(bl, remain, free)) {
                    spec_match_from(
                        ms.drop_first(),
                        remain.skip(i + n.len()),
                        false,
                        Seq::empty(),
                    )
                } else {
                    false
                },
                None => false,
            },
        }
    }
}

/// Whether a segment's matcher accepts a segment text.
pub open spec fn spec_name_match(ms: Seq<NameMatchV>, s: Seq<char>) -> bool {
    spec_match_from(ms, s, false, Seq::empty())
}

/// A vector of characters models itself: its deep view is its view.
proof fn lemma_chars_deep_view(v: Vec<char>)
    ensures
        v.deep_view() == v@,
{
    assert(v.deep_view() =~= v@);
}

/// The blacklist check on the text from `from` on.
fn blacklist_chk(bl: &Vec<Vec<char>>, hay: &Vec<char>, from: usize, free: bool) -> (r: bool)
    requires
        from <= hay@.len(),
    ensures
        r == spec_blacklist_ok(bl.deep_view(), hay@.skip(from as int), free),
{
    let ghost remain = hay@.skip(from as int);
    let mut k: usize = 0;
    while k < bl.len()
        invariant
            remain == hay@.skip(from as int),
            from <= hay@.len(),
            k <= bl@.len(),
            forall|j: int| 0 <= j < k ==> !spec_found_blocked(remain, bl.deep_view()[j], free),
        decreases bl@.len() - k,
    {
        proof {
            lemma_chars_deep_view(bl@[k as int]);
        }
        match find_from(hay, from, &bl[k]) {
            Some(i) => {
                if i == 0 || free {
                    proof {
                        assert(spec_found_blocked(remain, bl.deep_view()[k as int], free));
                    }
                    return false;
                }
            },
            None => {},
        }
        k += 1;
    }
    true
}

/// Whether the segment matcher `name` accepts the segment text `remain`,
/// scanning fragments left to right as [`spec_match_from`] states.
pub fn do_name_match(name: &Vec<NameMatch>, remain: &str) -> (r: bool)
    ensures
        r == spec_name_match(name.deep_view(), remain@),
{
    let chars = str_to_chars(remain);
    let clen = chars.len();
    let ghost ms = name.deep_view();
    let mut pos: usize = 0;
    let mut free: bool = false;
    let mut bl: Vec<Vec<char>> = Vec::new();
    proof {
        assert(ms.skip(0) =~= ms);
        assert(chars@.skip(0) =~= chars@);
        assert(bl.deep_view() =~= Seq::<Seq<char>>::empty());
    }
    let mut k: usize = 0;
    while k < name.len()
        invariant
            ms == name.deep_view(),
            chars@ == remain@,
            clen == chars@.len(),
            k <= name@.len(),
            pos <= chars@.len(),
            spec_match_from(ms.skip(k as int), chars@.skip(pos as int), free, bl.deep_view())
                == spec_name_match(ms, remain@),
        decreases name@.len() - k,
    {
        proof {
            assert(ms.skip(k as int)[0] == ms[k as int]);
            assert(ms[k as int] == name@[k as int].deep_view());
            assert(ms.skip(k as int).drop_first() =~= ms.skip(k + 1 as int));
        }
        let ghost prev_bl = bl.deep_view();
        match &name[k] {
            NameMatch::NegatedLiteral(n) => {
                let nv = str_to_chars(n.as_str());
                proof {
                    lemma_chars_deep_view(nv);
                }
                bl.push(nv);
                proof {
                    assert(bl.deep_view() =~= prev_bl.push(n@));
                }
            },
            NameMatch::Any => {
                free = true;
            },
            NameMatch::Literal(n) => {
                let nv = str_to_chars(n.as_str());
                match find_from(&chars, pos, &nv) {
                    None => {
                        return false;
                    },
                    Some(i) => {
                        let accept = if i == 0 {
                            true
                        } else if free {
                            blacklist_chk(&bl, &chars, pos, free)
                        } else {
                            false
                        };
                        if !accept {
                            return false;
                        }
                        proof {
                            assert(chars@.skip(pos as int).skip(i + n@.len()) =~= chars@.skip(
                                pos + i + nv@.len(),
                            ));
                        }
                        pos = pos + i + nv.len();
                        free = false;
                        bl = Vec::new();
                        proof {
                            assert(bl.deep_view() =~= Seq::<Seq<char>>::empty());
                        }
                    },
                }
            },
        }
        k += 1;
    }
    proof {
        assert(ms.skip(name@.len() as int) =~= Seq::<NameMatchV>::empty());
    }
    if pos == chars.len() {
        proof {
            assert(chars@.skip(pos as int) =~= Seq::<char>::empty());
        }
        true
    } else if free {
        blacklist_chk(&bl, &chars, pos, free)
    } else {
        false
    }
}


pub open spec fn msg_cannot_negate_any() -> Seq<char> {
    "Can not negate any"@
}

/// Toggling a fragment between literal and negated literal; a wildcard
/// cannot be negated.
pub open spec fn spec_negate_match(m: NameMatchV) -> Result<NameMatchV, Seq<char>> {
    match m {
        NameMatchV::Literal(n) => Ok(NameMatchV::NegatedLiteral(n)),
        NameMatchV::NegatedLiteral(n) => Ok(NameMatchV::Literal(n)),
        NameMatchV::Any => Err(msg_cannot_negate_any()),
    }
}

impl NameMatch {
    /// Toggles this fragment between literal and negated literal; negating
    /// a wildcard is an error.
    pub fn negate(self) -> (r: Result<NameMatch, &'static str>)
        ensures
            ({
                let spec = spec_negate_match(self.deep_view());
                match r {
                    Ok(m) => spec is Ok && m.deep_view() == spec->Ok_0,
                    Err(e) => spec is Err && e@ == spec->Err_0,
                }
            }),
    {
        match self {
            NameMatch::Literal(n) => Ok(NameMatch::NegatedLiteral(n)),
            NameMatch::NegatedLiteral(n) => Ok(NameMatch::Literal(n)),
            NameMatch::Any => Err("Can not negate any"),
        }
    }
}

/// Whether a route item accepts a segment text: a `Name` by its matcher,
/// a depth wildcard always — depth wildcards are resolved structurally by
/// the walker, not per segment.
pub open spec fn spec_item_matches(it: RouteItemV, s: Seq<char>) -> bool {
    match it {
        RouteItemV::Name(ms) => spec_name_match(ms, s),
        RouteItemV::AnySubRoute => true,
    }
}

impl RouteItem {
    /// Whether this item accepts the segment text `src`.
    pub fn matches(&self, src: &str) -> (r: bool)
        ensures
            r == spec_item_matches(self.deep_view(), src@),
    {
        if let RouteItem::Name(name) = self {
            return do_name_match(name, src);
        }
        true
    }

    /// Whether this item may be skipped in place: true only for a depth
    /// wildcard.
    pub fn omittable(&self) -> (r: bool)
        ensures
            r == (self.deep_view() is AnySubRoute),
    {
        matches!(self, RouteItem::AnySubRoute)
    }

    /// Whether this item is a `Name` with exactly the given fragments.
    pub fn is_name(&self, matcher: &[NameMatch]) -> (r: bool)
        ensures
            r == (self.deep_view() matches RouteItemV::Name(ms) && ms == matcher.deep_view()),
    {
        if let RouteItem::Name(name) = self {
            if name.len() != matcher.len() {
                proof {
                    assert(name.deep_view().len() == name@.len());
                    assert(matcher.deep_view().len() == matcher@.len());
                }
                return false;
            }
            let n = name.len();
            let mut k: usize = 0;
            while k < n
                invariant
                    self.deep_view() == RouteItemV::Name(name.deep_view()),
                    n == name@.len(),
                    n == matcher@.len(),
                    k <= n,
                    forall|j: int|
                        0 <= j < k ==> name@[j].deep_view() == matcher@[j].deep_view(),
                decreases n - k,
            {
                if !name_match_eq(&name[k], &matcher[k]) {
                    proof {
                        assert(name.deep_view()[k as int] != matcher.deep_view()[k as int]);
                        assert(name.deep_view() != matcher.deep_view());
                    }
                    return false;
                }
                k += 1;
            }
            proof {
                assert(name.deep_view() =~= matcher.deep_view());
            }
            return true;
        }
        false
    }
}

/// Whether two fragments are the same matcher.
fn name_match_eq(a: &NameMatch, b: &NameMatch) -> (r: bool)
    ensures
        r == (a.deep_view() == b.deep_view()),
{
    match (a, b) {
        (NameMatch::Literal(x), NameMatch::Literal(y)) => *x == *y,
        (NameMatch::NegatedLiteral(x), NameMatch::NegatedLiteral(y)) => *x == *y,
        (NameMatch::Any, NameMatch::Any) => true,
        _ => false,
    }
}

} // verus!

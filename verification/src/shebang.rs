//! Shebang-line interpretation for scripts.
//!
//! A line starting with `#!` names an interpreter and, optionally, one
//! argument. A shebang naming this program itself is skipped, so that a
//! watched script's own shebang line can point here while the next one
//! names the real interpreter.

use vstd::prelude::*;
use crate::routes::str_to_chars;

verus! {

/// What one line says about the interpreter.
#[derive(Debug, PartialEq)]
pub enum ShebangLine {
    /// An interpreter and, optionally, one argument
    Shebang(String, Option<String>),
    /// A shebang naming this program itself
    ReburnShebang,
    /// No shebang at all, or an empty one
    NoShebang,
}

/// Mathematical model of a shebang line.
pub enum ShebangLineV {
    Shebang(Seq<char>, Option<Seq<char>>),
    ReburnShebang,
    NoShebang,
}

impl DeepView for ShebangLine {
    type V = ShebangLineV;

    open spec fn deep_view(&self) -> ShebangLineV {
        match self {
            ShebangLine::Shebang(name, arg) => ShebangLineV::Shebang(name@, arg.deep_view()),
            ShebangLine::ReburnShebang => ShebangLineV::ReburnShebang,
            ShebangLine::NoShebang => ShebangLineV::NoShebang,
        }
    }
}

/// The characters with the Unicode `White_Space` property, which string
/// trimming removes.
pub open spec fn spec_is_ws(c: char) -> bool {
    c == '\u{0009}' || c == '\u{000A}' || c == '\u{000B}' || c == '\u{000C}' || c == '\u{000D}'
        || c == '\u{0020}' || c == '\u{0085}' || c == '\u{00A0}' || c == '\u{1680}' || c
        == '\u{2000}' || c == '\u{2001}' || c == '\u{2002}' || c == '\u{2003}' || c == '\u{2004}'
        || c == '\u{2005}' || c == '\u{2006}' || c == '\u{2007}' || c == '\u{2008}' || c
        == '\u{2009}' || c == '\u{200A}' || c == '\u{2028}' || c == '\u{2029}' || c == '\u{202F}'
        || c == '\u{205F}' || c == '\u{3000}'
}

/// Whether `c` has the Unicode `White_Space` property.
pub fn is_ws(c: char) -> (r: bool)
    ensures
        r == spec_is_ws(c),
{
    c == '\u{0009}' || c == '\u{000A}' || c == '\u{000B}' || c == '\u{000C}' || c == '\u{000D}'
        || c == '\u{0020}' || c == '\u{0085}' || c == '\u{00A0}' || c == '\u{1680}' || c
        == '\u{2000}' || c == '\u{2001}' || c == '\u{2002}' || c == '\u{2003}' || c == '\u{2004}'
        || c == '\u{2005}' || c == '\u{2006}' || c == '\u{2007}' || c == '\u{2008}' || c
        == '\u{2009}' || c == '\u{200A}' || c == '\u{2028}' || c == '\u{2029}' || c == '\u{202F}'
        || c == '\u{205F}' || c == '\u{3000}'
}

/// The text with leading whitespace removed.
pub open spec fn spec_trim_start(s: Seq<char>) -> Seq<char>
    decreases s.len(),
{
    if s.len() > 0 && spec_is_ws(s[0]) {
        spec_trim_start(s.drop_first())
    } else {
        s
    }
}

/// The text with trailing whitespace removed.
pub open spec fn spec_trim_end(s: Seq<char>) -> Seq<char>
    decreases s.len(),
{
    if s.len() > 0 && spec_is_ws(s.last()) {
        spec_trim_end(s.drop_last())
    } else {
        s
    }
}

/// The text with whitespace removed at both ends.
pub open spec fn spec_trim(s: Seq<char>) -> Seq<char> {
    spec_trim_end(spec_trim_start(s))
}

/// The run of characters before the first space.
pub open spec fn spec_take_until_space(s: Seq<char>) -> Seq<char>
    decreases s.len(),
{
    if s.len() > 0 && s[0] != ' ' {
        seq![s[0]] + spec_take_until_space(s.drop_first())
    } else {
        Seq::empty()
    }
}

/// If the first `i` characters are whitespace and the `i`-th is not,
/// trimming the start drops exactly those `i`.
proof fn lemma_trim_start_at(s: Seq<char>, i: int)
    requires
        0 <= i <= s.len(),
        forall|j: int| 0 <= j < i ==> spec_is_ws(s[j]),
        i == s.len() || !spec_is_ws(s[i]),
    ensures
        spec_trim_start(s) == s.skip(i),
    decreases i,
{
    if i == 0 {
        assert(s.skip(0) =~= s);
    } else {
        assert(spec_is_ws(s[0]));
        lemma_trim_start_at(s.drop_first(), i - 1);
        assert(s.drop_first().skip(i - 1) =~= s.skip(i));
    }
}

/// If the characters from `i` on are whitespace and the one before `i`
/// is not, trimming the end keeps exactly the first `i`.
proof fn lemma_trim_end_at(s: Seq<char>, i: int)
    requires
        0 <= i <= s.len(),
        forall|j: int| i <= j < s.len() ==> spec_is_ws(s[j]),
        i == 0 || !spec_is_ws(s[i - 1]),
    ensures
        spec_trim_end(s) == s.take(i),
    decreases s.len() - i,
{
    if i == s.len() {
        if s.len() > 0 {
            assert(!spec_is_ws(s.last()));
        }
        assert(s.take(i) =~= s);
    } else {
        assert(spec_is_ws(s.last()));
        lemma_trim_end_at(s.drop_last(), i);
        assert(s.drop_last().take(i) =~= s.take(i));
    }
}

/// If no character before `i` is a space and the `i`-th is a space or
/// the end, the run before the first space is exactly the first `i`.
proof fn lemma_take_until_space_at(s: Seq<char>, i: int)
    requires
        0 <= i <= s.len(),
        forall|j: int| 0 <= j < i ==> s[j] != ' ',
        i == s.len() || s[i] == ' ',
    ensures
        spec_take_until_space(s) == s.take(i),
    decreases i,
{
    if i == 0 {
        assert(s.take(0) =~= Seq::<char>::empty());
    } else {
        lemma_take_until_space_at(s.drop_first(), i - 1);
        assert(seq![s[0]] + s.drop_first().take(i - 1) =~= s.take(i));
    }
}

/// What one line says, as the walker of its characters computes it: no
/// shebang unless the line starts `#!`; after the marker, leading
/// whitespace falls, the run before the first space — trimmed — is the
/// interpreter name, and the trimmed rest is its argument, if any.
pub open spec fn spec_shebang_of(line: Seq<char>, reburn_name: Seq<char>) -> ShebangLineV {
    if !(line.len() >= 2 && line[0] == '#' && line[1] == '!') {
        ShebangLineV::NoShebang
    } else {
        let rest = spec_trim_start(line.skip(2));
        let raw = spec_take_until_space(rest);
        let name = spec_trim(raw);
        if name.len() == 0 {
            ShebangLineV::NoShebang
        } else if name == reburn_name {
            ShebangLineV::ReburnShebang
        } else {
            let remain = if raw.len() < rest.len() {
                rest.skip(raw.len() as int + 1)
            } else {
                Seq::<char>::empty()
            };
            let trimmed = spec_trim(remain);
            ShebangLineV::Shebang(
                name,
                if trimmed.len() == 0 {
                    None
                } else {
                    Some(trimmed)
                },
            )
        }
    }
}

/// The index of the first character from `from` on that fails `ws`
/// (whitespace when true, space when false), or the end.
fn scan_from(chars: &Vec<char>, from: usize, ws: bool) -> (r: usize)
    requires
        from <= chars@.len(),
    ensures
        from <= r <= chars@.len(),
        forall|j: int|
            from <= j < r ==> (if ws {
                spec_is_ws(chars@[j])
            } else {
                chars@[j] != ' '
            }),
        r < chars@.len() ==> (if ws {
            !spec_is_ws(chars@[r as int])
        } else {
            chars@[r as int] == ' '
        }),
{
    let mut i = from;
    while i < chars.len()
        invariant
            from <= i <= chars@.len(),
            forall|j: int|
                from <= j < i ==> (if ws {
                    spec_is_ws(chars@[j])
                } else {
                    chars@[j] != ' '
                }),
        decreases chars@.len() - i,
    {
        let c = chars[i];
        let stop = if ws {
            !is_ws(c)
        } else {
            c == ' '
        };
        if stop {
            return i;
        }
        i += 1;
    }
    i
}

/// The index one past the last non-whitespace character in
/// `[from, to)`, or `from` if all are whitespace.
fn scan_back(chars: &Vec<char>, from: usize, to: usize) -> (r: usize)
    requires
        from <= to <= chars@.len(),
    ensures
        from <= r <= to,
        forall|j: int| r <= j < to ==> spec_is_ws(chars@[j]),
        r > from ==> !spec_is_ws(chars@[r - 1]),
{
    let mut i = to;
    while i > from
        invariant
            from <= i <= to <= chars@.len(),
            forall|j: int| i <= j < to ==> spec_is_ws(chars@[j]),
        decreases i,
    {
        if !is_ws(chars[i - 1]) {
            return i;
        }
        i -= 1;
    }
    i
}

/// Whether `chars[a..b)` equals `other`.
fn eq_range(chars: &Vec<char>, a: usize, b: usize, other: &Vec<char>) -> (r: bool)
    requires
        a <= b <= chars@.len(),
    ensures
        r == (chars@.subrange(a as int, b as int) == other@),
{
    if b - a != other.len() {
        proof {
            assert(chars@.subrange(a as int, b as int).len() != other@.len());
        }
        return false;
    }
    let mut i: usize = 0;
    while i < other.len()
        invariant
            a <= b <= chars@.len(),
            b - a == other@.len(),
            i <= other@.len(),
            forall|j: int| 0 <= j < i ==> chars@[a + j] == other@[j],
        decreases other@.len() - i,
    {
        if chars[a + i] != other[i] {
            proof {
                assert(chars@.subrange(a as int, b as int)[i as int] != other@[i as int]);
            }
            return false;
        }
        i += 1;
    }
    proof {
        assert(chars@.subrange(a as int, b as int) =~= other@);
    }
    true
}

/// The name this program goes by in a shebang line.
pub fn get_reburn_name() -> (r: String)
    ensures
        r@ == "reburn"@,
{
    "reburn".to_owned()
}

/// Reads one line as a shebang, as [`spec_shebang_of`] states.
pub fn shebang_of(line: &str, reburn_name: &str) -> (r: ShebangLine)
    ensures
        r.deep_view() == spec_shebang_of(line@, reburn_name@),
{
    let chars = str_to_chars(line);
    let n = chars.len();
    if n < 2 {
        return ShebangLine::NoShebang;
    }
    if chars[0] != '#' || chars[1] != '!' {
        return ShebangLine::NoShebang;
    }
    let ghost rest = spec_trim_start(chars@.skip(2));
    // skip the whitespace after the marker
    let start = scan_from(&chars, 2, true);
    proof {
        lemma_trim_start_at(chars@.skip(2), start - 2);
        assert(chars@.skip(2).skip(start - 2) =~= chars@.skip(start as int));
        assert(rest == chars@.skip(start as int));
    }
    // the run before the first space
    let sp = scan_from(&chars, start, false);
    let ghost raw = spec_take_until_space(rest);
    proof {
        lemma_take_until_space_at(rest, sp - start);
        assert(rest.take(sp - start) =~= chars@.subrange(start as int, sp as int));
        assert(raw == chars@.subrange(start as int, sp as int));
    }
    // trim the name: it starts at a non-whitespace character already
    let name_end = scan_back(&chars, start, sp);
    let ghost name = spec_trim(raw);
    proof {
        assert(raw.len() == sp - start);
        if start < sp {
            assert(!spec_is_ws(chars@[start as int]));
            assert(raw[0] == chars@[start as int]);
        }
        lemma_trim_start_at(raw, 0);
        lemma_trim_end_at(raw, name_end - start);
        assert(raw.take(name_end - start) =~= chars@.subrange(start as int, name_end as int));
        assert(name == chars@.subrange(start as int, name_end as int));
    }
    if name_end == start {
        return ShebangLine::NoShebang;
    }
    let reburn_chars = str_to_chars(reburn_name);
    if eq_range(&chars, start, name_end, &reburn_chars) {
        return ShebangLine::ReburnShebang;
    }
    // the rest of the line after the space, trimmed, is the argument
    let ghost remain = if raw.len() < rest.len() {
        rest.skip(raw.len() as int + 1)
    } else {
        Seq::<char>::empty()
    };
    let arg_from = if sp < n {
        sp + 1
    } else {
        sp
    };
    proof {
        if raw.len() < rest.len() {
            assert(rest.skip(raw.len() as int + 1) =~= chars@.skip(arg_from as int));
        } else {
            assert(remain =~= chars@.skip(arg_from as int));
        }
        assert(remain == chars@.skip(arg_from as int));
    }
    let arg_start = scan_from(&chars, arg_from, true);
    let arg_end = scan_back(&chars, arg_start, n);
    let ghost trimmed = spec_trim(remain);
    proof {
        lemma_trim_start_at(remain, arg_start - arg_from);
        assert(remain.skip(arg_start - arg_from) =~= chars@.skip(arg_start as int));
        lemma_trim_end_at(chars@.skip(arg_start as int), arg_end - arg_start);
        assert(chars@.skip(arg_start as int).take(arg_end - arg_start) =~= chars@.subrange(
            arg_start as int,
            arg_end as int,
        ));
        assert(trimmed == chars@.subrange(arg_start as int, arg_end as int));
    }
    let name_str = line.substring_char(start, name_end).to_owned();
    if arg_end == arg_start {
        ShebangLine::Shebang(name_str, None)
    } else {
        let arg_str = line.substring_char(arg_start, arg_end).to_owned();
        ShebangLine::Shebang(name_str, Some(arg_str))
    }
}


pub open spec fn msg_only_reburn() -> Seq<char> {
    "Only the reburn shebang found"@
}

pub open spec fn msg_no_shebang() -> Seq<char> {
    "No shebang found"@
}

/// The interpreter command a shebang reading yields: the name, then the
/// argument if any; a missing or self-referring shebang is an error.
pub open spec fn spec_interpreter_outcome(s: ShebangLineV) -> Result<Seq<Seq<char>>, Seq<char>> {
    match s {
        ShebangLineV::Shebang(a, Some(b)) => Ok(seq![a, b]),
        ShebangLineV::Shebang(a, None) => Ok(seq![a]),
        ShebangLineV::ReburnShebang => Err(msg_only_reburn()),
        ShebangLineV::NoShebang => Err(msg_no_shebang()),
    }
}

/// The interpreter named by the first line that is not this program's
/// own shebang; a file of only such shebangs, or none, has no
/// interpreter.
pub open spec fn spec_interpreter_of(lines: Seq<Seq<char>>, reburn_name: Seq<char>) -> Result<
    Seq<Seq<char>>,
    Seq<char>,
>
    decreases lines.len(),
{
    if lines.len() == 0 {
        spec_interpreter_outcome(ShebangLineV::NoShebang)
    } else {
        let s = spec_shebang_of(lines[0], reburn_name);
        if s is ReburnShebang {
            spec_interpreter_of(lines.drop_first(), reburn_name)
        } else {
            spec_interpreter_outcome(s)
        }
    }
}

/// Finds the interpreter command in a script's lines, as
/// [`spec_interpreter_of`] states: lines holding this program's own
/// shebang are skipped, and the first other line decides.
pub fn interpreter_of_lines(lines: &Vec<String>, reburn_name: &str) -> (r: Result<
    Vec<String>,
    &'static str,
>)
    ensures
        ({
            let spec = spec_interpreter_of(lines.deep_view(), reburn_name@);
            match r {
                Ok(v) => spec is Ok && v.deep_view() == spec->Ok_0,
                Err(e) => spec is Err && e@ == spec->Err_0,
            }
        }),
{
    let ghost dv = lines.deep_view();
    proof {
        assert(dv.skip(0) =~= dv);
    }
    let mut i: usize = 0;
    while i < lines.len()
        invariant
            dv == lines.deep_view(),
            i <= lines@.len(),
            spec_interpreter_of(dv, reburn_name@) == spec_interpreter_of(
                dv.skip(i as int),
                reburn_name@,
            ),
        decreases lines@.len() - i,
    {
        proof {
            assert(dv.skip(i as int)[0] == dv[i as int]);
            assert(dv[i as int] == lines@[i as int]@);
            assert(dv.skip(i as int).drop_first() =~= dv.skip(i + 1 as int));
        }
        let current = shebang_of(lines[i].as_str(), reburn_name);
        match current {
            ShebangLine::ReburnShebang => {},
            ShebangLine::NoShebang => {
                return Err("No shebang found");
            },
            ShebangLine::Shebang(a, arg) => {
                let ghost av = a@;
                let mut out: Vec<String> = Vec::new();
                out.push(a);
                match arg {
                    Some(b) => {
                        let ghost bv = b@;
                        out.push(b);
                        proof {
                            assert(out.deep_view() =~= seq![av, bv]);
                        }
                    },
                    None => {
                        proof {
                            assert(out.deep_view() =~= seq![av]);
                        }
                    },
                }
                return Ok(out);
            },
        }
        i += 1;
    }
    proof {
        assert(dv.skip(lines@.len() as int) =~= Seq::<Seq<char>>::empty());
    }
    Err("No shebang found")
}

} // verus!

//! Manifest parsing: reads the lines of one add-on's metadata file and
//! extracts its title, version facts and library flag. Only lines whose
//! first token is `##` matter; the second token selects the directive.
//! A title matching the non-installed marker makes the whole manifest a
//! data file (no record); a malformed `IsLibrary:` boolean is an error.

use vstd::prelude::*;
use crate::text::{is_space_char, lower_char, exec_is_space, exec_lower, str_to_chars,
    chars_to_string, normalize_seq, normalize_key};
use crate::title::{clean_title_seq, clean_title};

verus! {

/// One local installation, as extracted from its manifest file.
pub struct InstalledAddon {
    /// Display name, cleaned of color escapes and trailing version text.
    pub title: String,
    /// Machine version string from an `AddOnVersion:` directive.
    pub version: Option<String>,
    /// Human version string from a `Version:` directive.
    pub version_name: Option<String>,
    /// The install directory's own name, as found.
    pub name: String,
    /// Normalized key: the directory name with whitespace removed, folded
    /// to lower case.
    pub path: String,
    /// Whether the manifest declares a shared library.
    pub is_library: bool,
}

pub ghost struct AddonView {
    pub title: Seq<char>,
    pub version: Option<Seq<char>>,
    pub version_name: Option<Seq<char>>,
    pub name: Seq<char>,
    pub path: Seq<char>,
    pub is_library: bool,
}

impl View for InstalledAddon {
    type V = AddonView;

    open spec fn view(&self) -> AddonView {
        AddonView {
            title: self.title@,
            version: match self.version {
                Some(v) => Some(v@),
                None => None,
            },
            version_name: match self.version_name {
                Some(v) => Some(v@),
                None => None,
            },
            name: self.name@,
            path: self.path@,
            is_library: self.is_library,
        }
    }
}

impl DeepView for InstalledAddon {
    type V = AddonView;

    open spec fn deep_view(&self) -> AddonView {
        self.view()
    }
}

/// The error a manifest parse can raise: an `IsLibrary:` directive whose
/// argument is missing or is not a boolean.
#[derive(Debug, PartialEq, Eq, Structural, Clone, Copy)]
pub enum ManifestError {
    InvalidBoolean,
}

// ---- token scanning ----

pub open spec fn skip_spaces(s: Seq<char>, i: int) -> int
    decreases s.len() - i when 0 <= i
{
    if i >= s.len() || !is_space_char(s[i]) {
        i
    } else {
        skip_spaces(s, i + 1)
    }
}

pub open spec fn token_end(s: Seq<char>, i: int) -> int
    decreases s.len() - i when 0 <= i
{
    if i >= s.len() || is_space_char(s[i]) {
        i
    } else {
        token_end(s, i + 1)
    }
}

/// Bounds of the first whitespace-delimited token at or after `i`.
pub open spec fn token_from(s: Seq<char>, i: int) -> Option<(int, int)> {
    let a = skip_spaces(s, i);
    if a >= s.len() {
        None
    } else {
        Some((a, token_end(s, a)))
    }
}

/// The first token at or after `i`, as characters.
pub open spec fn token_opt(s: Seq<char>, i: int) -> Option<Seq<char>> {
    match token_from(s, i) {
        None => None,
        Some((a, b)) => Some(s.subrange(a, b)),
    }
}

pub open spec fn lower_seq(s: Seq<char>) -> Seq<char> {
    Seq::new(s.len(), |i: int| lower_char(s[i]))
}

pub open spec fn contains_at(s: Seq<char>, pat: Seq<char>, i: int) -> bool {
    0 <= i && i + pat.len() <= s.len() && s.subrange(i, i + pat.len()) == pat
}

pub open spec fn contains_seq(s: Seq<char>, pat: Seq<char>) -> bool {
    exists|i: int| contains_at(s, pat, i)
}

// ---- the parse, one line at a time ----

/// The accumulating facts of a parse.
pub ghost struct ParseFacts {
    pub title: Seq<char>,
    pub version: Option<Seq<char>>,
    pub version_name: Option<Seq<char>>,
    pub is_library: bool,
}

pub ghost enum LineOut {
    Keep(ParseFacts),
    NotInstalled,
    Malformed,
}

pub open spec fn init_facts() -> ParseFacts {
    ParseFacts { title: Seq::<char>::empty(), version: None, version_name: None, is_library: false }
}

/// What one manifest line does to the accumulated facts.
pub open spec fn line_step(st: ParseFacts, line: Seq<char>) -> LineOut {
    match token_from(line, 0) {
        None => LineOut::Keep(st),
        Some((a0, b0)) => {
            if line.subrange(a0, b0) != "##"@ {
                LineOut::Keep(st)
            } else {
                match token_from(line, b0) {
                    None => LineOut::Keep(st),
                    Some((a1, b1)) => line_directive(st, line, line.subrange(a1, b1), b1),
                }
            }
        },
    }
}

pub open spec fn line_directive(st: ParseFacts, line: Seq<char>, kw: Seq<char>, after: int)
    -> LineOut {
    if kw == "Title:"@ {
        let rest = line.subrange(after, line.len() as int);
        if contains_seq(rest, "Data File"@) {
            LineOut::NotInstalled
        } else {
            LineOut::Keep(ParseFacts { title: clean_title_seq(rest), ..st })
        }
    } else if kw == "Version:"@ {
        LineOut::Keep(ParseFacts { version_name: token_opt(line, after), ..st })
    } else if kw == "AddOnVersion:"@ {
        LineOut::Keep(ParseFacts { version: token_opt(line, after), ..st })
    } else if kw == "IsLibrary:"@ {
        match token_opt(line, after) {
            None => LineOut::Malformed,
            Some(t) => {
                if lower_seq(t) == "true"@ {
                    LineOut::Keep(ParseFacts { is_library: true, ..st })
                } else if lower_seq(t) == "false"@ {
                    LineOut::Keep(ParseFacts { is_library: false, ..st })
                } else {
                    LineOut::Malformed
                }
            },
        }
    } else {
        LineOut::Keep(st)
    }
}

pub ghost enum ParseOut {
    Parsed(ParseFacts),
    NotInstalled,
    Malformed,
}

/// Folds `line_step` over the lines from `i` on.
pub open spec fn parse_from(lines: Seq<Seq<char>>, i: int, st: ParseFacts) -> ParseOut
    decreases lines.len() - i when 0 <= i
{
    if i >= lines.len() {
        ParseOut::Parsed(st)
    } else {
        match line_step(st, lines[i]) {
            LineOut::Keep(st2) => parse_from(lines, i + 1, st2),
            LineOut::NotInstalled => ParseOut::NotInstalled,
            LineOut::Malformed => ParseOut::Malformed,
        }
    }
}

/// The record the parse of `lines` in directory `dir_name` must produce.
pub open spec fn addon_of_facts(st: ParseFacts, dir_name: Seq<char>) -> AddonView {
    AddonView {
        title: st.title,
        version: st.version,
        version_name: st.version_name,
        name: dir_name,
        path: normalize_seq(dir_name),
        is_library: st.is_library,
    }
}

// ---- executable scanning ----

fn skip_spaces_exec(v: &Vec<char>, from: usize) -> (r: usize)
    requires
        from <= v.len(),
    ensures
        r as int == skip_spaces(v@, from as int),
        from <= r <= v.len(),
{
    let mut i: usize = from;
    while i < v.len() && exec_is_space(v[i])
        invariant
            from <= i <= v.len(),
            skip_spaces(v@, from as int) == skip_spaces(v@, i as int),
        decreases v.len() - i,
    {
        i = i + 1;
    }
    i
}

fn token_end_exec(v: &Vec<char>, from: usize) -> (r: usize)
    requires
        from <= v.len(),
    ensures
        r as int == token_end(v@, from as int),
        from <= r <= v.len(),
{
    let mut i: usize = from;
    while i < v.len() && !exec_is_space(v[i])
        invariant
            from <= i <= v.len(),
            token_end(v@, from as int) == token_end(v@, i as int),
        decreases v.len() - i,
    {
        i = i + 1;
    }
    i
}

fn token_from_exec(v: &Vec<char>, from: usize) -> (r: Option<(usize, usize)>)
    requires
        from <= v.len(),
    ensures
        match r {
            Some(ab) => token_from(v@, from as int) == Some((ab.0 as int, ab.1 as int))
                && from <= ab.0 <= ab.1 <= v.len(),
            None => token_from(v@, from as int) is None,
        },
{
    let a = skip_spaces_exec(v, from);
    if a >= v.len() {
        None
    } else {
        let b = token_end_exec(v, a);
        Some((a, b))
    }
}

/// Compares a character range with a string, character by character.
fn range_eq_str(v: &Vec<char>, a: usize, b: usize, s: &str) -> (r: bool)
    requires
        a <= b <= v.len(),
    ensures
        r == (v@.subrange(a as int, b as int) == s@),
{
    let slen = s.unicode_len();
    if b - a != slen {
        proof {
            assert(v@.subrange(a as int, b as int).len() != s@.len());
        }
        return false;
    }
    let mut i: usize = 0;
    while i < slen
        invariant
            i <= slen,
            a <= b <= v.len(),
            b - a == slen,
            slen == s@.len(),
            forall|j: int| 0 <= j < i ==> v@.subrange(a as int, b as int)[j] == s@[j],
        decreases slen - i,
    {
        let c = s.get_char(i);
        if v[a + i] != c {
            proof {
                assert(v@.subrange(a as int, b as int)[i as int] != s@[i as int]);
            }
            return false;
        }
        i = i + 1;
    }
    proof {
        assert(v@.subrange(a as int, b as int) =~= s@);
    }
    true
}

/// Whether the pattern occurs anywhere in `v`.
fn contains_str(v: &Vec<char>, s: &str) -> (r: bool)
    ensures
        r == contains_seq(v@, s@),
{
    let m = s.unicode_len();
    let n = v.len();
    if m == 0 {
        proof {
            assert(v@.subrange(0, 0) =~= s@);
            assert(contains_at(v@, s@, 0));
        }
        return true;
    }
    if m > n {
        proof {
            assert(forall|i: int| !contains_at(v@, s@, i));
        }
        return false;
    }
    let mut i: usize = 0;
    while i <= n - m
        invariant
            1 <= m <= n,
            n == v.len(),
            m == s@.len(),
            i <= n - m + 1,
            forall|j: int| 0 <= j < i ==> !contains_at(v@, s@, j),
        decreases n - m + 1 - i,
    {
        if range_eq_str(v, i, i + m, s) {
            proof {
                assert(contains_at(v@, s@, i as int));
            }
            return true;
        }
        i = i + 1;
    }
    proof {
        assert forall|j: int| !contains_at(v@, s@, j) by {
            if 0 <= j && j + s@.len() <= v@.len() {
                assert(j < i);
            }
        }
    }
    false
}

/// Copies the characters of `[a, b)` out of `v`.
fn slice_range(v: &Vec<char>, a: usize, b: usize) -> (r: Vec<char>)
    requires
        a <= b <= v.len(),
    ensures
        r@ == v@.subrange(a as int, b as int),
{
    let mut out: Vec<char> = Vec::new();
    let mut i: usize = a;
    while i < b
        invariant
            a <= i <= b <= v.len(),
            out@ == v@.subrange(a as int, i as int),
        decreases b - i,
    {
        out.push(v[i]);
        proof {
            assert(out@ =~= v@.subrange(a as int, i + 1 as int));
        }
        i = i + 1;
    }
    out
}

fn lower_vec(v: &Vec<char>) -> (r: Vec<char>)
    ensures
        r@ == lower_seq(v@),
{
    let mut out: Vec<char> = Vec::new();
    let mut i: usize = 0;
    while i < v.len()
        invariant
            i <= v.len(),
            out@.len() == i,
            forall|j: int| 0 <= j < i ==> out@[j] == lower_char(v@[j]),
        decreases v.len() - i,
    {
        out.push(exec_lower(v[i]));
        i = i + 1;
    }
    proof {
        assert(out@ =~= lower_seq(v@));
    }
    out
}

pub open spec fn opt_string_view(o: Option<String>) -> Option<Seq<char>> {
    match o {
        Some(v) => Some(v@),
        None => None,
    }
}

/// Parses the lines of one manifest file. `dir_name` is the name of the
/// directory the manifest was found in. Returns `Ok(None)` for a manifest
/// whose title marks a non-installed data file, and an error for a
/// malformed `IsLibrary:` boolean.
pub fn parse_manifest_lines(lines: &Vec<String>, dir_name: &str) -> (r: Result<
    Option<InstalledAddon>,
    ManifestError,
>)
    ensures
        match r {
            Ok(opt) => match parse_from(lines.deep_view(), 0, init_facts()) {
                ParseOut::Parsed(st) => opt matches Some(a) && a@ == addon_of_facts(
                    st,
                    dir_name@,
                ),
                ParseOut::NotInstalled => opt is None,
                ParseOut::Malformed => false,
            },
            Err(e) => parse_from(lines.deep_view(), 0, init_facts()) is Malformed && e
                == ManifestError::InvalidBoolean,
        },
{
    let mut title = String::new();
    let mut version: Option<String> = None;
    let mut version_name: Option<String> = None;
    let mut is_library = false;
    let ghost all = lines.deep_view();
    let mut i: usize = 0;
    proof {
        reveal_strlit("");
        assert(title@ =~= init_facts().title);
    }
    while i < lines.len()
        invariant
            i <= lines.len(),
            all == lines.deep_view(),
            parse_from(all, 0, init_facts()) == parse_from(
                all,
                i as int,
                ParseFacts {
                    title: title@,
                    version: opt_string_view(version),
                    version_name: opt_string_view(version_name),
                    is_library: is_library,
                },
            ),
        decreases lines.len() - i,
    {
        let ghost st_in = ParseFacts {
            title: title@,
            version: opt_string_view(version),
            version_name: opt_string_view(version_name),
            is_library: is_library,
        };
        let line = str_to_chars(lines[i].as_str());
        proof {
            assert(line@ == all[i as int]);
        }
        match token_from_exec(&line, 0) {
            None => {},
            Some((a0, b0)) => {
                if range_eq_str(&line, a0, b0, "##") {
                    match token_from_exec(&line, b0) {
                        None => {},
                        Some((a1, b1)) => {
                            if range_eq_str(&line, a1, b1, "Title:") {
                                let rest = slice_range(&line, b1, line.len());
                                if contains_str(&rest, "Data File") {
                                    proof {
                                        assert(line_step(st_in, line@)
                                            == LineOut::NotInstalled);
                                    }
                                    return Ok(None);
                                }
                                title = clean_title_chars(rest);
                            } else if range_eq_str(&line, a1, b1, "Version:") {
                                version_name = token_string(&line, b1);
                            } else if range_eq_str(&line, a1, b1, "AddOnVersion:") {
                                version = token_string(&line, b1);
                            } else if range_eq_str(&line, a1, b1, "IsLibrary:") {
                                match token_from_exec(&line, b1) {
                                    None => {
                                        return Err(ManifestError::InvalidBoolean);
                                    },
                                    Some((a2, b2)) => {
                                        let tok = slice_range(&line, a2, b2);
                                        let low = lower_vec(&tok);
                                        if range_eq_str(&low, 0, low.len(), "true") {
                                            proof {
                                                assert(low@.subrange(0, low@.len() as int)
                                                    =~= low@);
                                            }
                                            is_library = true;
                                        } else if range_eq_str(&low, 0, low.len(), "false") {
                                            proof {
                                                assert(low@.subrange(0, low@.len() as int)
                                                    =~= low@);
                                            }
                                            is_library = false;
                                        } else {
                                            proof {
                                                assert(low@.subrange(0, low@.len() as int)
                                                    =~= low@);
                                            }
                                            return Err(ManifestError::InvalidBoolean);
                                        }
                                    },
                                }
                            }
                        },
                    }
                }
            },
        }
        i = i + 1;
    }
    let addon = InstalledAddon {
        title,
        version,
        version_name,
        name: dir_name.to_owned(),
        path: normalize_key(dir_name),
        is_library,
    };
    Ok(Some(addon))
}

/// Cleans a title given as characters, returning a string.
fn clean_title_chars(v: Vec<char>) -> (r: String)
    ensures
        r@ == clean_title_seq(v@),
{
    let s = chars_to_string(&v);
    clean_title(s.as_str())
}

/// The first token at or after `from`, copied into a string.
fn token_string(v: &Vec<char>, from: usize) -> (r: Option<String>)
    requires
        from <= v.len(),
    ensures
        match r {
            Some(t) => token_opt(v@, from as int) == Some(t@),
            None => token_opt(v@, from as int) is None,
        },
{
    match token_from_exec(v, from) {
        None => None,
        Some((a, b)) => {
            let tok = slice_range(v, a, b);
            Some(chars_to_string(&tok))
        },
    }
}

} // verus!

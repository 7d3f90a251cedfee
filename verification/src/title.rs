//! Manifest title cleanup: removes color-escape tokens (a reset token
//! `|r`, or `|` followed by seven hexadecimal characters) wherever they
//! occur, strips trailing embedded version substrings (one or two digit
//! groups separated by dots, one to three dot groups, optionally preceded
//! by `v`, preceded by a space), and trims surrounding whitespace.
//! Cleanup runs each removal to a fixed point, so re-applying it to an
//! already-cleaned title changes nothing.

use vstd::prelude::*;
use crate::text::{is_space_char, is_digit_char, is_hex_char, exec_is_space, exec_is_digit,
    exec_is_hex};

verus! {

/// A color-reset token `|r` starts at position `i`.
pub open spec fn reset_at(s: Seq<char>, i: int) -> bool {
    0 <= i && i + 2 <= s.len() && s[i] == '|' && s[i + 1] == 'r'
}

/// A color-start token, `|` followed by seven hexadecimal characters,
/// starts at position `i`.
pub open spec fn color_at(s: Seq<char>, i: int) -> bool {
    0 <= i && i + 8 <= s.len() && s[i] == '|' && (forall|j: int|
        i < j < i + 8 ==> is_hex_char(#[trigger] s[j]))
}

pub open spec fn escape_at(s: Seq<char>, i: int) -> bool {
    reset_at(s, i) || color_at(s, i)
}

/// Length of the escape token at `i` (meaningful only when `escape_at`).
pub open spec fn escape_len(s: Seq<char>, i: int) -> int {
    if reset_at(s, i) {
        2
    } else {
        8
    }
}

pub open spec fn first_escape_from(s: Seq<char>, i: int) -> Option<int>
    decreases s.len() - i when 0 <= i
{
    if i >= s.len() {
        None
    } else if escape_at(s, i) {
        Some(i)
    } else {
        first_escape_from(s, i + 1)
    }
}

pub open spec fn remove_range(s: Seq<char>, a: int, b: int) -> Seq<char> {
    s.subrange(0, a) + s.subrange(b, s.len() as int)
}

/// Removes the leftmost escape token repeatedly until none remains.
pub open spec fn strip_escapes(s: Seq<char>) -> Seq<char>
    decreases s.len() via strip_escapes_dec
{
    match first_escape_from(s, 0) {
        None => s,
        Some(i) => strip_escapes(remove_range(s, i, i + escape_len(s, i))),
    }
}

#[via_fn]
proof fn strip_escapes_dec(s: Seq<char>) {
    lemma_first_escape_bounds(s, 0);
}

/// Where `first_escape_from` answers `Some(j)`, an escape stands at `j`
/// and none before it (from `i`); where it answers `None`, none stands at
/// or after `i`.
pub proof fn lemma_first_escape_bounds(s: Seq<char>, i: int)
    requires
        0 <= i,
    ensures
        match first_escape_from(s, i) {
            Some(j) => i <= j < s.len() && escape_at(s, j) && (forall|k: int|
                i <= k < j ==> !escape_at(s, k)),
            None => forall|k: int| i <= k < s.len() ==> !escape_at(s, k),
        },
    decreases s.len() - i,
{
    if i >= s.len() {
    } else if escape_at(s, i) {
    } else {
        lemma_first_escape_bounds(s, i + 1);
    }
}

/// The converse: the position of the leftmost escape determines the answer.
pub proof fn lemma_first_escape_from_facts(s: Seq<char>, i: int, j: int)
    requires
        0 <= i <= j,
        escape_at(s, j),
        forall|k: int| i <= k < j ==> !escape_at(s, k),
    ensures
        first_escape_from(s, i) == Some(j),
    decreases j - i,
{
    if i < j {
        lemma_first_escape_from_facts(s, i + 1, j);
    }
}

pub proof fn lemma_no_escape_from(s: Seq<char>, i: int)
    requires
        0 <= i,
        forall|k: int| i <= k < s.len() ==> !escape_at(s, k),
    ensures
        first_escape_from(s, i) is None,
    decreases s.len() - i,
{
    if i < s.len() {
        lemma_no_escape_from(s, i + 1);
    }
}

/// No string position of a subrange starts an escape if none does in the
/// whole string.
pub proof fn lemma_escape_in_subrange(s: Seq<char>, a: int, b: int, j: int)
    requires
        0 <= a <= b <= s.len(),
        escape_at(s.subrange(a, b), j),
    ensures
        escape_at(s, a + j),
{
    let t = s.subrange(a, b);
    assert(forall|k: int| 0 <= k < t.len() ==> t[k] == s[a + k]);
    if reset_at(t, j) {
        assert(reset_at(s, a + j));
    } else {
        assert(color_at(t, j));
        assert forall|k: int| a + j < k < a + j + 8 implies is_hex_char(s[k]) by {
            assert(s[k] == t[k - a]);
        }
        assert(color_at(s, a + j));
    }
}

/// `strip_escapes` reaches a fixed point: its result holds no escape.
pub proof fn lemma_strip_escapes_free(s: Seq<char>)
    ensures
        forall|k: int| !(#[trigger] escape_at(strip_escapes(s), k)),
    decreases s.len(),
{
    lemma_first_escape_bounds(s, 0);
    if first_escape_from(s, 0) is Some {
        let i = first_escape_from(s, 0)->Some_0;
        let r = remove_range(s, i, i + escape_len(s, i));
        lemma_strip_escapes_free(r);
        assert(strip_escapes(s) == strip_escapes(r));
        assert forall|k: int| !(#[trigger] escape_at(strip_escapes(s), k)) by {
            assert(!escape_at(strip_escapes(r), k));
        }
    } else {
        assert(strip_escapes(s) == s);
        assert forall|k: int| !(#[trigger] escape_at(strip_escapes(s), k)) by {
            if 0 <= k < s.len() {
                assert(!escape_at(s, k));
            }
        }
    }
}

// ---- trailing version substrings ----

/// End of a digit group of one or two digits starting at `i`: the group
/// must not be followed by a further digit.
pub open spec fn group_end(s: Seq<char>, i: int) -> Option<int> {
    if 0 <= i && i < s.len() && is_digit_char(s[i]) {
        if i + 1 < s.len() && is_digit_char(s[i + 1]) {
            if i + 2 < s.len() && is_digit_char(s[i + 2]) {
                None
            } else {
                Some(i + 2)
            }
        } else {
            Some(i + 1)
        }
    } else {
        None
    }
}

/// From `i` to the end of the string: between one and `n` repetitions of a
/// dot followed by a digit group, ending exactly at the end.
pub open spec fn dot_groups(s: Seq<char>, i: int, n: int) -> bool
    decreases n,
{
    if n <= 0 {
        false
    } else {
        0 <= i && i < s.len() && s[i] == '.' && match group_end(s, i + 1) {
            None => false,
            Some(e) => e == s.len() || dot_groups(s, e, n - 1),
        }
    }
}

/// A trailing version substring starts at `p`: a space, an optional `v`,
/// a digit group, then one to three dot groups reaching the end.
pub open spec fn ver_tail_at(s: Seq<char>, p: int) -> bool {
    0 <= p && p < s.len() && s[p] == ' ' && {
        let q = if p + 1 < s.len() && s[p + 1] == 'v' {
            p + 2
        } else {
            p + 1
        };
        match group_end(s, q) {
            None => false,
            Some(e) => dot_groups(s, e, 3),
        }
    }
}

pub open spec fn first_tail_from(s: Seq<char>, i: int) -> Option<int>
    decreases s.len() - i when 0 <= i
{
    if i >= s.len() {
        None
    } else if ver_tail_at(s, i) {
        Some(i)
    } else {
        first_tail_from(s, i + 1)
    }
}

pub proof fn lemma_first_tail_bounds(s: Seq<char>, i: int)
    requires
        0 <= i,
    ensures
        match first_tail_from(s, i) {
            Some(j) => i <= j < s.len() && ver_tail_at(s, j) && (forall|k: int|
                i <= k < j ==> !ver_tail_at(s, k)),
            None => forall|k: int| i <= k < s.len() ==> !ver_tail_at(s, k),
        },
    decreases s.len() - i,
{
    if i >= s.len() {
    } else if ver_tail_at(s, i) {
    } else {
        lemma_first_tail_bounds(s, i + 1);
    }
}

pub proof fn lemma_first_tail_from_facts(s: Seq<char>, i: int, j: int)
    requires
        0 <= i <= j,
        ver_tail_at(s, j),
        forall|k: int| i <= k < j ==> !ver_tail_at(s, k),
    ensures
        first_tail_from(s, i) == Some(j),
    decreases j - i,
{
    if i < j {
        lemma_first_tail_from_facts(s, i + 1, j);
    }
}

pub proof fn lemma_no_tail_from(s: Seq<char>, i: int)
    requires
        0 <= i,
        forall|k: int| i <= k < s.len() ==> !ver_tail_at(s, k),
    ensures
        first_tail_from(s, i) is None,
    decreases s.len() - i,
{
    if i < s.len() {
        lemma_no_tail_from(s, i + 1);
    }
}

// ---- trimming ----

pub open spec fn trim_end_seq(s: Seq<char>) -> Seq<char>
    decreases s.len(),
{
    if s.len() > 0 && is_space_char(s.last()) {
        trim_end_seq(s.drop_last())
    } else {
        s
    }
}

pub open spec fn trim_start_seq(s: Seq<char>) -> Seq<char>
    decreases s.len(),
{
    if s.len() > 0 && is_space_char(s.first()) {
        trim_start_seq(s.drop_first())
    } else {
        s
    }
}

/// The end-trimmed string is a prefix of the original with no trailing
/// whitespace.
pub proof fn lemma_trim_end_props(s: Seq<char>)
    ensures
        trim_end_seq(s).len() <= s.len(),
        trim_end_seq(s) == s.subrange(0, trim_end_seq(s).len() as int),
        trim_end_seq(s).len() > 0 ==> !is_space_char(trim_end_seq(s).last()),
    decreases s.len(),
{
    if s.len() > 0 && is_space_char(s.last()) {
        lemma_trim_end_props(s.drop_last());
        assert(trim_end_seq(s) =~= s.subrange(0, trim_end_seq(s).len() as int));
    } else {
        assert(trim_end_seq(s) =~= s.subrange(0, trim_end_seq(s).len() as int));
    }
}

/// The start-trimmed string is a suffix of the original with no leading
/// whitespace.
pub proof fn lemma_trim_start_props(s: Seq<char>)
    ensures
        trim_start_seq(s).len() <= s.len(),
        trim_start_seq(s) == s.subrange(
            s.len() - trim_start_seq(s).len(),
            s.len() as int,
        ),
        trim_start_seq(s).len() > 0 ==> !is_space_char(trim_start_seq(s).first()),
    decreases s.len(),
{
    if s.len() > 0 && is_space_char(s.first()) {
        lemma_trim_start_props(s.drop_first());
        assert(trim_start_seq(s) =~= s.subrange(
            s.len() - trim_start_seq(s).len(),
            s.len() as int,
        ));
    } else {
        assert(trim_start_seq(s) =~= s.subrange(
            s.len() - trim_start_seq(s).len(),
            s.len() as int,
        ));
    }
}

/// Strips trailing version substrings and trailing whitespace to a fixed
/// point.
pub open spec fn strip_versions(s: Seq<char>) -> Seq<char>
    decreases s.len() via strip_versions_dec
{
    let t = trim_end_seq(s);
    match first_tail_from(t, 0) {
        None => t,
        Some(p) => strip_versions(t.subrange(0, p)),
    }
}

#[via_fn]
proof fn strip_versions_dec(s: Seq<char>) {
    lemma_trim_end_props(s);
    lemma_first_tail_bounds(trim_end_seq(s), 0);
}

/// The whole cleanup.
pub open spec fn clean_title_seq(s: Seq<char>) -> Seq<char> {
    trim_start_seq(strip_versions(strip_escapes(s)))
}

/// `strip_versions` yields a prefix of its input with no trailing
/// whitespace and no trailing version substring left anywhere.
pub proof fn lemma_strip_versions_props(s: Seq<char>)
    ensures
        strip_versions(s).len() <= s.len(),
        strip_versions(s) == s.subrange(0, strip_versions(s).len() as int),
        strip_versions(s).len() > 0 ==> !is_space_char(strip_versions(s).last()),
        forall|k: int| !(#[trigger] ver_tail_at(strip_versions(s), k)),
    decreases s.len(),
{
    let t = trim_end_seq(s);
    lemma_trim_end_props(s);
    lemma_first_tail_bounds(t, 0);
    if first_tail_from(t, 0) is Some {
        let p = first_tail_from(t, 0)->Some_0;
        lemma_strip_versions_props(t.subrange(0, p));
        let r = strip_versions(t.subrange(0, p));
        assert(strip_versions(s) == r);
        assert(r =~= s.subrange(0, r.len() as int));
    } else {
        assert(strip_versions(s) == t);
        assert forall|k: int| !(#[trigger] ver_tail_at(t, k)) by {
            if 0 <= k < t.len() {
                assert(!ver_tail_at(t, k));
            }
        }
    }
}

/// A version tail found in a suffix stands in the full string too, shifted
/// by the cut; the pattern is anchored at the end, which both share.
pub proof fn lemma_dot_groups_shift(s: Seq<char>, d: int, i: int, n: int)
    requires
        0 <= d <= s.len(),
        dot_groups(s.subrange(d, s.len() as int), i, n),
    ensures
        dot_groups(s, d + i, n),
    decreases n,
{
    let t = s.subrange(d, s.len() as int);
    let e = group_end(t, i + 1)->Some_0;
    assert(group_end(s, d + i + 1) == Some(d + e));
    if e != t.len() {
        lemma_dot_groups_shift(s, d, e, n - 1);
    }
}

pub proof fn lemma_ver_tail_shift(s: Seq<char>, d: int, p: int)
    requires
        0 <= d <= s.len(),
        ver_tail_at(s.subrange(d, s.len() as int), p),
    ensures
        ver_tail_at(s, d + p),
{
    let t = s.subrange(d, s.len() as int);
    let q = if p + 1 < t.len() && t[p + 1] == 'v' {
        p + 2
    } else {
        p + 1
    };
    let e = group_end(t, q)->Some_0;
    assert(group_end(s, d + q) == Some(d + e));
    lemma_dot_groups_shift(s, d, e, 3);
}

/// Cleanup is idempotent: cleaning an already-cleaned title changes
/// nothing.
pub proof fn lemma_clean_title_idempotent(s: Seq<char>)
    ensures
        clean_title_seq(clean_title_seq(s)) == clean_title_seq(s),
{
    let e1 = strip_escapes(s);
    let v1 = strip_versions(e1);
    let r = trim_start_seq(v1);
    lemma_strip_escapes_free(s);
    lemma_strip_versions_props(e1);
    lemma_trim_start_props(v1);
    let d = v1.len() - r.len();
    assert forall|k: int| !(#[trigger] escape_at(r, k)) by {
        if escape_at(r, k) {
            assert(r == v1.subrange(d as int, v1.len() as int));
            lemma_escape_in_subrange(v1, d as int, v1.len() as int, k);
            assert(v1 == e1.subrange(0, v1.len() as int));
            lemma_escape_in_subrange(e1, 0, v1.len() as int, d + k);
            assert(!escape_at(e1, d + k));
            assert(false);
        }
    }
    assert forall|k: int| !(#[trigger] ver_tail_at(r, k)) by {
        if ver_tail_at(r, k) {
            lemma_ver_tail_shift(v1, d as int, k);
            assert(false);
        }
    }
    lemma_no_escape_from(r, 0);
    assert(strip_escapes(r) == r);
    if r.len() > 0 {
        assert(r.last() == v1.last());
        assert(!is_space_char(r.last()));
    }
    assert(trim_end_seq(r) == r);
    lemma_no_tail_from(r, 0);
    assert(strip_versions(r) == r);
    if r.len() > 0 {
        assert(!is_space_char(r.first()));
    }
    assert(trim_start_seq(r) == r);
}

// ---- executable cleanup ----

/// True exactly when every character in `[a, b)` is hexadecimal.
fn all_hex_range(v: &Vec<char>, a: usize, b: usize) -> (r: bool)
    requires
        a <= b <= v.len(),
    ensures
        r == (forall|k: int| a <= k < b ==> is_hex_char(#[trigger] v@[k])),
{
    let mut j: usize = a;
    while j < b
        invariant
            a <= j <= b <= v.len(),
            forall|k: int| a <= k < j ==> is_hex_char(#[trigger] v@[k]),
        decreases b - j,
    {
        if !exec_is_hex(v[j]) {
            return false;
        }
        j = j + 1;
    }
    true
}

/// Position and length of the leftmost escape token, if any.
fn find_escape(v: &Vec<char>) -> (r: Option<(usize, usize)>)
    ensures
        match r {
            Some(pl) => first_escape_from(v@, 0) == Some(pl.0 as int) && pl.1 as int
                == escape_len(v@, pl.0 as int) && pl.0 + pl.1 <= v.len() && pl.1 >= 2,
            None => first_escape_from(v@, 0) is None,
        },
{
    let n = v.len();
    let mut i: usize = 0;
    while i < n
        invariant
            i <= n,
            n == v.len(),
            forall|k: int| 0 <= k < i ==> !(#[trigger] escape_at(v@, k)),
        decreases n - i,
    {
        if v[i] == '|' {
            if i + 1 < n && v[i + 1] == 'r' {
                proof {
                    lemma_first_escape_from_facts(v@, 0, i as int);
                }
                return Some((i, 2));
            }
            if n - i >= 8 && all_hex_range(v, i + 1, i + 8) {
                proof {
                    assert(color_at(v@, i as int));
                    assert(!reset_at(v@, i as int));
                    lemma_first_escape_from_facts(v@, 0, i as int);
                }
                return Some((i, 8));
            }
        }
        proof {
            assert(!escape_at(v@, i as int));
        }
        i = i + 1;
    }
    proof {
        lemma_no_escape_from(v@, 0);
    }
    None
}

/// Copies the characters outside `[a, b)`.
fn remove_sub(v: &Vec<char>, a: usize, b: usize) -> (r: Vec<char>)
    requires
        a <= b <= v.len(),
    ensures
        r@ == remove_range(v@, a as int, b as int),
{
    let mut out: Vec<char> = Vec::new();
    let mut i: usize = 0;
    while i < a
        invariant
            i <= a <= b <= v.len(),
            out@ == v@.subrange(0, i as int),
        decreases a - i,
    {
        out.push(v[i]);
        proof {
            assert(out@ =~= v@.subrange(0, i + 1 as int));
        }
        i = i + 1;
    }
    let mut j: usize = b;
    while j < v.len()
        invariant
            a <= b <= j <= v.len(),
            out@ == v@.subrange(0, a as int) + v@.subrange(b as int, j as int),
        decreases v.len() - j,
    {
        out.push(v[j]);
        proof {
            assert(out@ =~= v@.subrange(0, a as int) + v@.subrange(b as int, j + 1 as int));
        }
        j = j + 1;
    }
    proof {
        assert(out@ =~= remove_range(v@, a as int, b as int));
    }
    out
}

fn strip_escapes_vec(v: Vec<char>) -> (r: Vec<char>)
    ensures
        r@ == strip_escapes(v@),
{
    let ghost orig = v@;
    let mut cur = v;
    loop
        invariant
            strip_escapes(cur@) == strip_escapes(orig),
        ensures
            cur@ == strip_escapes(orig),
        decreases cur@.len(),
    {
        let found = find_escape(&cur);
        match found {
            None => {
                proof {
                    assert(strip_escapes(cur@) == cur@);
                }
                break;
            },
            Some((p, l)) => {
                let next = remove_sub(&cur, p, p + l);
                proof {
                    assert(strip_escapes(cur@) == strip_escapes(next@));
                }
                cur = next;
            },
        }
    }
    cur
}

fn trim_end_vec(v: Vec<char>) -> (r: Vec<char>)
    ensures
        r@ == trim_end_seq(v@),
{
    let ghost orig = v@;
    let mut cur = v;
    loop
        invariant
            trim_end_seq(cur@) == trim_end_seq(orig),
        ensures
            cur@ == trim_end_seq(orig),
        decreases cur@.len(),
    {
        let n = cur.len();
        if n == 0 {
            break;
        }
        if exec_is_space(cur[n - 1]) {
            let ghost before = cur@;
            cur.pop();
            proof {
                assert(cur@ =~= before.drop_last());
            }
        } else {
            break;
        }
    }
    cur
}

/// Position of the leftmost trailing version substring, if any.
fn find_tail(v: &Vec<char>) -> (r: Option<usize>)
    ensures
        match r {
            Some(p) => first_tail_from(v@, 0) == Some(p as int) && p < v.len(),
            None => first_tail_from(v@, 0) is None,
        },
{
    let n = v.len();
    let mut i: usize = 0;
    while i < n
        invariant
            i <= n,
            n == v.len(),
            forall|k: int| 0 <= k < i ==> !(#[trigger] ver_tail_at(v@, k)),
        decreases n - i,
    {
        if is_tail_at_exec(v, i) {
            proof {
                lemma_first_tail_from_facts(v@, 0, i as int);
            }
            return Some(i);
        }
        i = i + 1;
    }
    proof {
        lemma_no_tail_from(v@, 0);
    }
    None
}

fn group_end_exec(v: &Vec<char>, i: usize) -> (r: Option<usize>)
    ensures
        match r {
            Some(e) => group_end(v@, i as int) == Some(e as int) && i < e <= v.len(),
            None => group_end(v@, i as int) is None,
        },
{
    let n = v.len();
    if i < n && exec_is_digit(v[i]) {
        if i + 1 < n && exec_is_digit(v[i + 1]) {
            if i + 2 < n && exec_is_digit(v[i + 2]) {
                None
            } else {
                Some(i + 2)
            }
        } else {
            Some(i + 1)
        }
    } else {
        None
    }
}

fn dot_groups_exec(v: &Vec<char>, i: usize, n_groups: usize) -> (r: bool)
    ensures
        r == dot_groups(v@, i as int, n_groups as int),
    decreases n_groups,
{
    if n_groups == 0 {
        return false;
    }
    let n = v.len();
    if i < n && v[i] == '.' {
        let ge = group_end_exec(v, i + 1);
        match ge {
            None => false,
            Some(e) => {
                if e == n {
                    true
                } else {
                    dot_groups_exec(v, e, n_groups - 1)
                }
            },
        }
    } else {
        false
    }
}

fn is_tail_at_exec(v: &Vec<char>, p: usize) -> (r: bool)
    ensures
        r == ver_tail_at(v@, p as int),
{
    let n = v.len();
    if p < n && v[p] == ' ' {
        let q: usize = if p + 1 < n && v[p + 1] == 'v' {
            p + 2
        } else {
            p + 1
        };
        let ge = group_end_exec(v, q);
        match ge {
            None => false,
            Some(e) => dot_groups_exec(v, e, 3),
        }
    } else {
        false
    }
}

fn strip_versions_vec(v: Vec<char>) -> (r: Vec<char>)
    ensures
        r@ == strip_versions(v@),
{
    let ghost orig = v@;
    let mut cur = v;
    loop
        invariant
            strip_versions(cur@) == strip_versions(orig),
        ensures
            cur@ == strip_versions(orig),
        decreases cur@.len() + 1,
    {
        let ghost at_entry = cur@;
        cur = trim_end_vec(cur);
        proof {
            lemma_trim_end_props(at_entry);
        }
        let found = find_tail(&cur);
        match found {
            None => {
                proof {
                    assert(strip_versions(at_entry) == cur@);
                }
                break;
            },
            Some(p) => {
                let ghost trimmed = cur@;
                cur.truncate(p);
                proof {
                    assert(cur@ =~= trimmed.subrange(0, p as int));
                    assert(strip_versions(at_entry) == strip_versions(cur@));
                    lemma_first_tail_bounds(trimmed, 0);
                    assert(cur@.len() < at_entry.len());
                }
            },
        }
    }
    cur
}

fn trim_start_vec(v: &Vec<char>) -> (r: Vec<char>)
    ensures
        r@ == trim_start_seq(v@),
{
    let n = v.len();
    let mut k: usize = 0;
    loop
        invariant
            k <= n,
            n == v.len(),
            forall|j: int| 0 <= j < k ==> is_space_char(#[trigger] v@[j]),
        ensures
            k <= n,
            k == n || !is_space_char(v@[k as int]),
            forall|j: int| 0 <= j < k ==> is_space_char(#[trigger] v@[j]),
        decreases n - k,
    {
        if k == n {
            break;
        }
        if !exec_is_space(v[k]) {
            break;
        }
        k = k + 1;
    }
    proof {
        lemma_trim_start_skip(v@, k as int);
    }
    let mut out: Vec<char> = Vec::new();
    let mut i: usize = k;
    while i < n
        invariant
            k <= i <= n,
            n == v.len(),
            out@ == v@.subrange(k as int, i as int),
        decreases n - i,
    {
        out.push(v[i]);
        proof {
            assert(out@ =~= v@.subrange(k as int, i + 1 as int));
        }
        i = i + 1;
    }
    out
}

/// Skipping exactly the leading whitespace gives the start-trimmed string.
pub proof fn lemma_trim_start_skip(s: Seq<char>, k: int)
    requires
        0 <= k <= s.len(),
        forall|j: int| 0 <= j < k ==> is_space_char(#[trigger] s[j]),
        k == s.len() || !is_space_char(s[k]),
    ensures
        trim_start_seq(s) == s.subrange(k, s.len() as int),
    decreases k,
{
    if k == 0 {
        if s.len() > 0 && is_space_char(s.first()) {
            assert(false);
        }
        assert(trim_start_seq(s) =~= s.subrange(0, s.len() as int));
    } else {
        let t = s.drop_first();
        assert(t =~= s.subrange(1, s.len() as int));
        lemma_trim_start_skip(t, k - 1);
        assert(t.subrange(k - 1, t.len() as int) =~= s.subrange(k, s.len() as int));
    }
}

/// Applies the whole cleanup to a title.
pub fn clean_title(s: &str) -> (r: String)
    ensures
        r@ == clean_title_seq(s@),
{
    let cv = crate::text::str_to_chars(s);
    let c1 = strip_escapes_vec(cv);
    let c2 = strip_versions_vec(c1);
    let c3 = trim_start_vec(&c2);
    crate::text::chars_to_string(&c3)
}

} // verus!

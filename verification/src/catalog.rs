//! The remote catalog: entry records, resolution of each entry's
//! authoritative nested version, and the index keyed by normalized
//! install path. The index preserves path collisions: two entries with
//! the same key keep both values, in catalog order.

use vstd::prelude::*;
use crate::text::{normalize_seq, normalize_key};

verus! {

/// One nested component of a catalog entry: an install sub-path with its
/// own declared version.
pub struct SubPath {
    pub path: String,
    pub version: String,
}

pub ghost struct SubPathView {
    pub path: Seq<char>,
    pub version: Seq<char>,
}

impl View for SubPath {
    type V = SubPathView;

    open spec fn view(&self) -> SubPathView {
        SubPathView { path: self.path@, version: self.version@ }
    }
}

impl DeepView for SubPath {
    type V = SubPathView;

    open spec fn deep_view(&self) -> SubPathView {
        self.view()
    }
}

impl Clone for SubPath {
    fn clone(&self) -> (r: Self)
        ensures
            r@ == self@,
    {
        SubPath { path: self.path.clone(), version: self.version.clone() }
    }
}

/// One catalog record.
pub struct CatalogEntry {
    /// Catalog-assigned identifier, stable across revisions.
    pub id: u16,
    pub title: String,
    /// The authoritative top-level version.
    pub version: String,
    /// Content checksum of the current published archive, in hexadecimal.
    pub checksum: String,
    /// Nested components bundled in this upload.
    pub sub_paths: Vec<SubPath>,
    /// The version pulled from the first sub-path lacking a path
    /// separator, once the entry is resolved; a second version axis.
    pub nested_version: Option<String>,
}

pub ghost struct CatalogEntryView {
    pub id: u16,
    pub title: Seq<char>,
    pub version: Seq<char>,
    pub checksum: Seq<char>,
    pub sub_paths: Seq<SubPathView>,
    pub nested_version: Option<Seq<char>>,
}

impl View for CatalogEntry {
    type V = CatalogEntryView;

    open spec fn view(&self) -> CatalogEntryView {
        CatalogEntryView {
            id: self.id,
            title: self.title@,
            version: self.version@,
            checksum: self.checksum@,
            sub_paths: self.sub_paths.deep_view(),
            nested_version: match self.nested_version {
                Some(v) => Some(v@),
                None => None,
            },
        }
    }
}

impl DeepView for CatalogEntry {
    type V = CatalogEntryView;

    open spec fn deep_view(&self) -> CatalogEntryView {
        self.view()
    }
}

fn clone_sub_paths(v: &Vec<SubPath>) -> (r: Vec<SubPath>)
    ensures
        r.deep_view() == v.deep_view(),
{
    let mut out: Vec<SubPath> = Vec::new();
    let mut i: usize = 0;
    while i < v.len()
        invariant
            i <= v.len(),
            out@.len() == i,
            forall|j: int| 0 <= j < i ==> out@[j]@ == v@[j]@,
        decreases v.len() - i,
    {
        out.push(v[i].clone());
        i = i + 1;
    }
    proof {
        assert(out.deep_view() =~= v.deep_view());
    }
    out
}

impl Clone for CatalogEntry {
    fn clone(&self) -> (r: Self)
        ensures
            r@ == self@,
    {
        CatalogEntry {
            id: self.id,
            title: self.title.clone(),
            version: self.version.clone(),
            checksum: self.checksum.clone(),
            sub_paths: clone_sub_paths(&self.sub_paths),
            nested_version: match &self.nested_version {
                Some(v) => Some(v.clone()),
                None => None,
            },
        }
    }
}

// ---- entry resolution ----

pub open spec fn has_char(s: Seq<char>, c: char) -> bool {
    exists|j: int| 0 <= j < s.len() && s[j] == c
}

/// Index of the first sub-path whose install path holds no separator: the
/// entry's representative local key.
pub open spec fn first_bare(subs: Seq<SubPathView>, i: int) -> Option<int>
    decreases subs.len() - i when 0 <= i
{
    if i >= subs.len() {
        None
    } else if !has_char(subs[i].path, '/') {
        Some(i)
    } else {
        first_bare(subs, i + 1)
    }
}

/// The entry with its nested version assigned from the first bare
/// sub-path, where it was unset.
pub open spec fn resolve_entry(e: CatalogEntryView) -> CatalogEntryView {
    match first_bare(e.sub_paths, 0) {
        None => e,
        Some(i) => {
            if e.nested_version is None {
                CatalogEntryView { nested_version: Some(e.sub_paths[i].version), ..e }
            } else {
                e
            }
        },
    }
}

/// A data inconsistency: the entry carries a nested version that differs
/// from the first bare sub-path's declared version.
pub open spec fn entry_mismatch(e: CatalogEntryView) -> bool {
    match first_bare(e.sub_paths, 0) {
        None => false,
        Some(i) => match e.nested_version {
            Some(v) => v != e.sub_paths[i].version,
            None => false,
        },
    }
}

/// The normalized key under which the entry is indexed, if any sub-path
/// qualifies; an entry with none is not indexed.
pub open spec fn entry_key(e: CatalogEntryView) -> Option<Seq<char>> {
    match first_bare(e.sub_paths, 0) {
        None => None,
        Some(i) => Some(normalize_seq(e.sub_paths[i].path)),
    }
}

// ---- the index ----

/// What a key maps to; absent keys map to nothing.
pub open spec fn lookup(
    m: Map<Seq<char>, Seq<CatalogEntryView>>,
    k: Seq<char>,
) -> Seq<CatalogEntryView> {
    if m.contains_key(k) {
        m[k]
    } else {
        Seq::<CatalogEntryView>::empty()
    }
}

/// The concrete collection behind the index.
pub type CatalogMap = multimap::MultiMap<String, CatalogEntry>;

/// Contents of the underlying multimap: each key's vector of entries, in
/// insertion order.
pub uninterp spec fn catalog_map_view(m: CatalogMap) -> Map<Seq<char>, Seq<CatalogEntryView>>;

#[verifier::external_type_specification]
#[verifier::external_body]
#[verifier::reject_recursive_types(K)]
#[verifier::reject_recursive_types(V)]
#[verifier::reject_recursive_types(S)]
pub struct ExMultiMap<K, V, S>(multimap::MultiMap<K, V, S>);

/// An index with nothing in it.
pub open spec fn empty_catalog_map() -> Map<Seq<char>, Seq<CatalogEntryView>> {
    Map::empty()
}

/// Relies on `multimap::MultiMap::new`: the new multimap is empty.
#[verifier::external_body]
fn mm_new() -> (r: CatalogMap)
    ensures
        catalog_map_view(r) == empty_catalog_map(),
{
    multimap::MultiMap::new()
}

/// Relies on `multimap::MultiMap::insert`: the value is pushed onto the
/// vector at the key; a key not present starts a fresh one-element vector.
#[verifier::external_body]
fn mm_insert(m: &mut CatalogMap, k: String, v: CatalogEntry)
    ensures
        catalog_map_view(*final(m)) == catalog_map_view(*old(m)).insert(
            k@,
            lookup(catalog_map_view(*old(m)), k@).push(v@),
        ),
{
    m.insert(k, v)
}

/// Relies on `multimap::MultiMap::get_vec`: the whole vector at the key,
/// or nothing when the key is absent.
#[verifier::external_body]
fn mm_get_vec<'a>(m: &'a CatalogMap, k: &String) -> (r: Option<&'a Vec<CatalogEntry>>)
    ensures
        match r {
            Some(v) => catalog_map_view(*m).contains_key(k@) && v.deep_view()
                == catalog_map_view(*m)[k@],
            None => !catalog_map_view(*m).contains_key(k@),
        },
{
    m.get_vec(k)
}

/// The path-keyed catalog index. Collisions are preserved: every entry
/// inserted under a key stays in that key's vector.
pub struct CatalogIndex {
    inner: CatalogMap,
}

impl View for CatalogIndex {
    type V = Map<Seq<char>, Seq<CatalogEntryView>>;

    closed spec fn view(&self) -> Map<Seq<char>, Seq<CatalogEntryView>> {
        catalog_map_view(self.inner)
    }
}

impl CatalogIndex {
    pub fn new() -> (r: Self)
        ensures
            r@ == Map::<Seq<char>, Seq<CatalogEntryView>>::empty(),
    {
        CatalogIndex { inner: mm_new() }
    }

    fn insert(&mut self, k: String, e: CatalogEntry)
        ensures
            final(self)@ == old(self)@.insert(k@, lookup(old(self)@, k@).push(e@)),
    {
        mm_insert(&mut self.inner, k, e)
    }

    /// All entries indexed under a normalized path key, in catalog order.
    pub fn get<'a>(&'a self, k: &String) -> (r: Option<&'a Vec<CatalogEntry>>)
        ensures
            match r {
                Some(v) => self@.contains_key(k@) && v.deep_view() == self@[k@],
                None => !self@.contains_key(k@),
            },
    {
        mm_get_vec(&self.inner, k)
    }
}

// ---- building the index ----

/// The index that the entries from `i` on produce, starting from `m`.
pub open spec fn apply_entry(
    m: Map<Seq<char>, Seq<CatalogEntryView>>,
    e: CatalogEntryView,
) -> Map<Seq<char>, Seq<CatalogEntryView>> {
    match entry_key(e) {
        None => m,
        Some(k) => m.insert(k, lookup(m, k).push(resolve_entry(e))),
    }
}

pub open spec fn index_from(
    entries: Seq<CatalogEntryView>,
    i: int,
    m: Map<Seq<char>, Seq<CatalogEntryView>>,
) -> Map<Seq<char>, Seq<CatalogEntryView>>
    decreases entries.len() - i when 0 <= i
{
    if i >= entries.len() {
        m
    } else {
        index_from(entries, i + 1, apply_entry(m, entries[i]))
    }
}

/// The index of a whole catalog.
pub open spec fn catalog_index_of(entries: Seq<CatalogEntryView>) -> Map<
    Seq<char>,
    Seq<CatalogEntryView>,
> {
    index_from(entries, 0, Map::<Seq<char>, Seq<CatalogEntryView>>::empty())
}

/// Identifiers of the entries whose sub-path versions disagree with their
/// assigned nested version, in catalog order.
pub open spec fn mismatches_of(entries: Seq<CatalogEntryView>) -> Seq<u16>
    decreases entries.len(),
{
    if entries.len() == 0 {
        Seq::<u16>::empty()
    } else if entry_mismatch(entries.last()) {
        mismatches_of(entries.drop_last()).push(entries.last().id)
    } else {
        mismatches_of(entries.drop_last())
    }
}

fn has_slash(s: &String) -> (r: bool)
    ensures
        r == has_char(s@, '/'),
{
    let chars = crate::text::str_to_chars(s.as_str());
    let mut i: usize = 0;
    while i < chars.len()
        invariant
            i <= chars.len(),
            chars@ == s@,
            forall|j: int| 0 <= j < i ==> s@[j] != '/',
        decreases chars.len() - i,
    {
        if chars[i] == '/' {
            return true;
        }
        i = i + 1;
    }
    false
}

fn first_bare_exec(subs: &Vec<SubPath>) -> (r: Option<usize>)
    ensures
        match r {
            Some(i) => first_bare(subs.deep_view(), 0) == Some(i as int) && i < subs.len(),
            None => first_bare(subs.deep_view(), 0) is None,
        },
{
    let mut i: usize = 0;
    while i < subs.len()
        invariant
            i <= subs.len(),
            first_bare(subs.deep_view(), 0) == first_bare(subs.deep_view(), i as int),
        decreases subs.len() - i,
    {
        if !has_slash(&subs[i].path) {
            return Some(i);
        }
        i = i + 1;
    }
    None
}

/// Builds the index from the raw catalog order: each entry is resolved,
/// checked for a nested-version mismatch, and indexed under its first
/// bare sub-path's normalized name; entries with no bare sub-path are
/// dropped. Returns the index and the identifiers of mismatched entries.
pub fn build_catalog_index(entries: &Vec<CatalogEntry>) -> (r: (CatalogIndex, Vec<u16>))
    ensures
        r.0@ == catalog_index_of(entries.deep_view()),
        r.1@ == mismatches_of(entries.deep_view()),
{
    let ghost all = entries.deep_view();
    let mut index = CatalogIndex::new();
    let mut mismatched: Vec<u16> = Vec::new();
    let mut i: usize = 0;
    while i < entries.len()
        invariant
            i <= entries.len(),
            all == entries.deep_view(),
            index_from(all, 0, Map::<Seq<char>, Seq<CatalogEntryView>>::empty()) == index_from(
                all,
                i as int,
                index@,
            ),
            mismatched@ == mismatches_of(all.subrange(0, i as int)),
        decreases entries.len() - i,
    {
        let e = &entries[i];
        proof {
            assert(e@ == all[i as int]);
            assert(all.subrange(0, i + 1 as int).drop_last() =~= all.subrange(0, i as int));
            assert(all.subrange(0, i + 1 as int).last() == all[i as int]);
        }
        match first_bare_exec(&e.sub_paths) {
            None => {},
            Some(bi) => {
                let sub_version_differs = match &e.nested_version {
                    Some(v) => *v != e.sub_paths[bi].version,
                    None => false,
                };
                if sub_version_differs {
                    mismatched.push(e.id);
                }
                let mut resolved = e.clone();
                if resolved.nested_version.is_none() {
                    resolved.nested_version = Some(e.sub_paths[bi].version.clone());
                }
                let key = normalize_key(e.sub_paths[bi].path.as_str());
                proof {
                    assert(resolved@ == resolve_entry(e@));
                    assert(key@ == entry_key(e@)->Some_0);
                }
                index.insert(key, resolved);
            },
        }
        i = i + 1;
    }
    proof {
        assert(all.subrange(0, all.len() as int) =~= all);
    }
    (index, mismatched)
}

} // verus!

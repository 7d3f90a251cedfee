//! The identity matcher and version reconciler: each install is looked
//! up in the catalog index by its normalized path, and the layered
//! comparison policy decides whether it is current. Installs absent
//! upstream and ambiguous path collisions are reported, never silently
//! resolved; only a unique, stale match enters the update set.

use vstd::prelude::*;
use crate::manifest::{InstalledAddon, AddonView};
use crate::catalog::{CatalogEntry, CatalogEntryView, CatalogIndex, lookup};

verus! {

/// The two-tier comparison policy. Where both the install's machine
/// version and the entry's nested version are present, they alone decide
/// by exact equality. Otherwise, a present human version decides against
/// the entry's top-level version. With neither comparison available the
/// install is not current.
pub open spec fn is_current(a: AddonView, e: CatalogEntryView) -> bool {
    match (a.version, e.nested_version) {
        (Some(v), Some(nv)) => v == nv,
        _ => match a.version_name {
            Some(vn) => vn == e.version,
            None => false,
        },
    }
}

/// Decides whether an installed add-on is current against one catalog
/// entry.
pub fn compare_versions(addon: &InstalledAddon, latest: &CatalogEntry) -> (r: bool)
    ensures
        r == is_current(addon@, latest@),
{
    match (&addon.version, &latest.nested_version) {
        (Some(v), Some(nv)) => *v == *nv,
        _ => match &addon.version_name {
            Some(vn) => *vn == latest.version,
            None => false,
        },
    }
}

/// The catalog entries indexed under the install's path.
pub open spec fn candidates(
    m: Map<Seq<char>, Seq<CatalogEntryView>>,
    a: AddonView,
) -> Seq<CatalogEntryView> {
    lookup(m, a.path)
}

pub open spec fn is_missing(m: Map<Seq<char>, Seq<CatalogEntryView>>, a: AddonView) -> bool {
    candidates(m, a).len() == 0
}

pub open spec fn is_unique_outdated(
    m: Map<Seq<char>, Seq<CatalogEntryView>>,
    a: AddonView,
) -> bool {
    candidates(m, a).len() == 1 && !is_current(a, candidates(m, a)[0])
}

pub open spec fn is_multi_outdated(
    m: Map<Seq<char>, Seq<CatalogEntryView>>,
    a: AddonView,
) -> bool {
    candidates(m, a).len() > 1 && (forall|j: int|
        0 <= j < candidates(m, a).len() ==> !is_current(a, #[trigger] candidates(m, a)[j]))
}

/// The matcher's outcome for one normalized install path: no catalog
/// candidate, exactly one, or a path collision with several.
pub enum MatchOutcome<'a> {
    Absent,
    Unique(&'a CatalogEntry),
    Ambiguous(&'a Vec<CatalogEntry>),
}

/// Maps one install path to its catalog candidates.
pub fn match_install<'a>(index: &'a CatalogIndex, path: &String) -> (r: MatchOutcome<'a>)
    ensures
        match r {
            MatchOutcome::Absent => lookup(index@, path@).len() == 0,
            MatchOutcome::Unique(e) => lookup(index@, path@).len() == 1 && e@ == lookup(
                index@,
                path@,
            )[0],
            MatchOutcome::Ambiguous(v) => v.deep_view() == lookup(index@, path@) && v.len() > 1,
        },
{
    match index.get(path) {
        None => MatchOutcome::Absent,
        Some(v) => {
            if v.len() == 0 {
                MatchOutcome::Absent
            } else if v.len() == 1 {
                MatchOutcome::Unique(&v[0])
            } else {
                MatchOutcome::Ambiguous(v)
            }
        },
    }
}

/// One planned replacement: the normalized install path and the single
/// catalog entry chosen for it.
pub struct PlannedUpdate {
    pub path: String,
    /// The install directory's raw name, for the cache layout.
    pub name: String,
    pub entry: CatalogEntry,
}

pub ghost struct PlannedUpdateView {
    pub path: Seq<char>,
    pub name: Seq<char>,
    pub entry: CatalogEntryView,
}

impl View for PlannedUpdate {
    type V = PlannedUpdateView;

    open spec fn view(&self) -> PlannedUpdateView {
        PlannedUpdateView { path: self.path@, name: self.name@, entry: self.entry@ }
    }
}

impl DeepView for PlannedUpdate {
    type V = PlannedUpdateView;

    open spec fn deep_view(&self) -> PlannedUpdateView {
        self.view()
    }
}

/// What one reconciliation run reports.
pub struct ReconcileReport {
    /// The update set: installs judged stale whose path matched exactly
    /// one catalog entry.
    pub outdated: Vec<PlannedUpdate>,
    /// Paths of installs with no catalog entry: gone upstream.
    pub missing: Vec<String>,
    /// Paths that collided with several entries, none of which matched.
    pub multi_outdated: Vec<String>,
}

/// The update set the installs produce, in install order.
pub open spec fn outdated_of(
    installs: Seq<AddonView>,
    m: Map<Seq<char>, Seq<CatalogEntryView>>,
) -> Seq<PlannedUpdateView>
    decreases installs.len(),
{
    if installs.len() == 0 {
        Seq::<PlannedUpdateView>::empty()
    } else {
        let rest = outdated_of(installs.drop_last(), m);
        let a = installs.last();
        if is_unique_outdated(m, a) {
            rest.push(PlannedUpdateView { path: a.path, name: a.name, entry: candidates(m, a)[0] })
        } else {
            rest
        }
    }
}

/// The paths reported gone upstream, one per install, in install order.
pub open spec fn missing_of(
    installs: Seq<AddonView>,
    m: Map<Seq<char>, Seq<CatalogEntryView>>,
) -> Seq<Seq<char>>
    decreases installs.len(),
{
    if installs.len() == 0 {
        Seq::<Seq<char>>::empty()
    } else {
        let rest = missing_of(installs.drop_last(), m);
        let a = installs.last();
        if is_missing(m, a) {
            rest.push(a.path)
        } else {
            rest
        }
    }
}

/// The collided paths with no matching candidate, in install order.
pub open spec fn multi_outdated_of(
    installs: Seq<AddonView>,
    m: Map<Seq<char>, Seq<CatalogEntryView>>,
) -> Seq<Seq<char>>
    decreases installs.len(),
{
    if installs.len() == 0 {
        Seq::<Seq<char>>::empty()
    } else {
        let rest = multi_outdated_of(installs.drop_last(), m);
        let a = installs.last();
        if is_multi_outdated(m, a) {
            rest.push(a.path)
        } else {
            rest
        }
    }
}

/// Whether any candidate matches the install.
fn any_current(addon: &InstalledAddon, v: &Vec<CatalogEntry>) -> (r: bool)
    ensures
        r == (exists|j: int|
            0 <= j < v.deep_view().len() && is_current(addon@, #[trigger] v.deep_view()[j])),
{
    let mut j: usize = 0;
    while j < v.len()
        invariant
            j <= v.len(),
            forall|k: int| 0 <= k < j ==> !is_current(addon@, #[trigger] v.deep_view()[k]),
        decreases v.len() - j,
    {
        if compare_versions(addon, &v[j]) {
            proof {
                assert(is_current(addon@, v.deep_view()[j as int]));
            }
            return true;
        }
        j = j + 1;
    }
    false
}

/// Runs the matcher and reconciler over every install: a path with no
/// catalog entry is reported missing; a unique stale match joins the
/// update set; a collision is current when any candidate matches, and
/// reported otherwise, without choosing a replacement.
pub fn reconcile(installs: &Vec<InstalledAddon>, index: &CatalogIndex) -> (r: ReconcileReport)
    ensures
        r.outdated.deep_view() == outdated_of(installs.deep_view(), index@),
        r.missing.deep_view() == missing_of(installs.deep_view(), index@),
        r.multi_outdated.deep_view() == multi_outdated_of(installs.deep_view(), index@),
{
    let ghost all = installs.deep_view();
    let ghost m = index@;
    let mut outdated: Vec<PlannedUpdate> = Vec::new();
    let mut missing: Vec<String> = Vec::new();
    let mut multi_outdated: Vec<String> = Vec::new();
    let mut i: usize = 0;
    while i < installs.len()
        invariant
            i <= installs.len(),
            all == installs.deep_view(),
            m == index@,
            outdated.deep_view() == outdated_of(all.subrange(0, i as int), m),
            missing.deep_view() == missing_of(all.subrange(0, i as int), m),
            multi_outdated.deep_view() == multi_outdated_of(all.subrange(0, i as int), m),
        decreases installs.len() - i,
    {
        let a = &installs[i];
        proof {
            assert(a@ == all[i as int]);
            assert(all.subrange(0, i + 1 as int).drop_last() =~= all.subrange(0, i as int));
            assert(all.subrange(0, i + 1 as int).last() == all[i as int]);
        }
        let ghost out0 = outdated.deep_view();
        let ghost mis0 = missing.deep_view();
        let ghost mul0 = multi_outdated.deep_view();
        match match_install(index, &a.path) {
            MatchOutcome::Absent => {
                missing.push(a.path.clone());
                proof {
                    assert(missing.deep_view() =~= mis0.push(a@.path));
                }
            },
            MatchOutcome::Unique(e) => {
                if !compare_versions(a, e) {
                    let chosen = PlannedUpdate {
                        path: a.path.clone(),
                        name: a.name.clone(),
                        entry: e.clone(),
                    };
                    proof {
                        assert(chosen@ == (PlannedUpdateView {
                            path: a@.path,
                            name: a@.name,
                            entry: candidates(m, a@)[0],
                        }));
                    }
                    outdated.push(chosen);
                    proof {
                        assert(outdated.deep_view() =~= out0.push(
                            PlannedUpdateView {
                                path: a@.path,
                                name: a@.name,
                                entry: candidates(m, a@)[0],
                            },
                        ));
                    }
                }
            },
            MatchOutcome::Ambiguous(v) => {
                if !any_current(a, v) {
                    multi_outdated.push(a.path.clone());
                    proof {
                        assert(multi_outdated.deep_view() =~= mul0.push(a@.path));
                    }
                }
            },
        }
        i = i + 1;
    }
    proof {
        assert(all.subrange(0, all.len() as int) =~= all);
    }
    ReconcileReport { outdated, missing, multi_outdated }
}

// ---- the reconciliation laws ----

/// A matching machine version against the entry's nested version makes
/// the install current, whatever the human version says.
pub proof fn lemma_tier_one_decides(a: AddonView, e: CatalogEntryView)
    requires
        a.version matches Some(v) && e.nested_version matches Some(nv) && v == nv,
    ensures
        is_current(a, e),
{
}

/// Where the first tier is inapplicable, a human version equal to the
/// entry's top-level version makes the install current.
pub proof fn lemma_tier_two_decides(a: AddonView, e: CatalogEntryView)
    requires
        !(a.version is Some && e.nested_version is Some),
        a.version_name matches Some(vn) && vn == e.version,
    ensures
        is_current(a, e),
{
}

/// Where neither tier applies, the install is judged not current.
pub proof fn lemma_no_tier_not_current(a: AddonView, e: CatalogEntryView)
    requires
        !(a.version is Some && e.nested_version is Some),
        a.version_name is None,
    ensures
        !is_current(a, e),
{
}

pub open spec fn count_eq(paths: Seq<Seq<char>>, p: Seq<char>) -> int
    decreases paths.len(),
{
    if paths.len() == 0 {
        0
    } else {
        count_eq(paths.drop_last(), p) + if paths.last() == p {
            1int
        } else {
            0int
        }
    }
}

pub open spec fn count_path(installs: Seq<AddonView>, p: Seq<char>) -> int
    decreases installs.len(),
{
    if installs.len() == 0 {
        0
    } else {
        count_path(installs.drop_last(), p) + if installs.last().path == p {
            1int
        } else {
            0int
        }
    }
}

/// A path with no catalog entry never enters the update set, and a
/// missing event is recorded exactly once per install at that path.
pub proof fn lemma_missing_recorded_once(
    installs: Seq<AddonView>,
    m: Map<Seq<char>, Seq<CatalogEntryView>>,
    p: Seq<char>,
)
    requires
        lookup(m, p).len() == 0,
    ensures
        forall|j: int| 0 <= j < outdated_of(installs, m).len() ==> (#[trigger] outdated_of(
            installs,
            m,
        )[j]).path != p,
        count_eq(missing_of(installs, m), p) == count_path(installs, p),
    decreases installs.len(),
{
    if installs.len() > 0 {
        lemma_missing_recorded_once(installs.drop_last(), m, p);
        let a = installs.last();
        let rest_out = outdated_of(installs.drop_last(), m);
        if is_unique_outdated(m, a) {
            assert(candidates(m, a).len() == 1);
            assert(a.path != p);
        }
        if is_missing(m, a) {
            let grown = missing_of(installs.drop_last(), m).push(a.path);
            assert(missing_of(installs, m) == grown);
            assert(grown.drop_last() =~= missing_of(installs.drop_last(), m));
            assert(grown.last() == a.path);
        }
    }
}

} // verus!

use vstd::prelude::*;

use crate::error::StoreError;
use crate::settings::TrieveConfiguration;
use crate::settings::settings_equal;
use crate::settings::spec_unprovisioned;
use crate::text::str_eq;

verus! {

/// One named, persisted profile: connection settings plus the flag that marks
/// the entry every command uses when none is named explicitly.
#[derive(Debug, Clone, PartialEq, Eq)]
pub struct TrieveProfileInner {
    pub name: String,
    pub settings: TrieveConfiguration,
    pub selected: bool,
}

/// The persisted, ordered collection of profiles.  Every mutating operation
/// re-establishes the store's invariants: names are unique, and a non-empty
/// collection has exactly one selected entry.
#[derive(Debug, Clone, PartialEq, Eq)]
pub struct TrieveProfile {
    pub inner: Vec<TrieveProfileInner>,
}

/// `p` with its selection flag set to `s` and everything else unchanged.
pub open spec fn with_selected(p: TrieveProfileInner, s: bool) -> TrieveProfileInner {
    TrieveProfileInner { name: p.name, settings: p.settings, selected: s }
}

/// Some entry of `ps` bears the name `name`.
pub open spec fn has_name(ps: Seq<TrieveProfileInner>, name: Seq<char>) -> bool {
    exists|i: int| 0 <= i < ps.len() && ps[i].name@ == name
}

/// No two entries of `ps` share a name.
pub open spec fn names_unique(ps: Seq<TrieveProfileInner>) -> bool {
    forall|i: int, j: int| 0 <= i < j < ps.len() ==> ps[i].name@ != ps[j].name@
}

/// Exactly one entry of `ps` is selected.
pub open spec fn one_selected(ps: Seq<TrieveProfileInner>) -> bool {
    exists|i: int|
        0 <= i < ps.len() && #[trigger] ps[i].selected && (forall|j: int|
            #![trigger ps[j].selected]
            0 <= j < ps.len() && j != i ==> !ps[j].selected)
}

/// The invariant every persisted collection satisfies: unique names, and, when
/// non-empty, exactly one selected entry.
pub open spec fn store_inv(ps: Seq<TrieveProfileInner>) -> bool {
    names_unique(ps) && (ps.len() > 0 ==> one_selected(ps))
}

/// What `upsert` keeps of the existing collection: entries named `name` are
/// dropped, later entries whose name already occurred are dropped, and the
/// survivors, in order, have their selection flag cleared.
pub open spec fn keep_for_upsert(ps: Seq<TrieveProfileInner>, name: Seq<char>) -> Seq<
    TrieveProfileInner,
>
    decreases ps.len(),
{
    if ps.len() == 0 {
        Seq::empty()
    } else {
        let rest = keep_for_upsert(ps.drop_last(), name);
        let last = ps.last();
        if last.name@ != name && !has_name(ps.drop_last(), last.name@) {
            rest.push(with_selected(last, false))
        } else {
            rest
        }
    }
}

proof fn lemma_keep_for_upsert(ps: Seq<TrieveProfileInner>, name: Seq<char>)
    ensures
        forall|i: int|
            #![trigger keep_for_upsert(ps, name)[i]]
            0 <= i < keep_for_upsert(ps, name).len() ==> {
                &&& !keep_for_upsert(ps, name)[i].selected
                &&& keep_for_upsert(ps, name)[i].name@ != name
                &&& has_name(ps, keep_for_upsert(ps, name)[i].name@)
            },
        names_unique(keep_for_upsert(ps, name)),
    decreases ps.len(),
{
    if ps.len() > 0 {
        lemma_keep_for_upsert(ps.drop_last(), name);
        let rest = keep_for_upsert(ps.drop_last(), name);
        let last = ps.last();
        assert(forall|x: Seq<char>| has_name(ps.drop_last(), x) ==> has_name(ps, x)) by {
            assert forall|x: Seq<char>| has_name(ps.drop_last(), x) implies has_name(ps, x) by {
                let j = choose|j: int|
                    0 <= j < ps.drop_last().len() && ps.drop_last()[j].name@ == x;
                assert(ps[j].name@ == x);
            }
        }
        assert(has_name(ps, last.name@));
        if last.name@ != name && !has_name(ps.drop_last(), last.name@) {
            assert forall|i: int, j: int|
                0 <= i < j < keep_for_upsert(ps, name).len() implies keep_for_upsert(ps, name)[i].name@
                != keep_for_upsert(ps, name)[j].name@ by {
                if j == rest.len() {
                    assert(has_name(ps.drop_last(), rest[i].name@));
                }
            }
        }
    }
}

/// `ps` with every entry named `name` removed, order kept.
pub open spec fn remove_name(ps: Seq<TrieveProfileInner>, name: Seq<char>) -> Seq<
    TrieveProfileInner,
>
    decreases ps.len(),
{
    if ps.len() == 0 {
        Seq::empty()
    } else {
        let rest = remove_name(ps.drop_last(), name);
        if ps.last().name@ != name {
            rest.push(ps.last())
        } else {
            rest
        }
    }
}

/// Some entry named `name` is selected.
pub open spec fn removed_was_selected(ps: Seq<TrieveProfileInner>, name: Seq<char>) -> bool {
    exists|i: int| 0 <= i < ps.len() && ps[i].name@ == name && #[trigger] ps[i].selected
}

/// `ps` with its first entry marked selected.
pub open spec fn promote_first(ps: Seq<TrieveProfileInner>) -> Seq<TrieveProfileInner> {
    if ps.len() == 0 {
        ps
    } else {
        ps.update(0, with_selected(ps[0], true))
    }
}

proof fn lemma_remove_name(ps: Seq<TrieveProfileInner>, name: Seq<char>)
    ensures
        remove_name(ps, name).len() <= ps.len(),
        forall|i: int|
            #![trigger remove_name(ps, name)[i]]
            0 <= i < remove_name(ps, name).len() ==> {
                &&& remove_name(ps, name)[i].name@ != name
                &&& exists|j: int| 0 <= j < ps.len() && remove_name(ps, name)[i] == ps[j]
            },
        forall|j: int|
            0 <= j < ps.len() && ps[j].name@ != name ==> exists|i: int|
                0 <= i < remove_name(ps, name).len() && #[trigger] ps[j] == remove_name(
                    ps,
                    name,
                )[i],
        names_unique(ps) ==> names_unique(remove_name(ps, name)),
    decreases ps.len(),
{
    if ps.len() > 0 {
        lemma_remove_name(ps.drop_last(), name);
        let rest = remove_name(ps.drop_last(), name);
        let r = remove_name(ps, name);
        assert forall|i: int| 0 <= i < r.len() implies r[i].name@ != name && exists|j: int|
            0 <= j < ps.len() && r[i] == ps[j] by {
            if i < rest.len() {
                let j = choose|j: int| 0 <= j < ps.drop_last().len() && rest[i] == ps.drop_last()[j];
                assert(r[i] == ps[j]);
            } else {
                assert(r[i] == ps[ps.len() - 1]);
            }
        }
        assert forall|j: int| 0 <= j < ps.len() && ps[j].name@ != name implies exists|i: int|
            0 <= i < r.len() && #[trigger] ps[j] == r[i] by {
            if j < ps.len() - 1 {
                assert(ps.drop_last()[j] == ps[j]);
                let i = choose|i: int| 0 <= i < rest.len() && ps.drop_last()[j] == rest[i];
                assert(ps[j] == r[i]);
            } else {
                assert(ps[j] == r[r.len() - 1]);
            }
        }
        if names_unique(ps) {
            assert(names_unique(ps.drop_last()));
            if ps.last().name@ != name {
                assert forall|i: int, j: int| 0 <= i < j < r.len() implies r[i].name@
                    != r[j].name@ by {
                    if j == rest.len() {
                        let k = choose|k: int|
                            0 <= k < ps.drop_last().len() && rest[i] == ps.drop_last()[k];
                        assert(ps[k].name@ == r[i].name@);
                        assert(ps[ps.len() - 1].name@ == r[j].name@);
                    }
                }
            }
        }
    }
}

/// The entries of `ps` whose selection flag is `want`, in order.
pub open spec fn entries_with_flag(ps: Seq<TrieveProfileInner>, want: bool) -> Seq<
    TrieveProfileInner,
>
    decreases ps.len(),
{
    if ps.len() == 0 {
        Seq::empty()
    } else {
        let rest = entries_with_flag(ps.drop_last(), want);
        if ps.last().selected == want {
            rest.push(ps.last())
        } else {
            rest
        }
    }
}

/// `s` with its organization identifier replaced by `organization_id`.
pub open spec fn conf_with_org(s: TrieveConfiguration, organization_id: u128) -> TrieveConfiguration {
    TrieveConfiguration { api_key: s.api_key, organization_id, api_url: s.api_url }
}

proof fn lemma_remove_inv(ps: Seq<TrieveProfileInner>, name: Seq<char>)
    requires
        store_inv(ps),
        has_name(ps, name),
        remove_name(ps, name).len() > 0,
    ensures
        store_inv(
            if removed_was_selected(ps, name) {
                promote_first(remove_name(ps, name))
            } else {
                remove_name(ps, name)
            },
        ),
{
    lemma_remove_name(ps, name);
    let r = remove_name(ps, name);
    let s = choose|i: int|
        0 <= i < ps.len() && #[trigger] ps[i].selected && (forall|j: int|
            #![trigger ps[j].selected]
            0 <= j < ps.len() && j != i ==> !ps[j].selected);
    if removed_was_selected(ps, name) {
        // The selected entry is among the removed ones, so nothing kept is
        // selected, and promoting the first kept entry restores the invariant.
        let w = choose|i: int| 0 <= i < ps.len() && ps[i].name@ == name && #[trigger] ps[i].selected;
        assert(w == s);
        assert forall|k: int| 0 <= k < r.len() implies !(#[trigger] r[k].selected) by {
            let j = choose|j: int| 0 <= j < ps.len() && r[k] == ps[j];
            if r[k].selected {
                assert(j == s);
            }
        }
        let p = promote_first(r);
        assert(p[0].selected);
        assert(names_unique(p)) by {
            assert(forall|k: int| #![trigger p[k]] 0 <= k < p.len() ==> p[k].name@ == r[k].name@);
        }
        assert(one_selected(p));
    } else {
        // The selected entry survives the removal, and no other kept entry is
        // selected.
        assert(ps[s].name@ != name);
        let k = choose|k: int| 0 <= k < r.len() && #[trigger] ps[s] == r[k];
        assert(r[k].selected);
        assert forall|k2: int|
            #![trigger r[k2].selected]
            0 <= k2 < r.len() && k2 != k implies !r[k2].selected by {
            if r[k2].selected {
                let j2 = choose|j2: int| 0 <= j2 < ps.len() && r[k2] == ps[j2];
                assert(j2 == s);
                assert(r[k2].name@ == r[k].name@);
            }
        }
        assert(one_selected(r));
    }
}

impl TrieveProfileInner {
    /// An exact copy; unlike the derived `Clone`, its effect is visible to
    /// callers' proofs.
    pub fn duplicate(&self) -> (r: Self)
        ensures
            r == *self,
    {
        TrieveProfileInner {
            name: self.name.clone(),
            settings: self.settings.duplicate(),
            selected: self.selected,
        }
    }
}

impl Default for TrieveProfileInner {
    /// A placeholder profile named "default", unprovisioned and unselected.
    fn default() -> (r: Self)
        ensures
            r.name@ == "default"@,
            spec_unprovisioned(r.settings),
            r.settings.api_url@ == "https://api.trieve.ai"@,
            !r.selected,
    {
        TrieveProfileInner {
            name: "default".to_owned(),
            settings: TrieveConfiguration::default(),
            selected: false,
        }
    }
}

impl Default for TrieveProfile {
    /// The collection used when nothing was persisted yet: one placeholder
    /// entry.  It is not a login's product, so it has no selected entry.
    fn default() -> (r: Self)
        ensures
            r.inner@.len() == 1,
            r.inner@[0].name@ == "default"@,
            spec_unprovisioned(r.inner@[0].settings),
            r.inner@[0].settings.api_url@ == "https://api.trieve.ai"@,
            !r.inner@[0].selected,
    {
        TrieveProfile { inner: vec![TrieveProfileInner::default()] }
    }
}

impl TrieveProfile {
    /// An empty collection.
    pub fn new() -> (r: Self)
        ensures
            r.inner@.len() == 0,
    {
        TrieveProfile { inner: Vec::new() }
    }

    /// The collection in display order: selected entries first, each group in
    /// stored order.  Read-only; the persisted order is untouched.
    pub fn list(&self) -> (r: Vec<TrieveProfileInner>)
        ensures
            r@ == entries_with_flag(self.inner@, true) + entries_with_flag(self.inner@, false),
    {
        let n = self.inner.len();
        let mut sel: Vec<TrieveProfileInner> = Vec::new();
        let mut rest: Vec<TrieveProfileInner> = Vec::new();
        let mut i: usize = 0;
        while i < n
            invariant
                i <= n,
                n == self.inner@.len(),
                sel@ == entries_with_flag(self.inner@.take(i as int), true),
                rest@ == entries_with_flag(self.inner@.take(i as int), false),
            decreases n - i,
        {
            proof {
                assert(self.inner@.take(i as int + 1).drop_last() =~= self.inner@.take(i as int));
                assert(self.inner@.take(i as int + 1).last() == self.inner@[i as int]);
            }
            let p = &self.inner[i];
            if p.selected {
                sel.push(p.duplicate());
            } else {
                rest.push(p.duplicate());
            }
            i += 1;
        }
        proof {
            assert(self.inner@.take(n as int) =~= self.inner@);
        }
        let mut out = sel;
        out.append(&mut rest);
        out
    }

    /// Rewrites the store for an organization switch: every entry whose
    /// settings equal `active` (structurally) receives `active` with its
    /// organization replaced by `organization_id` and becomes selected; every
    /// other entry keeps its settings and is deselected.
    ///
    /// Matching is by settings value, not by name: should several entries share
    /// the active settings, all of them are updated and selected, and should
    /// none match, nothing remains selected.  On a store satisfying the
    /// invariants whose selected entry's settings are `active` and unique to
    /// it, the invariants are preserved.
    pub fn switch_org(&mut self, active: &TrieveConfiguration, organization_id: u128)
        ensures
            final(self).inner@.len() == old(self).inner@.len(),
            forall|i: int|
                #![trigger old(self).inner@[i]]
                0 <= i < old(self).inner@.len() ==> final(self).inner@[i] == (
                if settings_equal(old(self).inner@[i].settings, *active) {
                    TrieveProfileInner {
                        name: old(self).inner@[i].name,
                        settings: conf_with_org(*active, organization_id),
                        selected: true,
                    }
                } else {
                    with_selected(old(self).inner@[i], false)
                }),
    {
        let n = self.inner.len();
        let mut i: usize = 0;
        while i < n
            invariant
                i <= n,
                n == self.inner@.len(),
                n == old(self).inner@.len(),
                forall|k: int| i <= k < n ==> self.inner@[k] == old(self).inner@[k],
                forall|k: int|
                    #![trigger old(self).inner@[k]]
                    0 <= k < i ==> self.inner@[k] == (
                    if settings_equal(old(self).inner@[k].settings, *active) {
                        TrieveProfileInner {
                            name: old(self).inner@[k].name,
                            settings: conf_with_org(*active, organization_id),
                            selected: true,
                        }
                    } else {
                        with_selected(old(self).inner@[k], false)
                    }),
            decreases n - i,
        {
            let p = &self.inner[i];
            let np = if p.settings.same_settings(active) {
                TrieveProfileInner {
                    name: p.name.clone(),
                    settings: TrieveConfiguration {
                        api_key: active.api_key.clone(),
                        organization_id,
                        api_url: active.api_url.clone(),
                    },
                    selected: true,
                }
            } else {
                TrieveProfileInner {
                    name: p.name.clone(),
                    settings: p.settings.duplicate(),
                    selected: false,
                }
            };
            self.inner[i] = np;
            i += 1;
        }
    }

    /// The position of the first entry named `name`, if any.
    pub fn find_by_name(&self, name: &str) -> (r: Option<usize>)
        ensures
            match r {
                Some(i) => i < self.inner@.len() && self.inner@[i as int].name@ == name@
                    && (forall|j: int| 0 <= j < i ==> self.inner@[j].name@ != name@),
                None => !has_name(self.inner@, name@),
            },
    {
        let n = self.inner.len();
        let mut i: usize = 0;
        while i < n
            invariant
                i <= n,
                n == self.inner@.len(),
                forall|j: int| 0 <= j < i ==> self.inner@[j].name@ != name@,
            decreases n - i,
        {
            if str_eq(self.inner[i].name.as_str(), name) {
                return Some(i);
            }
            i += 1;
        }
        None
    }

    /// The position of the first selected entry, or 0 when none is selected;
    /// the starting cursor for interactive profile choices.
    pub fn selected_index(&self) -> (r: usize)
        ensures
            (exists|i: int| 0 <= i < self.inner@.len() && self.inner@[i].selected) ==> {
                &&& r < self.inner@.len()
                &&& self.inner@[r as int].selected
                &&& forall|j: int| 0 <= j < r ==> !self.inner@[j].selected
            },
            !(exists|i: int| 0 <= i < self.inner@.len() && self.inner@[i].selected) ==> r == 0,
    {
        let n = self.inner.len();
        let mut i: usize = 0;
        while i < n
            invariant
                i <= n,
                n == self.inner@.len(),
                forall|j: int| 0 <= j < i ==> !self.inner@[j].selected,
            decreases n - i,
        {
            if self.inner[i].selected {
                return i;
            }
            i += 1;
        }
        0
    }

    /// Whether some entry in the first `upto` entries bears the name `name`.
    fn name_in_prefix(&self, upto: usize, name: &str) -> (r: bool)
        requires
            upto <= self.inner@.len(),
        ensures
            r == has_name(self.inner@.take(upto as int), name@),
    {
        let mut j: usize = 0;
        while j < upto
            invariant
                j <= upto,
                upto <= self.inner@.len(),
                forall|k: int| 0 <= k < j ==> self.inner@[k].name@ != name@,
            decreases upto - j,
        {
            if str_eq(self.inner[j].name.as_str(), name) {
                assert(self.inner@.take(upto as int)[j as int].name@ == name@);
                return true;
            }
            j += 1;
        }
        assert(!has_name(self.inner@.take(upto as int), name@)) by {
            if has_name(self.inner@.take(upto as int), name@) {
                let k = choose|k: int|
                    0 <= k < upto && self.inner@.take(upto as int)[k].name@ == name@;
                assert(self.inner@[k].name@ == name@);
            }
        }
        false
    }

    /// Whether an `upsert` of `name` would overwrite a provisioned entry and so
    /// needs the caller's confirmation first.  Unprovisioned entries (never the
    /// product of a login) are overwritten silently.
    pub fn needs_overwrite_confirmation(&self, name: &str) -> (r: bool)
        ensures
            r == exists|i: int|
                0 <= i < self.inner@.len() && #[trigger] self.inner@[i].name@ == name@
                    && !spec_unprovisioned(self.inner@[i].settings),
    {
        let n = self.inner.len();
        let mut i: usize = 0;
        while i < n
            invariant
                i <= n,
                n == self.inner@.len(),
                forall|k: int|
                    0 <= k < i ==> !(#[trigger] self.inner@[k].name@ == name@
                        && !spec_unprovisioned(self.inner@[k].settings)),
            decreases n - i,
        {
            if str_eq(self.inner[i].name.as_str(), name) && !self.inner[i].settings.is_unprovisioned() {
                return true;
            }
            i += 1;
        }
        false
    }

    /// Replaces or creates the entry named `name`: any existing entry with that
    /// name is removed, the remainder is deduplicated by name keeping each
    /// name's first occurrence, every remaining entry is deselected, and the new
    /// profile is appended as the selected one.  The store's invariants hold
    /// afterwards whatever the collection held before.
    ///
    /// Overwrite confirmation is the caller's business: see
    /// [`Self::needs_overwrite_confirmation`].
    pub fn upsert(&mut self, name: String, settings: TrieveConfiguration)
        ensures
            final(self).inner@ == keep_for_upsert(old(self).inner@, name@).push(
                TrieveProfileInner { name, settings, selected: true },
            ),
            store_inv(final(self).inner@),
    {
        let n = self.inner.len();
        let mut acc: Vec<TrieveProfileInner> = Vec::new();
        let mut i: usize = 0;
        while i < n
            invariant
                i <= n,
                n == self.inner@.len(),
                acc@ == keep_for_upsert(self.inner@.take(i as int), name@),
            decreases n - i,
        {
            let p = &self.inner[i];
            let keep = !str_eq(p.name.as_str(), name.as_str()) && !self.name_in_prefix(i, p.name.as_str());
            proof {
                assert(self.inner@.take(i as int + 1).drop_last() =~= self.inner@.take(i as int));
                assert(self.inner@.take(i as int + 1).last() == self.inner@[i as int]);
            }
            if keep {
                acc.push(
                    TrieveProfileInner {
                        name: p.name.clone(),
                        settings: p.settings.duplicate(),
                        selected: false,
                    },
                );
            }
            i += 1;
        }
        proof {
            assert(self.inner@.take(n as int) =~= self.inner@);
            lemma_keep_for_upsert(self.inner@, name@);
        }
        acc.push(TrieveProfileInner { name, settings, selected: true });
        self.inner = acc;
        proof {
            let ps = self.inner@;
            let m = ps.len() - 1;
            assert(ps[m].selected);
            assert(one_selected(ps));
        }
    }

    /// Removes the entry named `name`.  Fails with `NotFound` when no entry
    /// bears the name, and with `LastProfile` when removal would empty the
    /// store (in a store satisfying the invariants: when it holds exactly one
    /// entry); either failure leaves the store unchanged.  If the removed entry
    /// was the selected one, the first remaining entry is promoted to selected.
    #[verifier::rlimit(50)]
    pub fn remove(&mut self, name: &str) -> (r: Result<(), StoreError>)
        ensures
            match r {
                Ok(_) => {
                    &&& has_name(old(self).inner@, name@)
                    &&& remove_name(old(self).inner@, name@).len() > 0
                    &&& final(self).inner@ == if removed_was_selected(old(self).inner@, name@) {
                        promote_first(remove_name(old(self).inner@, name@))
                    } else {
                        remove_name(old(self).inner@, name@)
                    }
                    &&& store_inv(old(self).inner@) ==> store_inv(final(self).inner@)
                },
                Err(e) => {
                    &&& *final(self) == *old(self)
                    &&& match e {
                        StoreError::NotFound(n) => !has_name(old(self).inner@, name@) && n@
                            == name@,
                        StoreError::LastProfile => has_name(old(self).inner@, name@)
                            && remove_name(old(self).inner@, name@).len() == 0,
                    }
                },
            },
            store_inv(old(self).inner@) && old(self).inner@.len() == 1 && has_name(
                old(self).inner@,
                name@,
            ) ==> r matches Err(StoreError::LastProfile),
    {
        let found = self.find_by_name(name);
        if found.is_none() {
            return Err(StoreError::NotFound(name.to_owned()));
        }

        let n = self.inner.len();
        let mut was_selected = false;
        let mut i: usize = 0;
        while i < n
            invariant
                i <= n,
                n == self.inner@.len(),
                was_selected == removed_was_selected(self.inner@.take(i as int), name@),
            decreases n - i,
        {
            if str_eq(self.inner[i].name.as_str(), name) && self.inner[i].selected {
                was_selected = true;
            }
            proof {
                let t1 = self.inner@.take(i as int + 1);
                let t0 = self.inner@.take(i as int);
                assert(forall|k: int| 0 <= k < i ==> t1[k] == t0[k]);
                assert(t1[i as int] == self.inner@[i as int]);
                if removed_was_selected(t0, name@) {
                    let w = choose|k: int|
                        0 <= k < t0.len() && t0[k].name@ == name@ && #[trigger] t0[k].selected;
                    assert(t1[w].name@ == name@ && t1[w].selected);
                }
                if removed_was_selected(t1, name@) && !removed_was_selected(t0, name@) {
                    let w = choose|k: int|
                        0 <= k < t1.len() && t1[k].name@ == name@ && #[trigger] t1[k].selected;
                    if w < i {
                        assert(t0[w].name@ == name@ && t0[w].selected);
                    }
                    assert(w == i);
                }
            }
            i += 1;
        }
        proof {
            assert(self.inner@.take(n as int) =~= self.inner@);
        }

        let mut acc: Vec<TrieveProfileInner> = Vec::new();
        let mut i: usize = 0;
        while i < n
            invariant
                i <= n,
                n == self.inner@.len(),
                acc@ == remove_name(self.inner@.take(i as int), name@),
            decreases n - i,
        {
            let p = &self.inner[i];
            proof {
                assert(self.inner@.take(i as int + 1).drop_last() =~= self.inner@.take(i as int));
                assert(self.inner@.take(i as int + 1).last() == self.inner@[i as int]);
            }
            if !str_eq(p.name.as_str(), name) {
                acc.push(p.duplicate());
            }
            i += 1;
        }

        if acc.is_empty() {
            return Err(StoreError::LastProfile);
        }

        proof {
            lemma_remove_name(self.inner@, name@);
        }
        if was_selected {
            let promoted = TrieveProfileInner {
                name: acc[0].name.clone(),
                settings: acc[0].settings.duplicate(),
                selected: true,
            };
            acc[0] = promoted;
        }
        let ghost prev = self.inner@;
        self.inner = acc;
        proof {
            if store_inv(prev) {
                lemma_remove_inv(prev, name@);
            }
        }
        Ok(())
    }

    /// A copy of the first selected entry's settings, or nothing when no
    /// entry is selected: what a command runs with when no profile is named
    /// explicitly.
    pub fn active_settings(&self) -> (r: Option<TrieveConfiguration>)
        ensures
            match r {
                Some(s) => exists|i: int|
                    0 <= i < self.inner@.len() && #[trigger] self.inner@[i].selected && s
                        == self.inner@[i].settings && (forall|j: int|
                        0 <= j < i ==> !self.inner@[j].selected),
                None => forall|i: int| 0 <= i < self.inner@.len() ==> !self.inner@[i].selected,
            },
    {
        let n = self.inner.len();
        let mut i: usize = 0;
        while i < n
            invariant
                i <= n,
                n == self.inner@.len(),
                forall|j: int| 0 <= j < i ==> !self.inner@[j].selected,
            decreases n - i,
        {
            if self.inner[i].selected {
                return Some(self.inner[i].settings.duplicate());
            }
            i += 1;
        }
        None
    }

    /// Marks the entry named `name` as selected and clears the flag on every
    /// other entry.  Fails with `NotFound`, leaving the store unchanged, when
    /// no entry bears the name.
    pub fn select(&mut self, name: &str) -> (r: Result<(), StoreError>)
        ensures
            match r {
                Ok(_) => {
                    &&& has_name(old(self).inner@, name@)
                    &&& final(self).inner@.len() == old(self).inner@.len()
                    &&& forall|i: int|
                        0 <= i < old(self).inner@.len() ==> final(self).inner@[i] == with_selected(
                            old(self).inner@[i],
                            old(self).inner@[i].name@ == name@,
                        )
                },
                Err(e) => {
                    &&& !has_name(old(self).inner@, name@)
                    &&& *final(self) == *old(self)
                    &&& e matches StoreError::NotFound(n) && n@ == name@
                },
            },
            r is Ok && names_unique(old(self).inner@) ==> store_inv(final(self).inner@),
    {
        let found = self.find_by_name(name);
        match found {
            None => Err(StoreError::NotFound(name.to_owned())),
            Some(sel) => {
                let n = self.inner.len();
                let mut i: usize = 0;
                while i < n
                    invariant
                        i <= n,
                        n == self.inner@.len(),
                        n == old(self).inner@.len(),
                        forall|k: int|
                            i <= k < n ==> self.inner@[k] == old(self).inner@[k],
                        forall|k: int|
                            0 <= k < i ==> self.inner@[k] == with_selected(
                                old(self).inner@[k],
                                old(self).inner@[k].name@ == name@,
                            ),
                    decreases n - i,
                {
                    let s = str_eq(self.inner[i].name.as_str(), name);
                    self.inner[i].selected = s;
                    i += 1;
                }
                proof {
                    if names_unique(old(self).inner@) {
                        let w = choose|i: int|
                            0 <= i < old(self).inner@.len() && old(self).inner@[i].name@ == name@;
                        assert(final(self).inner@[w].selected);
                    }
                }
                Ok(())
            },
        }
    }
}

} // verus!

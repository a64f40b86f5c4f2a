//! The ledger of a channel: the releases made on it, in the order in which
//! they were made.

use crate::config::ChannelName;
use crate::error::{fails_with, StoreError, StoreErrorView};
use crate::release::{release_views, Release, ReleaseView};
use crate::text::{all_distinct, find_string, str_eq, strs};
use vstd::prelude::*;

verus! {

/// What storage holds for the ledger of a channel.
#[derive(Debug)]
pub enum StoredLedger {
    /// Nothing was stored yet.
    Absent,
    /// Something is stored that is no list of releases.
    Corrupt,
    /// The stored releases, oldest first.
    Releases(Vec<Release>),
}

/// The versions of a sequence of releases, in order.
pub open spec fn release_versions(releases: Seq<ReleaseView>) -> Seq<Seq<char>> {
    Seq::new(releases.len(), |i: int| releases[i].version)
}

/// Whether one of `releases` holds the entry called `entry`.
pub open spec fn is_released(releases: Seq<ReleaseView>, entry: Seq<char>) -> bool {
    exists|i: int| 0 <= i < releases.len() && (#[trigger] releases[i]).entries.contains(entry)
}

/// Holds of the names that none of `releases` holds.
pub open spec fn not_released(releases: Seq<ReleaseView>) -> spec_fn(Seq<char>) -> bool {
    |entry: Seq<char>| !is_released(releases, entry)
}

/// The names among `names` that none of `releases` holds, in the order of
/// `names`.
pub open spec fn unreleased(names: Seq<Seq<char>>, releases: Seq<ReleaseView>) -> Seq<Seq<char>> {
    names.filter(not_released(releases))
}

/// A `StoredLedger` as character sequences.
pub enum StoredLedgerView {
    Absent,
    Corrupt,
    Releases(Seq<ReleaseView>),
}

impl View for StoredLedger {
    type V = StoredLedgerView;

    open spec fn view(&self) -> StoredLedgerView {
        match self {
            StoredLedger::Absent => StoredLedgerView::Absent,
            StoredLedger::Corrupt => StoredLedgerView::Corrupt,
            StoredLedger::Releases(releases) => StoredLedgerView::Releases(
                release_views(releases@),
            ),
        }
    }
}

impl Clone for StoredLedger {
    fn clone(&self) -> (copy: Self)
        ensures
            copy@ == self@,
    {
        match self {
            StoredLedger::Absent => StoredLedger::Absent,
            StoredLedger::Corrupt => StoredLedger::Corrupt,
            StoredLedger::Releases(releases) => StoredLedger::Releases(clone_releases(releases)),
        }
    }
}

/// The releases that storage holds, if it holds a list of releases in which
/// no version stands twice; nothing stored counts as the empty list.
pub open spec fn usable_releases(stored: StoredLedgerView) -> Option<Seq<ReleaseView>> {
    match stored {
        StoredLedgerView::Absent => Some(Seq::empty()),
        StoredLedgerView::Corrupt => None,
        StoredLedgerView::Releases(releases) => if release_versions(releases).no_duplicates() {
            Some(releases)
        } else {
            None
        },
    }
}

/// The ledger that loading gives for a channel: the usable releases, yet to
/// be written if nothing was stored.
pub open spec fn loaded_ledger(channel: Seq<char>, stored: StoredLedgerView) -> Option<LedgerView> {
    match usable_releases(stored) {
        Some(releases) => Some(
            LedgerView { channel, releases, dirty: stored is Absent },
        ),
        None => None,
    }
}

/// A copy of a list of releases.
pub fn clone_releases(releases: &Vec<Release>) -> (copy: Vec<Release>)
    ensures
        release_views(copy@) == release_views(releases@),
{
    let mut copy: Vec<Release> = Vec::new();
    let mut i: usize = 0;
    while i < releases.len()
        invariant
            i <= releases.len(),
            release_views(copy@) == release_views(releases@).take(i as int),
        decreases releases.len() - i,
    {
        let ghost before = release_views(copy@);
        let release = releases[i].clone();
        copy.push(release);
        assert(release_views(copy@) == before.push(releases[i as int]@));
        i += 1;
    }
    assert(release_views(releases@).take(releases.len() as int) == release_views(releases@));
    copy
}

/// The releases of one channel.
#[derive(Debug)]
pub struct ChannelReleaseStore {
    /// The channel's identifier.
    channel_name: ChannelName,
    /// The releases, oldest first.
    releases: Vec<Release>,
    /// Whether the releases differ from what storage holds.
    dirty: bool,
}

/// A `ChannelReleaseStore` as character sequences.
pub struct LedgerView {
    pub channel: Seq<char>,
    pub releases: Seq<ReleaseView>,
    pub dirty: bool,
}

impl View for ChannelReleaseStore {
    type V = LedgerView;

    closed spec fn view(&self) -> LedgerView {
        LedgerView {
            channel: self.channel_name@,
            releases: release_views(self.releases@),
            dirty: self.dirty,
        }
    }
}

impl ChannelReleaseStore {
    /// No version stands twice in the ledger.
    #[verifier::type_invariant]
    pub open spec fn wf(&self) -> bool {
        release_versions(self@.releases).no_duplicates()
    }

    /// The ledger of `channel_name` with what storage holds for it. Nothing
    /// stored gives an empty ledger that is yet to be written. Fails if what
    /// is stored is no list of releases, or one in which a version stands
    /// twice.
    pub fn load(channel_name: ChannelName, stored: StoredLedger) -> (loaded: Result<
        Self,
        StoreError,
    >)
        ensures
            match loaded_ledger(channel_name@, stored@) {
                Some(ledger) => loaded is Ok && loaded->Ok_0.wf() && loaded->Ok_0@ == ledger,
                None => fails_with(loaded, StoreErrorView::CorruptLedger(channel_name@)),
            },
    {
        match stored {
            StoredLedger::Absent => {
                let ledger = ChannelReleaseStore {
                    channel_name,
                    releases: Vec::new(),
                    dirty: true,
                };
                assert(ledger@.releases == Seq::<ReleaseView>::empty());
                Ok(ledger)
            },
            StoredLedger::Corrupt => Err(StoreError::CorruptLedger(channel_name)),
            StoredLedger::Releases(releases) => {
                if versions_distinct(&releases) {
                    Ok(ChannelReleaseStore { channel_name, releases, dirty: false })
                } else {
                    Err(StoreError::CorruptLedger(channel_name))
                }
            },
        }
    }

    /// The ledger of `channel_name` without releases, yet to be written.
    pub fn empty(channel_name: ChannelName) -> (ledger: Self)
        ensures
            ledger.wf(),
            ledger@ == (LedgerView { channel: channel_name@, releases: Seq::empty(), dirty: true }),
    {
        let ledger = ChannelReleaseStore { channel_name, releases: Vec::new(), dirty: true };
        assert(ledger@.releases == Seq::<ReleaseView>::empty());
        ledger
    }

    /// Whether the ledger holds a release of this version.
    pub fn version_exists(&self, version: &str) -> (found: bool)
        ensures
            found == release_versions(self@.releases).contains(version@),
    {
        let ghost versions = release_versions(self@.releases);
        let mut i: usize = 0;
        while i < self.releases.len()
            invariant
                i <= self.releases.len(),
                versions == release_versions(self@.releases),
                forall|j: int| 0 <= j < i ==> versions[j] != version@,
            decreases self.releases.len() - i,
        {
            if str_eq(self.releases[i].version.as_str(), version) {
                assert(versions[i as int] == version@);
                return true;
            }
            i += 1;
        }
        false
    }

    /// Moves the releases out and leaves the ledger empty.
    fn take_releases(&mut self) -> (releases: Vec<Release>)
        ensures
            releases == old(self).releases,
            final(self).channel_name == old(self).channel_name,
            final(self).dirty == old(self).dirty,
            final(self).releases@.len() == 0,
    {
        let mut releases: Vec<Release> = Vec::new();
        proof {
            use_type_invariant(&*self);
        }
        core::mem::swap(&mut self.releases, &mut releases);
        releases
    }

    /// Appends a release to the ledger, which is then yet to be written.
    /// Fails, and leaves the ledger as it was, if the ledger holds a release
    /// of the same version.
    pub fn add_version(&mut self, release: Release) -> (added: Result<(), StoreError>)
        ensures
            final(self).wf(),
            if release_versions(old(self)@.releases).contains(release@.version) {
                &&& fails_with(
                    added,
                    StoreErrorView::DuplicateVersion(release@.version, old(self)@.channel),
                )
                &&& final(self)@ == old(self)@
            } else {
                &&& added is Ok
                &&& final(self)@ == (LedgerView {
                    channel: old(self)@.channel,
                    releases: old(self)@.releases.push(release@),
                    dirty: true,
                })
            },
    {
        proof {
            use_type_invariant(&*self);
        }
        if self.version_exists(release.version.as_str()) {
            return Err(
                StoreError::DuplicateVersion(release.version.clone(), self.channel_name.clone()),
            );
        }
        let ghost before = self@;
        let ghost added_view = release@;
        let mut releases = self.take_releases();
        releases.push(release);
        proof {
            let after = release_views(releases@);
            assert(after == before.releases.push(added_view));
            let versions = release_versions(after);
            let old_versions = release_versions(before.releases);
            assert forall|a: int, b: int| 0 <= a < versions.len() && 0 <= b < versions.len() && a
                != b implies versions[a] != versions[b] by {
                if a < old_versions.len() {
                    assert(versions[a] == old_versions[a]);
                }
                if b < old_versions.len() {
                    assert(versions[b] == old_versions[b]);
                }
            }
        }
        self.releases = releases;
        self.dirty = true;
        Ok(())
    }

    /// Whether one of the releases holds the entry called `entry`.
    pub fn holds_entry(&self, entry: &str) -> (held: bool)
        ensures
            held == is_released(self@.releases, entry@),
    {
        let ghost all = self@.releases;
        let mut i: usize = 0;
        while i < self.releases.len()
            invariant
                i <= self.releases.len(),
                all == self@.releases,
                forall|j: int| 0 <= j < i ==> !(#[trigger] all[j]).entries.contains(entry@),
            decreases self.releases.len() - i,
        {
            let at = find_string(&self.releases[i].entries, entry);
            proof {
                all[i as int].entries.index_of_first_ensures(entry@);
            }
            if at.is_some() {
                return true;
            }
            i += 1;
        }
        false
    }

    /// The names among `names` that no release of this ledger holds, in the
    /// order of `names`.
    pub fn find_unreleased_entries(&self, names: &Vec<String>) -> (found: Vec<String>)
        ensures
            strs(found@) == unreleased(strs(names@), self@.releases),
    {
        let ghost all = strs(names@);
        let ghost keep = not_released(self@.releases);
        let mut found: Vec<String> = Vec::new();
        let mut i: usize = 0;
        proof {
            reveal(Seq::filter);
            assert(all.take(0).filter(keep) == Seq::<Seq<char>>::empty());
        }
        while i < names.len()
            invariant
                i <= names.len(),
                all == strs(names@),
                keep == not_released(self@.releases),
                strs(found@) == all.take(i as int).filter(keep),
            decreases names.len() - i,
        {
            let ghost before = strs(found@);
            proof {
                assert(all.take(i + 1) == all.take(i as int).push(names[i as int]@));
                all.take(i as int).lemma_filter_push(names[i as int]@, keep);
            }
            if !self.holds_entry(names[i].as_str()) {
                found.push(names[i].clone());
                assert(strs(found@) == before.push(names[i as int]@));
            }
            i += 1;
        }
        assert(all.take(names.len() as int) == all);
        found
    }

    /// The identifier of the ledger's channel.
    pub fn channel_name(&self) -> (name: &ChannelName)
        ensures
            name@ == self@.channel,
    {
        &self.channel_name
    }

    /// Whether the releases differ from what storage holds.
    pub fn is_dirty(&self) -> (dirty: bool)
        ensures
            dirty == self@.dirty,
    {
        self.dirty
    }

    /// Records that storage now holds the releases of the ledger.
    pub fn mark_flushed(&mut self)
        ensures
            final(self).wf(),
            final(self)@ == (LedgerView { dirty: false, ..old(self)@ }),
    {
        proof {
            use_type_invariant(&*self);
        }
        self.dirty = false;
    }

    /// A copy of the releases, oldest first: what is written to storage.
    pub fn releases(&self) -> (releases: Vec<Release>)
        ensures
            release_views(releases@) == self@.releases,
    {
        clone_releases(&self.releases)
    }
}

/// Whether no version stands twice in `releases`.
fn versions_distinct(releases: &Vec<Release>) -> (distinct: bool)
    ensures
        distinct == release_versions(release_views(releases@)).no_duplicates(),
{
    let mut versions: Vec<String> = Vec::new();
    let mut i: usize = 0;
    while i < releases.len()
        invariant
            i <= releases.len(),
            strs(versions@) == release_versions(release_views(releases@)).take(i as int),
        decreases releases.len() - i,
    {
        let ghost before = strs(versions@);
        versions.push(releases[i].version.clone());
        assert(strs(versions@) == before.push(releases[i as int].version@));
        i += 1;
    }
    assert(release_versions(release_views(releases@)).take(releases.len() as int)
        == release_versions(release_views(releases@)));
    all_distinct(&versions)
}


/// The unreleased names are exactly the names that are there and that no
/// release holds.
pub proof fn lemma_unreleased_members(
    names: Seq<Seq<char>>,
    releases: Seq<ReleaseView>,
    name: Seq<char>,
)
    ensures
        unreleased(names, releases).contains(name) <==> names.contains(name) && !is_released(
            releases,
            name,
        ),
    decreases names.len(),
{
    reveal(Seq::filter);
    let keep = not_released(releases);
    if names.len() > 0 {
        let before = names.drop_last();
        let last = names.last();
        lemma_unreleased_members(before, releases, name);
        let kept = before.filter(keep);
        if names.contains(name) {
            let i = choose|i: int| 0 <= i < names.len() && names[i] == name;
            if i < before.len() {
                assert(before[i] == name);
            }
        }
        if before.contains(name) {
            let i = choose|i: int| 0 <= i < before.len() && before[i] == name;
            assert(names[i] == name);
        }
        assert(names.contains(name) <==> before.contains(name) || last == name);
        if keep(last) {
            assert(names.filter(keep) == kept.push(last));
            if kept.contains(name) {
                let i = choose|i: int| 0 <= i < kept.len() && kept[i] == name;
                assert(kept.push(last)[i] == name);
            }
            if kept.push(last).contains(name) {
                let i = choose|i: int| 0 <= i < kept.push(last).len() && kept.push(last)[i] == name;
                if i < kept.len() {
                    assert(kept[i] == name);
                }
            }
            assert(kept.push(last)[kept.len() as int] == last);
        } else {
            assert(names.filter(keep) == kept);
        }
    } else {
        assert(names.filter(keep).len() == 0);
    }
}

/// The unreleased names stand in the order in which the names were given:
/// each is the name at some position, and the positions rise.
pub proof fn lemma_unreleased_keeps_order(names: Seq<Seq<char>>, releases: Seq<ReleaseView>) -> (at:
    Seq<int>)
    ensures
        at.len() == unreleased(names, releases).len(),
        forall|k: int|
            0 <= k < at.len() ==> 0 <= #[trigger] at[k] < names.len() && names[at[k]]
                == unreleased(names, releases)[k],
        forall|k: int, l: int| 0 <= k < l < at.len() ==> at[k] < at[l],
    decreases names.len(),
{
    reveal(Seq::filter);
    let keep = not_released(releases);
    if names.len() == 0 {
        Seq::empty()
    } else {
        let before = names.drop_last();
        let earlier = lemma_unreleased_keeps_order(before, releases);
        if keep(names.last()) {
            let at = earlier.push(names.len() - 1);
            assert(unreleased(names, releases) == unreleased(before, releases).push(names.last()));
            assert forall|k: int| 0 <= k < at.len() implies 0 <= #[trigger] at[k] < names.len()
                && names[at[k]] == unreleased(names, releases)[k] by {
                if k < earlier.len() {
                    assert(at[k] == earlier[k]);
                    assert(before[earlier[k]] == names[earlier[k]]);
                }
            }
            assert forall|k: int, l: int| 0 <= k < l < at.len() implies at[k] < at[l] by {
                assert(at[k] == earlier[k]);
                if l < earlier.len() {
                    assert(at[l] == earlier[l]);
                }
            }
            at
        } else {
            assert(unreleased(names, releases) == unreleased(before, releases));
            assert forall|k: int| 0 <= k < earlier.len() implies 0 <= #[trigger] earlier[k]
                < names.len() && names[earlier[k]] == unreleased(names, releases)[k] by {
                assert(before[earlier[k]] == names[earlier[k]]);
            }
            earlier
        }
    }
}

/// Loading the releases that a ledger holds gives the ledger back: the same
/// channel, the same releases in the same order, and nothing left to write.
pub proof fn lemma_releases_load_again(ledger: LedgerView)
    requires
        release_versions(ledger.releases).no_duplicates(),
    ensures
        loaded_ledger(ledger.channel, StoredLedgerView::Releases(ledger.releases)) == Some(
            LedgerView { dirty: false, ..ledger },
        ),
{
}

} // verus!

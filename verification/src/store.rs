//! The store: the pending entries and the ledgers of all channels, and the
//! operations that tie them together.

use crate::clock::local_date;
use crate::config::{ChannelName, Config, EntryName};
use crate::context::AppContext;
use crate::document::{changelog_file, path_for, prepend, prepended};
use crate::entries::{entry_names, with_entry, EntryRepository, EntryView};
use crate::error::{fails_with, StoreError, StoreErrorView};
use crate::layout::{dir_decision, dir_step, DirAction, DirRole, PathState};
use crate::ledger::{
    loaded_ledger, release_versions, unreleased, ChannelReleaseStore, LedgerView, StoredLedger,
    StoredLedgerView,
};
use crate::release::{
    contents_of, first_missing, release_body, release_heading, rendering, text_result_is, Release,
    ReleaseView,
};
use crate::text::{lemma_index_of_first_is, lemma_index_of_first_none, str_eq, strs};
use vstd::prelude::*;

verus! {

/// What storage holds for the ledger of one channel.
#[derive(Debug)]
pub struct StoredChannel {
    /// The channel's identifier.
    pub channel: ChannelName,
    /// What is stored for it.
    pub ledger: StoredLedger,
}

/// A `StoredChannel` as character sequences.
pub struct StoredChannelView {
    pub channel: Seq<char>,
    pub ledger: StoredLedgerView,
}

impl View for StoredChannel {
    type V = StoredChannelView;

    open spec fn view(&self) -> StoredChannelView {
        StoredChannelView { channel: self.channel@, ledger: self.ledger@ }
    }
}

/// The views of what storage holds.
pub open spec fn stored_views(stored: Seq<StoredChannel>) -> Seq<StoredChannelView> {
    Seq::new(stored.len(), |i: int| stored[i]@)
}

/// The channels that storage holds something for, in order.
pub open spec fn stored_channels(stored: Seq<StoredChannelView>) -> Seq<Seq<char>> {
    Seq::new(stored.len(), |i: int| stored[i].channel)
}

/// What storage holds for `channel`: what stands first under that
/// identifier, and nothing if the identifier does not occur.
pub open spec fn stored_for(stored: Seq<StoredChannelView>, channel: Seq<char>) -> StoredLedgerView {
    match stored_channels(stored).index_of_first(channel) {
        Some(i) => stored[i].ledger,
        None => StoredLedgerView::Absent,
    }
}

/// The ledgers of `channels`, loaded from what storage holds, or the
/// failure for the first channel whose stored ledger cannot be used.
pub open spec fn opened_ledgers(channels: Seq<Seq<char>>, stored: Seq<StoredChannelView>) -> Result<
    Seq<LedgerView>,
    StoreErrorView,
>
    decreases channels.len(),
{
    if channels.len() == 0 {
        Ok(Seq::empty())
    } else {
        match opened_ledgers(channels.drop_last(), stored) {
            Ok(ledgers) => match loaded_ledger(channels.last(), stored_for(stored, channels.last())) {
                Some(ledger) => Ok(ledgers.push(ledger)),
                None => Err(StoreErrorView::CorruptLedger(channels.last())),
            },
            Err(error) => Err(error),
        }
    }
}

/// The views of a sequence of ledgers.
pub open spec fn ledger_views(ledgers: Seq<ChannelReleaseStore>) -> Seq<LedgerView> {
    Seq::new(ledgers.len(), |i: int| ledgers[i]@)
}

/// The channels of a sequence of ledgers, in order.
pub open spec fn ledger_channels(ledgers: Seq<LedgerView>) -> Seq<Seq<char>> {
    Seq::new(ledgers.len(), |i: int| ledgers[i].channel)
}

/// The ledger of `channel`, if there is one.
pub open spec fn ledger_of(ledgers: Seq<LedgerView>, channel: Seq<char>) -> Option<LedgerView> {
    match ledger_channels(ledgers).index_of_first(channel) {
        Some(i) => Some(ledgers[i]),
        None => None,
    }
}

/// Whether a ledger holds a release of `version`.
pub open spec fn holds_version(ledger: LedgerView, version: Seq<char>) -> bool {
    release_versions(ledger.releases).contains(version)
}

/// The channel of the first ledger that holds a release of `version`.
pub open spec fn holder_of(ledgers: Seq<LedgerView>, version: Seq<char>) -> Option<Seq<char>>
    decreases ledgers.len(),
{
    if ledgers.len() == 0 {
        None
    } else if holds_version(ledgers[0], version) {
        Some(ledgers[0].channel)
    } else {
        holder_of(ledgers.skip(1), version)
    }
}

/// Whether the version is released on any channel.
pub open spec fn released_anywhere(ledgers: Seq<LedgerView>, version: Seq<char>) -> bool {
    exists|i: int| 0 <= i < ledgers.len() && holds_version(#[trigger] ledgers[i], version)
}

/// A version has a holder exactly if it is released on some channel.
pub proof fn lemma_holder_of(ledgers: Seq<LedgerView>, version: Seq<char>)
    ensures
        holder_of(ledgers, version) is Some <==> released_anywhere(ledgers, version),
    decreases ledgers.len(),
{
    if ledgers.len() > 0 && !holds_version(ledgers[0], version) {
        let rest = ledgers.skip(1);
        lemma_holder_of(rest, version);
        if released_anywhere(rest, version) {
            let i = choose|i: int| 0 <= i < rest.len() && holds_version(#[trigger] rest[i], version);
            assert(holds_version(ledgers[i + 1], version));
        }
        if released_anywhere(ledgers, version) {
            let i = choose|i: int|
                0 <= i < ledgers.len() && holds_version(#[trigger] ledgers[i], version);
            assert(holds_version(rest[i - 1], version));
        }
    } else if ledgers.len() > 0 {
        assert(holds_version(ledgers[0], version));
    }
}

/// A release that was checked and rendered, and the document that will
/// hold it.
#[derive(Debug)]
pub struct StagedRelease {
    /// The channel of the release.
    pub channel: ChannelName,
    /// The release.
    pub release: Release,
    /// The changelog file of the channel, relative to the project's root.
    pub path: String,
    /// What the changelog file is to hold.
    pub document: String,
}

/// A `StagedRelease` as character sequences.
pub struct StagedReleaseView {
    pub channel: Seq<char>,
    pub release: ReleaseView,
    pub path: Seq<char>,
    pub document: Seq<char>,
}

impl View for StagedRelease {
    type V = StagedReleaseView;

    open spec fn view(&self) -> StagedReleaseView {
        StagedReleaseView {
            channel: self.channel@,
            release: self.release@,
            path: self.path@,
            document: self.document@,
        }
    }
}

/// A changelog file and what it is to hold.
#[derive(Debug)]
pub struct DocumentUpdate {
    /// The changelog file, relative to the project's root.
    pub path: String,
    /// What the changelog file is to hold.
    pub document: String,
}

/// A `DocumentUpdate` as character sequences.
pub struct DocumentUpdateView {
    pub path: Seq<char>,
    pub document: Seq<char>,
}

impl View for DocumentUpdate {
    type V = DocumentUpdateView;

    open spec fn view(&self) -> DocumentUpdateView {
        DocumentUpdateView { path: self.path@, document: self.document@ }
    }
}

/// The view of an optional string slice.
pub open spec fn view_of(text: Option<&str>) -> Option<Seq<char>> {
    match text {
        Some(s) => Some(s@),
        None => None,
    }
}

/// The ledgers after `release` was appended to the ledger of `channel`,
/// which is then yet to be written. Fails if there is no ledger of that
/// channel, and else if a ledger holds the version already; the failure
/// names the channel of the first ledger that holds it.
pub open spec fn committed(
    ledgers: Seq<LedgerView>,
    channel: Seq<char>,
    release: ReleaseView,
) -> Result<Seq<LedgerView>, StoreErrorView> {
    match ledger_channels(ledgers).index_of_first(channel) {
        None => Err(StoreErrorView::UnknownChannel(channel)),
        Some(i) => match holder_of(ledgers, release.version) {
            Some(holder) => Err(StoreErrorView::DuplicateVersion(release.version, holder)),
            None => Ok(
                ledgers.update(
                    i,
                    LedgerView {
                        channel: ledgers[i].channel,
                        releases: ledgers[i].releases.push(release),
                        dirty: true,
                    },
                ),
            ),
        },
    }
}

/// What staging a release gives: the failure of rendering it, or else the
/// failure of appending it, or else the release with the changelog file of
/// its channel and the document that holds the rendered release in front of
/// what the file held.
pub open spec fn staged(
    store: StoreView,
    config: Config,
    channel: Seq<char>,
    release: ReleaseView,
    existing: Option<Seq<char>>,
    date: Seq<char>,
) -> Result<StagedReleaseView, StoreErrorView> {
    match rendering(release, store.entries, strs(config.sections@), config.release_header@, date) {
        Err(error) => Err(error),
        Ok(fragment) => match committed(store.ledgers, channel, release) {
            Err(error) => Err(error),
            Ok(_) => Ok(
                StagedReleaseView {
                    channel,
                    release,
                    path: changelog_file(config, channel),
                    document: prepended(existing, config.changelog_header@, fragment),
                },
            ),
        },
    }
}

/// Whether `outcome` is what `expected` describes.
pub open spec fn staged_is(
    outcome: Result<StagedRelease, StoreError>,
    expected: Result<StagedReleaseView, StoreErrorView>,
) -> bool {
    match expected {
        Ok(plan) => outcome is Ok && outcome->Ok_0@ == plan,
        Err(error) => fails_with(outcome, error),
    }
}

/// The pending entries and the ledgers of the configured channels.
pub struct Store<'a> {
    /// The context, with the configuration.
    ctx: &'a AppContext,
    /// The pending entries.
    entries: EntryRepository,
    /// One ledger for each configured channel, in the configuration's order.
    versions: Vec<ChannelReleaseStore>,
}

/// The state of a store.
pub struct StoreView {
    pub entries: Seq<EntryView>,
    pub ledgers: Seq<LedgerView>,
}

impl<'a> View for Store<'a> {
    type V = StoreView;

    closed spec fn view(&self) -> StoreView {
        StoreView { entries: self.entries@, ledgers: ledger_views(self.versions@) }
    }
}

impl<'a> Store<'a> {
    /// The configuration that the store was opened with.
    pub closed spec fn config(&self) -> Config {
        self.ctx.config
    }

    /// There is one ledger for each configured channel, in the order of the
    /// configuration; no ledger holds a version twice, and no two entries
    /// share a name.
    #[verifier::type_invariant]
    pub open spec fn wf(&self) -> bool {
        &&& ledger_channels(self@.ledgers) == self.config().channel_names()
        &&& forall|i: int|
            0 <= i < self@.ledgers.len() ==> release_versions(
                (#[trigger] self@.ledgers[i]).releases,
            ).no_duplicates()
        &&& entry_names(self@.entries).no_duplicates()
    }

    /// Opens the store on the entries found and on what storage holds for
    /// the ledgers: one ledger is loaded for each configured channel. Fails
    /// with the first channel whose stored ledger cannot be used.
    pub fn new(ctx: &'a AppContext, entries: EntryRepository, stored: &Vec<StoredChannel>) -> (opened:
        Result<Store<'a>, StoreError>)
        ensures
            match opened_ledgers(ctx.config.channel_names(), stored_views(stored@)) {
                Ok(ledgers) => opened is Ok && opened->Ok_0.wf() && opened->Ok_0.config()
                    == ctx.config && opened->Ok_0@ == (StoreView { entries: entries@, ledgers }),
                Err(error) => fails_with(opened, error),
            },
    {
        proof {
            use_type_invariant(&entries);
        }
        let ids = ctx.config.channel_list();
        let ghost names = ctx.config.channel_names();
        let ghost held = stored_views(stored@);
        let mut versions: Vec<ChannelReleaseStore> = Vec::new();
        let mut i: usize = 0;
        proof {
            assert(names.take(0) == Seq::<Seq<char>>::empty());
            assert(ledger_views(versions@) == Seq::<LedgerView>::empty());
        }
        while i < ids.len()
            invariant
                i <= ids.len(),
                strs(ids@) == names,
                names == ctx.config.channel_names(),
                held == stored_views(stored@),
                opened_ledgers(names.take(i as int), held) == Ok::<Seq<LedgerView>, StoreErrorView>(
                    ledger_views(versions@),
                ),
                ledger_channels(ledger_views(versions@)) == names.take(i as int),
                forall|j: int|
                    0 <= j < versions@.len() ==> release_versions(
                        (#[trigger] ledger_views(versions@)[j]).releases,
                    ).no_duplicates(),
            decreases ids.len() - i,
        {
            let ghost before = ledger_views(versions@);
            proof {
                assert(names.take(i + 1).drop_last() == names.take(i as int));
                assert(names.take(i + 1).last() == ids@[i as int]@);
            }
            let found = find_stored(stored, ids[i].as_str());
            match ChannelReleaseStore::load(ids[i].clone(), found) {
                Ok(ledger) => {
                    versions.push(ledger);
                    proof {
                        let after = ledger_views(versions@);
                        assert(after == before.push(ledger@));
                        assert(ledger_channels(after) == names.take(i as int).push(ids@[i as int]@));
                        assert(names.take(i + 1) == names.take(i as int).push(ids@[i as int]@));
                        assert forall|j: int| 0 <= j < versions@.len() implies release_versions(
                            (#[trigger] after[j]).releases,
                        ).no_duplicates() by {
                            if j < before.len() {
                                assert(after[j] == before[j]);
                            }
                        }
                    }
                },
                Err(error) => {
                    proof {
                        assert(opened_ledgers(names.take(i + 1), held) == Err::<
                            Seq<LedgerView>,
                            StoreErrorView,
                        >(StoreErrorView::CorruptLedger(ids@[i as int]@)));
                        lemma_opened_prefix_fails(names, held, i as int + 1);
                    }
                    return Err(error);
                },
            }
            i += 1;
        }
        assert(names.take(ids.len() as int) == names);
        Ok(Store { ctx, entries, versions })
    }

    /// Whether an entry called `name` is there.
    pub fn entry_exists(&self, name: &str) -> (found: bool)
        ensures
            found == entry_names(self@.entries).contains(name@),
    {
        self.entries.contains(name)
    }

    /// Stores `content` as the entry called `name`. An entry of that name
    /// keeps its place and holds the new text; a new name comes last.
    pub fn create_entry(&mut self, name: EntryName, content: String)
        ensures
            final(self).wf(),
            final(self).config() == old(self).config(),
            final(self)@.ledgers == old(self)@.ledgers,
            final(self)@.entries == with_entry(old(self)@.entries, name@, Some(content@)),
            entry_names(final(self)@.entries).contains(name@),
            final(self)@.entries.contains(EntryView { name: name@, content: Some(content@) }),
    {
        proof {
            use_type_invariant(&*self);
        }
        let mut entries = EntryRepository::new();
        core::mem::swap(&mut self.entries, &mut entries);
        entries.create(name, content);
        self.entries = entries;
    }

    /// The pending entries.
    pub fn entries(&self) -> (entries: &EntryRepository)
        ensures
            entries@ == self@.entries,
            entries.wf(),
    {
        proof {
            use_type_invariant(&*self);
        }
        &self.entries
    }

    /// Whether the version is released on any channel.
    pub fn version_exists(&self, version: &str) -> (found: bool)
        ensures
            found == released_anywhere(self@.ledgers, version@),
    {
        let holder = self.find_holder(version);
        proof {
            lemma_holder_of(self@.ledgers, version@);
        }
        holder.is_some()
    }

    /// The position of the first ledger that holds a release of `version`.
    fn find_holder(&self, version: &str) -> (holder: Option<usize>)
        ensures
            match holder {
                Some(i) => i < self@.ledgers.len() && holder_of(self@.ledgers, version@) == Some(
                    self@.ledgers[i as int].channel,
                ),
                None => holder_of(self@.ledgers, version@) is None,
            },
    {
        let ghost all = self@.ledgers;
        let mut i: usize = 0;
        assert(all.skip(0) == all);
        while i < self.versions.len()
            invariant
                i <= self.versions.len(),
                all == self@.ledgers,
                holder_of(all, version@) == holder_of(all.skip(i as int), version@),
            decreases self.versions.len() - i,
        {
            proof {
                assert(all.skip(i as int)[0] == all[i as int]);
                assert(all.skip(i as int).skip(1) == all.skip(i + 1));
            }
            if self.versions[i].version_exists(version) {
                return Some(i);
            }
            i += 1;
        }
        None
    }

    /// The position of the ledger of `channel`.
    fn find_channel(&self, channel: &str) -> (at: Option<usize>)
        ensures
            match at {
                Some(i) => i < self@.ledgers.len() && ledger_channels(
                    self@.ledgers,
                ).index_of_first(channel@) == Some(i as int),
                None => ledger_channels(self@.ledgers).index_of_first(channel@) is None,
            },
    {
        let ghost names = ledger_channels(self@.ledgers);
        let mut i: usize = 0;
        while i < self.versions.len()
            invariant
                i <= self.versions.len(),
                names == ledger_channels(self@.ledgers),
                forall|j: int| 0 <= j < i ==> names[j] != channel@,
            decreases self.versions.len() - i,
        {
            if str_eq(self.versions[i].channel_name().as_str(), channel) {
                proof {
                    lemma_index_of_first_is(names, channel@, i as int);
                }
                return Some(i);
            }
            i += 1;
        }
        proof {
            lemma_index_of_first_none(names, channel@);
        }
        None
    }

    /// Where `release` would be appended on `channel`: the position of the
    /// channel's ledger, or the failure of appending.
    fn find_place(&self, channel: &str, release: &Release) -> (place: Result<usize, StoreError>)
        ensures
            match committed(self@.ledgers, channel@, release@) {
                Ok(_) => place is Ok && place->Ok_0 < self@.ledgers.len() && ledger_channels(
                    self@.ledgers,
                ).index_of_first(channel@) == Some(place->Ok_0 as int) && holder_of(
                    self@.ledgers,
                    release@.version,
                ) is None,
                Err(error) => fails_with(place, error),
            },
    {
        let at = match self.find_channel(channel) {
            Some(at) => at,
            None => {
                return Err(StoreError::UnknownChannel(channel.to_owned()));
            },
        };
        match self.find_holder(release.version.as_str()) {
            Some(i) => Err(
                StoreError::DuplicateVersion(
                    release.version.clone(),
                    self.versions[i].channel_name().clone(),
                ),
            ),
            None => Ok(at),
        }
    }

    /// The ledger of `channel`, if the channel is configured.
    pub fn ledger(&self, channel: &str) -> (ledger: Option<&ChannelReleaseStore>)
        ensures
            match ledger {
                Some(found) => ledger_of(self@.ledgers, channel@) == Some(found@) && found.wf(),
                None => ledger_of(self@.ledgers, channel@) is None,
            },
    {
        proof {
            use_type_invariant(&*self);
        }
        match self.find_channel(channel) {
            Some(i) => Some(&self.versions[i]),
            None => None,
        }
    }

    /// The pending entries that no release of `channel` holds, in the order
    /// of the repository. Fails if the channel is not configured.
    pub fn find_unreleased_changes(&self, channel: &ChannelName) -> (found: Result<
        Vec<EntryName>,
        StoreError,
    >)
        ensures
            found is Ok <==> self.config().channel_names().contains(channel@),
            match unreleased_changes(self@, channel@) {
                Ok(names) => found is Ok && strs(found->Ok_0@) == names,
                Err(error) => fails_with(found, error),
            },
    {
        proof {
            use_type_invariant(&*self);
            ledger_channels(self@.ledgers).index_of_first_ensures(channel@);
        }
        match self.find_channel(channel.as_str()) {
            Some(i) => {
                let names = self.entries.names();
                Ok(self.versions[i].find_unreleased_entries(&names))
            },
            None => Err(StoreError::UnknownChannel(channel.clone())),
        }
    }

    /// Renders a release with `date` in place of the date. Nothing in the
    /// store changes.
    pub fn render_release_at(&self, release: &Release, date: &str) -> (rendered: Result<
        String,
        StoreError,
    >)
        ensures
            text_result_is(
                rendered,
                rendering(
                    release@,
                    self@.entries,
                    strs(self.config().sections@),
                    self.config().release_header@,
                    date@,
                ),
            ),
    {
        release.render(&self.entries, &self.ctx.config, date)
    }

    /// Renders a release with the date of the day. Nothing in the store
    /// changes. Fails if an entry of the release has no readable file, and
    /// otherwise only if the configured date format cannot be written.
    pub fn render_release(&self, release: &Release) -> (rendered: Result<String, StoreError>)
        ensures
            match first_missing(self@.entries, release@.entries) {
                Some(name) => fails_with(rendered, StoreErrorView::MissingEntryFile(name)),
                None => match rendered {
                    Ok(text) => exists|date: Seq<char>|
                        text_result_is(
                            rendered,
                            #[trigger] rendering(
                                release@,
                                self@.entries,
                                strs(self.config().sections@),
                                self.config().release_header@,
                                date,
                            ),
                        ),
                    Err(error) => error@ == bad_date_format(),
                },
            },
    {
        let contents = match release.read_entries(&self.entries) {
            Ok(contents) => contents,
            Err(error) => {
                return Err(error);
            },
        };
        match local_date(self.ctx.config.date_format.as_str()) {
            Some(date) => {
                let text = release.render_contents(&contents, &self.ctx.config, date.as_str());
                let rendered = Ok(text);
                assert(text_result_is(
                    rendered,
                    rendering(
                        release@,
                        self@.entries,
                        strs(self.config().sections@),
                        self.config().release_header@,
                        date@,
                    ),
                ));
                rendered
            },
            None => Err(StoreError::Config("date_format cannot be written".to_owned())),
        }
    }

    /// Checks that a release can be made on `channel`, and makes the
    /// document that will hold it, with `date` in place of the date.
    /// Nothing in the store changes. Fails, in this order, if an entry of
    /// the release has no readable file, if the channel is not configured,
    /// or if the version is released on any channel.
    pub fn stage_release_at(
        &self,
        channel: ChannelName,
        release: Release,
        existing: Option<&str>,
        date: &str,
    ) -> (outcome: Result<StagedRelease, StoreError>)
        ensures
            staged_is(
                outcome,
                staged(self@, self.config(), channel@, release@, view_of(existing), date@),
            ),
    {
        let fragment = match release.render(&self.entries, &self.ctx.config, date) {
            Ok(fragment) => fragment,
            Err(error) => {
                return Err(error);
            },
        };
        match self.find_place(channel.as_str(), &release) {
            Ok(_) => {},
            Err(error) => {
                return Err(error);
            },
        }
        let path = path_for(channel.as_str(), &self.ctx.config);
        let document = prepend(
            existing,
            self.ctx.config.changelog_header.as_str(),
            fragment.as_str(),
        );
        Ok(StagedRelease { channel, release, path, document })
    }

    /// Appends a staged release to the ledger of its channel, which is then
    /// yet to be written. Fails, and leaves the store as it was, if the
    /// channel is not configured or the version is released on any channel.
    pub fn commit_release(&mut self, staged: StagedRelease) -> (outcome: Result<(), StoreError>)
        ensures
            final(self).wf(),
            final(self).config() == old(self).config(),
            final(self)@.entries == old(self)@.entries,
            match committed(old(self)@.ledgers, staged@.channel, staged@.release) {
                Ok(ledgers) => outcome is Ok && final(self)@.ledgers == ledgers,
                Err(error) => fails_with(outcome, error) && final(self)@ == old(self)@,
            },
    {
        proof {
            use_type_invariant(&*self);
        }
        let ghost before = self@.ledgers;
        let at = match self.find_place(staged.channel.as_str(), &staged.release) {
            Ok(at) => at,
            Err(error) => {
                return Err(error);
            },
        };
        proof {
            lemma_holder_of(before, staged@.release.version);
            assert(!holds_version(before[at as int], staged@.release.version));
        }
        let mut held = Store::blank(self.ctx);
        core::mem::swap(self, &mut held);
        let Store { ctx, entries, versions } = held;
        let mut versions = versions;
        let mut ledger = versions.remove(at);
        let added = ledger.add_version(staged.release);
        versions.insert(at, ledger);
        proof {
            let after = ledger_views(versions@);
            let expected = before.update(
                at as int,
                LedgerView {
                    channel: before[at as int].channel,
                    releases: before[at as int].releases.push(staged@.release),
                    dirty: true,
                },
            );
            assert(after == expected);
            assert(ledger_channels(after) == ledger_channels(before));
            assert forall|j: int| 0 <= j < after.len() implies release_versions(
                (#[trigger] after[j]).releases,
            ).no_duplicates() by {
                if j != at {
                    assert(after[j] == before[j]);
                }
            }
        }
        *self = Store { ctx, entries, versions };
        added
    }

    /// A store without entries and without releases.
    fn blank(ctx: &'a AppContext) -> (store: Store<'a>)
        ensures
            store.wf(),
            store.config() == ctx.config,
    {
        let ids = ctx.config.channel_list();
        let ghost names = ctx.config.channel_names();
        let mut versions: Vec<ChannelReleaseStore> = Vec::new();
        let mut i: usize = 0;
        proof {
            assert(ledger_channels(ledger_views(versions@)) == names.take(0));
        }
        while i < ids.len()
            invariant
                i <= ids.len(),
                strs(ids@) == names,
                ledger_channels(ledger_views(versions@)) == names.take(i as int),
                forall|j: int|
                    0 <= j < versions@.len() ==> (#[trigger] ledger_views(
                        versions@,
                    )[j]).releases.len() == 0,
            decreases ids.len() - i,
        {
            let ghost before = ledger_views(versions@);
            let ledger = ChannelReleaseStore::empty(ids[i].clone());
            versions.push(ledger);
            proof {
                let after = ledger_views(versions@);
                assert(after == before.push(ledger@));
                assert(ledger_channels(after) == names.take(i as int).push(ids@[i as int]@));
                assert(names.take(i + 1) == names.take(i as int).push(ids@[i as int]@));
                assert forall|j: int| 0 <= j < versions@.len() implies (#[trigger] after[j]).releases.len()
                    == 0 by {
                    if j < before.len() {
                        assert(after[j] == before[j]);
                    }
                }
            }
            i += 1;
        }
        assert(names.take(ids.len() as int) == names);
        let entries = EntryRepository::new();
        assert(entry_names(entries@) == Seq::<Seq<char>>::empty());
        Store { ctx, entries, versions }
    }

    /// Makes a release on `channel`, with `date` in place of the date: the
    /// release is rendered, the document that holds it is made, and the
    /// release is appended to the channel's ledger. Gives back the document
    /// and where to write it. On failure the store is as it was.
    pub fn create_release_at(
        &mut self,
        channel: ChannelName,
        release: Release,
        existing: Option<&str>,
        date: &str,
    ) -> (outcome: Result<DocumentUpdate, StoreError>)
        ensures
            final(self).wf(),
            final(self).config() == old(self).config(),
            final(self)@.entries == old(self)@.entries,
            match staged(
                old(self)@,
                old(self).config(),
                channel@,
                release@,
                view_of(existing),
                date@,
            ) {
                Ok(plan) => {
                    &&& outcome is Ok
                    &&& outcome->Ok_0@ == (DocumentUpdateView {
                        path: plan.path,
                        document: plan.document,
                    })
                    &&& committed(old(self)@.ledgers, channel@, release@) == Ok::<
                        Seq<LedgerView>,
                        StoreErrorView,
                    >(final(self)@.ledgers)
                },
                Err(error) => fails_with(outcome, error) && final(self)@ == old(self)@,
            },
    {
        proof {
            use_type_invariant(&*self);
        }
        let plan = match self.stage_release_at(channel, release, existing, date) {
            Ok(plan) => plan,
            Err(error) => {
                return Err(error);
            },
        };
        let update = DocumentUpdate { path: plan.path.clone(), document: plan.document.clone() };
        match self.commit_release(plan) {
            Ok(()) => Ok(update),
            Err(error) => Err(error),
        }
    }

    /// Checks that a release can be made on `channel`, and makes the
    /// document that will hold it, with the date of the day. Nothing in the
    /// store changes. Fails as `stage_release_at` does, and otherwise only
    /// if the configured date format cannot be written.
    pub fn stage_release(
        &self,
        channel: ChannelName,
        release: Release,
        existing: Option<&str>,
    ) -> (outcome: Result<StagedRelease, StoreError>)
        ensures
            match first_missing(self@.entries, release@.entries) {
                Some(name) => fails_with(outcome, StoreErrorView::MissingEntryFile(name)),
                None => match committed(self@.ledgers, channel@, release@) {
                    Err(error) => fails_with(outcome, error),
                    Ok(_) => match outcome {
                        Ok(plan) => exists|date: Seq<char>|
                            staged_is(
                                outcome,
                                #[trigger] staged(
                                    self@,
                                    self.config(),
                                    channel@,
                                    release@,
                                    view_of(existing),
                                    date,
                                ),
                            ),
                        Err(error) => error@ == bad_date_format(),
                    },
                },
            },
    {
        match release.read_entries(&self.entries) {
            Ok(_) => {},
            Err(error) => {
                return Err(error);
            },
        }
        match self.find_place(channel.as_str(), &release) {
            Ok(_) => {},
            Err(error) => {
                return Err(error);
            },
        }
        match local_date(self.ctx.config.date_format.as_str()) {
            Some(date) => {
                let outcome = self.stage_release_at(channel, release, existing, date.as_str());
                assert(staged_is(
                    outcome,
                    staged(self@, self.config(), channel@, release@, view_of(existing), date@),
                ));
                outcome
            },
            None => Err(StoreError::Config("date_format cannot be written".to_owned())),
        }
    }

    /// Makes a release on `channel`, with the date of the day: the release
    /// is rendered, the document that holds it is made, and the release is
    /// appended to the channel's ledger. Gives back the document and where
    /// to write it. On failure the store is as it was. Fails, in this order,
    /// if an entry of the release has no readable file, if the channel is
    /// not configured, if the version is released on any channel, or if the
    /// configured date format cannot be written.
    pub fn create_release(
        &mut self,
        channel: ChannelName,
        release: Release,
        existing: Option<&str>,
    ) -> (outcome: Result<DocumentUpdate, StoreError>)
        ensures
            final(self).wf(),
            final(self).config() == old(self).config(),
            final(self)@.entries == old(self)@.entries,
            outcome is Err ==> final(self)@ == old(self)@,
            match first_missing(old(self)@.entries, release@.entries) {
                Some(name) => fails_with(outcome, StoreErrorView::MissingEntryFile(name)),
                None => match committed(old(self)@.ledgers, channel@, release@) {
                    Err(error) => fails_with(outcome, error),
                    Ok(ledgers) => match outcome {
                        Ok(update) => final(self)@.ledgers == ledgers && exists|date: Seq<char>|
                            #![trigger release_heading(
                                old(self).config().release_header@,
                                release@.version,
                                date,
                            )]
                            update@ == written_document(
                                old(self)@,
                                old(self).config(),
                                channel@,
                                release@,
                                view_of(existing),
                                date,
                            ),
                        Err(error) => error@ == bad_date_format(),
                    },
                },
            },
    {
        proof {
            use_type_invariant(&*self);
        }
        match release.read_entries(&self.entries) {
            Ok(_) => {},
            Err(error) => {
                return Err(error);
            },
        }
        match self.find_place(channel.as_str(), &release) {
            Ok(_) => {},
            Err(error) => {
                return Err(error);
            },
        }
        match local_date(self.ctx.config.date_format.as_str()) {
            Some(date) => {
                let ghost before = self@;
                let ghost config = self.config();
                let outcome = self.create_release_at(channel, release, existing, date.as_str());
                proof {
                    let plan = staged(before, config, channel@, release@, view_of(existing), date@);
                    assert(plan is Ok);
                    assert(outcome is Ok);
                    assert(outcome->Ok_0@ == written_document(
                        before,
                        config,
                        channel@,
                        release@,
                        view_of(existing),
                        date@,
                    ));
                }
                outcome
            },
            None => Err(StoreError::Config("date_format cannot be written".to_owned())),
        }
    }

    /// Records that storage now holds the releases of `channel`. Gives
    /// `false`, and changes nothing, if the channel is not configured.
    pub fn mark_flushed(&mut self, channel: &str) -> (known: bool)
        ensures
            final(self).wf(),
            final(self).config() == old(self).config(),
            final(self)@.entries == old(self)@.entries,
            match ledger_channels(old(self)@.ledgers).index_of_first(channel@) {
                Some(i) => known && final(self)@.ledgers == old(self)@.ledgers.update(
                    i,
                    LedgerView { dirty: false, ..old(self)@.ledgers[i] },
                ),
                None => !known && final(self)@ == old(self)@,
            },
    {
        proof {
            use_type_invariant(&*self);
        }
        let ghost before = self@.ledgers;
        let at = match self.find_channel(channel) {
            Some(at) => at,
            None => {
                return false;
            },
        };
        let mut held = Store::blank(self.ctx);
        core::mem::swap(self, &mut held);
        let Store { ctx, entries, versions } = held;
        let mut versions = versions;
        let mut ledger = versions.remove(at);
        ledger.mark_flushed();
        versions.insert(at, ledger);
        proof {
            let after = ledger_views(versions@);
            assert(after == before.update(
                at as int,
                LedgerView { dirty: false, ..before[at as int] },
            ));
            assert(ledger_channels(after) == ledger_channels(before));
            assert forall|j: int| 0 <= j < after.len() implies release_versions(
                (#[trigger] after[j]).releases,
            ).no_duplicates() by {
                if j != at {
                    assert(after[j] == before[j]);
                }
            }
        }
        *self = Store { ctx, entries, versions };
        true
    }

    /// The steps to take for the two subdirectories of the data directory,
    /// given what was found at their paths: first the one for the entries,
    /// then the one for the ledgers. Fails with the failure of the first
    /// subdirectory that cannot be used.
    pub fn ensure_internal_subdirs_exist(entries_dir: PathState, channels_dir: PathState) -> (steps:
        Result<(DirAction, DirAction), StoreError>)
        ensures
            match dir_decision(DirRole::Entries, entries_dir, false) {
                Err(error) => fails_with(steps, error),
                Ok(first) => match dir_decision(DirRole::Channels, channels_dir, false) {
                    Err(error) => fails_with(steps, error),
                    Ok(second) => steps == Ok::<(DirAction, DirAction), StoreError>((first, second)),
                },
            },
    {
        let first = match dir_step(DirRole::Entries, entries_dir, false) {
            Ok(first) => first,
            Err(error) => {
                return Err(error);
            },
        };
        match dir_step(DirRole::Channels, channels_dir, false) {
            Ok(second) => Ok((first, second)),
            Err(error) => Err(error),
        }
    }
}

/// The changelog file of a release and what it is to hold, given that the
/// release can be made.
pub open spec fn written_document(
    store: StoreView,
    config: Config,
    channel: Seq<char>,
    release: ReleaseView,
    existing: Option<Seq<char>>,
    date: Seq<char>,
) -> DocumentUpdateView {
    DocumentUpdateView {
        path: changelog_file(config, channel),
        document: prepended(
            existing,
            config.changelog_header@,
            release_heading(config.release_header@, release.version, date) + release_body(
                contents_of(store.entries, release.entries),
                strs(config.sections@),
            ),
        ),
    }
}

/// The failure for a date format that cannot be written.
pub open spec fn bad_date_format() -> StoreErrorView {
    StoreErrorView::Config("date_format cannot be written"@)
}

/// Once the ledgers of the first channels cannot be opened, those of all
/// channels cannot, and the failure is the same.
pub proof fn lemma_opened_prefix_fails(
    channels: Seq<Seq<char>>,
    stored: Seq<StoredChannelView>,
    upto: int,
)
    requires
        0 <= upto <= channels.len(),
        opened_ledgers(channels.take(upto), stored) is Err,
    ensures
        opened_ledgers(channels, stored) == opened_ledgers(channels.take(upto), stored),
    decreases channels.len(),
{
    if upto < channels.len() {
        assert(channels.drop_last().take(upto) == channels.take(upto));
        lemma_opened_prefix_fails(channels.drop_last(), stored, upto);
    } else {
        assert(channels.take(upto) == channels);
    }
}

/// What storage holds for `channel`.
fn find_stored(stored: &Vec<StoredChannel>, channel: &str) -> (found: StoredLedger)
    ensures
        found@ == stored_for(stored_views(stored@), channel@),
{
    let ghost names = stored_channels(stored_views(stored@));
    let mut i: usize = 0;
    while i < stored.len()
        invariant
            i <= stored.len(),
            names == stored_channels(stored_views(stored@)),
            forall|j: int| 0 <= j < i ==> names[j] != channel@,
        decreases stored.len() - i,
    {
        if str_eq(stored[i].channel.as_str(), channel) {
            proof {
                lemma_index_of_first_is(names, channel@, i as int);
            }
            return stored[i].ledger.clone();
        }
        i += 1;
    }
    proof {
        lemma_index_of_first_none(names, channel@);
    }
    StoredLedger::Absent
}


/// What asking for the unreleased entries of a channel gives: the names of
/// the pending entries that no release of the channel's ledger holds, in
/// the order of the repository; a failure if the channel has no ledger.
pub open spec fn unreleased_changes(store: StoreView, channel: Seq<char>) -> Result<
    Seq<Seq<char>>,
    StoreErrorView,
> {
    match ledger_of(store.ledgers, channel) {
        Some(ledger) => Ok(unreleased(entry_names(store.entries), ledger.releases)),
        None => Err(StoreErrorView::UnknownChannel(channel)),
    }
}

/// The unreleased entries of a channel depend on the pending entries and on
/// the ledger of that channel, and on no other ledger.
pub proof fn lemma_unreleased_ignores_other_channels(
    first: StoreView,
    second: StoreView,
    channel: Seq<char>,
)
    requires
        first.entries == second.entries,
        ledger_of(first.ledgers, channel) is Some,
        ledger_of(second.ledgers, channel) is Some,
        ledger_of(first.ledgers, channel)->0.releases == ledger_of(
            second.ledgers,
            channel,
        )->0.releases,
    ensures
        unreleased_changes(first, channel) == unreleased_changes(second, channel),
{
}

/// A release made on one channel leaves the ledger of every other channel
/// as it was, and with it that channel's unreleased entries.
pub proof fn lemma_release_leaves_other_channels(
    store: StoreView,
    channel: Seq<char>,
    release: ReleaseView,
    other: Seq<char>,
)
    requires
        other != channel,
        committed(store.ledgers, channel, release) is Ok,
    ensures
        ledger_of(committed(store.ledgers, channel, release)->Ok_0, other) == ledger_of(
            store.ledgers,
            other,
        ),
        unreleased_changes(
            StoreView {
                entries: store.entries,
                ledgers: committed(store.ledgers, channel, release)->Ok_0,
            },
            other,
        ) == unreleased_changes(store, other),
{
    let before = store.ledgers;
    let after = committed(before, channel, release)->Ok_0;
    let names = ledger_channels(before);
    names.index_of_first_ensures(channel);
    let at = names.index_of_first(channel)->0;
    assert(ledger_channels(after) == names) by {
        assert forall|j: int| 0 <= j < names.len() implies ledger_channels(after)[j] == names[j] by {
            if j != at {
                assert(after[j] == before[j]);
            }
        }
    }
    names.index_of_first_ensures(other);
    match names.index_of_first(other) {
        Some(k) => {
            assert(names[k] == other);
            assert(k != at);
            assert(after[k] == before[k]);
        },
        None => {},
    }
}

/// A release whose version some ledger holds is not appended: on a channel
/// that has a ledger, appending fails as a duplicate version and names a
/// channel whose ledger holds the version.
pub proof fn lemma_reused_version_is_rejected(
    ledgers: Seq<LedgerView>,
    channel: Seq<char>,
    release: ReleaseView,
)
    requires
        released_anywhere(ledgers, release.version),
        ledger_channels(ledgers).contains(channel),
    ensures
        committed(ledgers, channel, release) == Err::<Seq<LedgerView>, StoreErrorView>(
            StoreErrorView::DuplicateVersion(
                release.version,
                holder_of(ledgers, release.version)->0,
            ),
        ),
        exists|i: int|
            0 <= i < ledgers.len() && holds_version(#[trigger] ledgers[i], release.version)
                && ledgers[i].channel == holder_of(ledgers, release.version)->0,
{
    lemma_holder_of(ledgers, release.version);
    ledger_channels(ledgers).index_of_first_ensures(channel);
    lemma_holder_holds(ledgers, release.version);
}

/// The holder of a version is the channel of a ledger that holds the
/// version.
pub proof fn lemma_holder_holds(ledgers: Seq<LedgerView>, version: Seq<char>)
    requires
        holder_of(ledgers, version) is Some,
    ensures
        ledger_channels(ledgers).contains(holder_of(ledgers, version)->0),
        exists|i: int|
            0 <= i < ledgers.len() && holds_version(#[trigger] ledgers[i], version) && ledgers[i].channel
                == holder_of(ledgers, version)->0,
    decreases ledgers.len(),
{
    if holds_version(ledgers[0], version) {
        assert(ledger_channels(ledgers)[0] == ledgers[0].channel);
    } else {
        let rest = ledgers.skip(1);
        lemma_holder_holds(rest, version);
        let holder = holder_of(rest, version)->0;
        let i = choose|i: int|
            0 <= i < rest.len() && holds_version(#[trigger] rest[i], version) && rest[i].channel
                == holder;
        assert(ledgers[i + 1] == rest[i]);
        assert(ledger_channels(ledgers)[i + 1] == holder);
    }
}


/// No version is held twice: not within a ledger, and not by two ledgers.
pub open spec fn versions_unique(ledgers: Seq<LedgerView>) -> bool {
    &&& forall|i: int|
        0 <= i < ledgers.len() ==> release_versions(
            (#[trigger] ledgers[i]).releases,
        ).no_duplicates()
    &&& forall|i: int, j: int, version: Seq<char>|
        0 <= i < ledgers.len() && 0 <= j < ledgers.len() && i != j && #[trigger] holds_version(
            ledgers[i],
            version,
        ) ==> !#[trigger] holds_version(ledgers[j], version)
}

/// Appending a release keeps the versions unique over all channels.
pub proof fn lemma_commit_keeps_versions_unique(
    ledgers: Seq<LedgerView>,
    channel: Seq<char>,
    release: ReleaseView,
)
    requires
        versions_unique(ledgers),
        committed(ledgers, channel, release) is Ok,
    ensures
        versions_unique(committed(ledgers, channel, release)->Ok_0),
        released_anywhere(committed(ledgers, channel, release)->Ok_0, release.version),
{
    let after = committed(ledgers, channel, release)->Ok_0;
    let names = ledger_channels(ledgers);
    names.index_of_first_ensures(channel);
    let at = names.index_of_first(channel)->0;
    lemma_holder_of(ledgers, release.version);
    let grown = ledgers[at].releases.push(release);
    assert(after[at].releases == grown);
    assert(release_versions(grown) == release_versions(ledgers[at].releases).push(release.version));
    assert forall|version: Seq<char>| holds_version(after[at], version) implies holds_version(
        ledgers[at],
        version,
    ) || version == release.version by {
        let k = choose|k: int|
            0 <= k < release_versions(grown).len() && release_versions(grown)[k] == version;
        if k < ledgers[at].releases.len() {
            assert(release_versions(ledgers[at].releases)[k] == version);
        }
    }
    assert forall|i: int| 0 <= i < after.len() implies release_versions(
        (#[trigger] after[i]).releases,
    ).no_duplicates() by {
        if i == at {
            let old_versions = release_versions(ledgers[at].releases);
            let versions = release_versions(grown);
            assert(!holds_version(ledgers[at], release.version));
            assert forall|a: int, b: int|
                0 <= a < versions.len() && 0 <= b < versions.len() && a != b implies versions[a]
                != versions[b] by {
                if a < old_versions.len() {
                    assert(versions[a] == old_versions[a]);
                }
                if b < old_versions.len() {
                    assert(versions[b] == old_versions[b]);
                }
            }
        } else {
            assert(after[i] == ledgers[i]);
        }
    }
    assert forall|i: int, j: int, version: Seq<char>|
        0 <= i < after.len() && 0 <= j < after.len() && i != j && #[trigger] holds_version(
            after[i],
            version,
        ) implies !#[trigger] holds_version(after[j], version) by {
        if i != at {
            assert(after[i] == ledgers[i]);
        }
        if j != at {
            assert(after[j] == ledgers[j]);
        }
        if i == at {
            if version == release.version {
                assert(!holds_version(ledgers[j], version));
            } else {
                assert(holds_version(ledgers[at], version));
            }
        } else if j == at {
            if holds_version(after[at], version) {
                if version == release.version {
                    assert(holds_version(ledgers[i], version));
                } else {
                    assert(holds_version(ledgers[at], version));
                }
            }
        }
    }
    assert(release_versions(grown)[grown.len() - 1] == release.version);
    assert(holds_version(after[at], release.version));
}

/// A release that names an entry without a readable file is not staged:
/// staging fails with the first such name, whatever the channel, the
/// version and the date, so no document is made and no ledger changes.
pub proof fn lemma_missing_entry_blocks_release(
    store: StoreView,
    config: Config,
    channel: Seq<char>,
    release: ReleaseView,
    existing: Option<Seq<char>>,
    date: Seq<char>,
)
    requires
        first_missing(store.entries, release.entries) is Some,
    ensures
        staged(store, config, channel, release, existing, date) == Err::<
            StagedReleaseView,
            StoreErrorView,
        >(
            StoreErrorView::MissingEntryFile(first_missing(store.entries, release.entries)->0),
        ),
{
}

} // verus!

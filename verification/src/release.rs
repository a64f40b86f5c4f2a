//! Releases, and how a release is rendered into a fragment of the
//! changelog.

use crate::config::{Config, EntryName, VersionName};
use crate::entries::{content_of, EntryRepository, EntryView};
use crate::error::{StoreError, StoreErrorView};
use crate::sections::{
    gather_sections, group_sections, lemma_no_section_nothing_written, order_sections,
    ordered_sections, section_blocks, section_views, write_blocks, SectionView,
};
use crate::text::{clone_strings, push_chars, replace, replace_chars, string_of, strs, to_chars};
use vstd::prelude::*;

verus! {

/// A version and the entries that went into it.
#[derive(Debug)]
pub struct Release {
    /// The name of the version.
    pub version: VersionName,
    /// The names of the entries of this version, in order.
    pub entries: Vec<EntryName>,
}

/// A `Release` as character sequences.
pub struct ReleaseView {
    pub version: Seq<char>,
    pub entries: Seq<Seq<char>>,
}

impl View for Release {
    type V = ReleaseView;

    open spec fn view(&self) -> ReleaseView {
        ReleaseView { version: self.version@, entries: strs(self.entries@) }
    }
}

impl Clone for Release {
    fn clone(&self) -> (copy: Self)
        ensures
            copy@ == self@,
    {
        Release { version: self.version.clone(), entries: clone_strings(&self.entries) }
    }
}

/// The views of a sequence of releases.
pub open spec fn release_views(releases: Seq<Release>) -> Seq<ReleaseView> {
    Seq::new(releases.len(), |i: int| releases[i]@)
}

/// The header of a release: the template with `{VERSION}` replaced by the
/// version, and then `{DATE}` by the date.
pub open spec fn release_title(template: Seq<char>, version: Seq<char>, date: Seq<char>) -> Seq<
    char,
> {
    replace(replace(template, "{VERSION}"@, version), "{DATE}"@, date)
}

/// The first of `names` that the repository has no readable entry for.
pub open spec fn first_missing(entries: Seq<EntryView>, names: Seq<Seq<char>>) -> Option<Seq<char>>
    decreases names.len(),
{
    if names.len() == 0 {
        None
    } else if content_of(entries, names[0]) is None {
        Some(names[0])
    } else {
        first_missing(entries, names.skip(1))
    }
}

/// The texts of the entries called `names`, in the order of `names`.
pub open spec fn contents_of(entries: Seq<EntryView>, names: Seq<Seq<char>>) -> Seq<Seq<char>> {
    Seq::new(
        names.len(),
        |i: int|
            match content_of(entries, names[i]) {
                Some(text) => text,
                None => Seq::empty(),
            },
    )
}

/// What follows the header line of a rendered release: nothing if the
/// texts of its entries fall into no section, and else an empty line and
/// the blocks of the sections, written in order.
pub open spec fn release_body(contents: Seq<Seq<char>>, canonical: Seq<Seq<char>>) -> Seq<char> {
    let ordered = ordered_sections(group_sections(contents), canonical);
    if ordered.len() == 0 {
        Seq::empty()
    } else {
        "\n"@ + section_blocks(ordered)
    }
}

/// The header line of a rendered release.
pub open spec fn release_heading(template: Seq<char>, version: Seq<char>, date: Seq<char>) -> Seq<
    char,
> {
    "## "@ + release_title(template, version, date) + "\n"@
}

/// What rendering a release gives: the failure that names the first entry
/// without a readable file, or else the header line and the body.
pub open spec fn rendering(
    release: ReleaseView,
    entries: Seq<EntryView>,
    canonical: Seq<Seq<char>>,
    template: Seq<char>,
    date: Seq<char>,
) -> Result<Seq<char>, StoreErrorView> {
    match first_missing(entries, release.entries) {
        Some(name) => Err(StoreErrorView::MissingEntryFile(name)),
        None => Ok(
            release_heading(template, release.version, date) + release_body(
                contents_of(entries, release.entries),
                canonical,
            ),
        ),
    }
}

/// Whether `result` is what `expected` describes.
pub open spec fn text_result_is(
    result: Result<String, StoreError>,
    expected: Result<Seq<char>, StoreErrorView>,
) -> bool {
    match expected {
        Ok(text) => result is Ok && result->Ok_0@ == text,
        Err(error) => result is Err && result->Err_0@ == error,
    }
}

/// The header line of a release.
pub fn heading_chars(template: &str, version: &str, date: &str) -> (heading: Vec<char>)
    ensures
        heading@ == release_heading(template@, version@, date@),
{
    let with_version = replace_chars(
        &to_chars(template),
        &to_chars("{VERSION}"),
        &to_chars(version),
    );
    let title = replace_chars(&with_version, &to_chars("{DATE}"), &to_chars(date));
    let mut heading = to_chars("## ");
    push_chars(&mut heading, &title);
    push_chars(&mut heading, &to_chars("\n"));
    heading
}

impl Release {
    /// The texts of the release's entries, or the name of the first entry
    /// that has no readable file.
    pub fn read_entries(&self, entries: &EntryRepository) -> (read: Result<Vec<String>, StoreError>)
        ensures
            match first_missing(entries@, self@.entries) {
                Some(name) => read is Err && read->Err_0@ == StoreErrorView::MissingEntryFile(name),
                None => read is Ok && strs(read->Ok_0@) == contents_of(entries@, self@.entries),
            },
    {
        let ghost names = self@.entries;
        let mut contents: Vec<String> = Vec::new();
        let mut i: usize = 0;
        assert(names.skip(0) == names);
        while i < self.entries.len()
            invariant
                i <= self.entries.len(),
                names == strs(self.entries@),
                first_missing(entries@, names) == first_missing(entries@, names.skip(i as int)),
                strs(contents@) == contents_of(entries@, names).take(i as int),
            decreases self.entries.len() - i,
        {
            let name = &self.entries[i];
            proof {
                assert(names.skip(i as int)[0] == name@);
                assert(names.skip(i as int).skip(1) == names.skip(i + 1));
            }
            match entries.content(name.as_str()) {
                Some(text) => {
                    let ghost before = strs(contents@);
                    contents.push(text);
                    assert(strs(contents@) == before.push(text@));
                },
                None => {
                    return Err(StoreError::MissingEntryFile(name.clone()));
                },
            }
            i += 1;
        }
        assert(contents_of(entries@, names).take(names.len() as int) == contents_of(
            entries@,
            names,
        ));
        Ok(contents)
    }

    /// The fragment of the changelog for this release, given the texts of
    /// its entries: a header line made from the configured template and,
    /// if the texts fall into any section, an empty line and the sections,
    /// each followed by an empty line.
    pub fn render_contents(&self, contents: &Vec<String>, config: &Config, date: &str) -> (rendered:
        String)
        ensures
            rendered@ == release_heading(config.release_header@, self@.version, date@)
                + release_body(strs(contents@), strs(config.sections@)),
    {
        let sections = gather_sections(contents);
        let ordered = order_sections(&sections, &config.sections);
        let mut out = heading_chars(config.release_header.as_str(), self.version.as_str(), date);
        if ordered.len() > 0 {
            let ghost heading = out@;
            push_chars(&mut out, &to_chars("\n"));
            write_blocks(&mut out, &ordered);
            assert(out@ == heading + ("\n"@ + section_blocks(section_views(ordered@))));
        } else {
            assert(out@ + Seq::<char>::empty() == out@);
        }
        string_of(&out)
    }

    /// Renders the release into a fragment of the changelog, with `date` in
    /// place of the date. Fails if an entry of the release has no readable
    /// file.
    pub fn render(&self, entries: &EntryRepository, config: &Config, date: &str) -> (rendered:
        Result<String, StoreError>)
        ensures
            text_result_is(
                rendered,
                rendering(
                    self@,
                    entries@,
                    strs(config.sections@),
                    config.release_header@,
                    date@,
                ),
            ),
    {
        match self.read_entries(entries) {
            Ok(contents) => Ok(self.render_contents(&contents, config, date)),
            Err(error) => Err(error),
        }
    }
}


/// Rendering a release twice from the same entries and the same
/// configuration differs in the header line only: both renderings fail with
/// the same failure, or both succeed, each begins with its own header line,
/// and what follows is the same in both. With the same date the two are
/// equal.
pub proof fn lemma_rendering_differs_in_header_only(
    release: ReleaseView,
    entries: Seq<EntryView>,
    canonical: Seq<Seq<char>>,
    template: Seq<char>,
    first_date: Seq<char>,
    second_date: Seq<char>,
)
    ensures
        ({
            let first = rendering(release, entries, canonical, template, first_date);
            let second = rendering(release, entries, canonical, template, second_date);
            let first_heading = release_heading(template, release.version, first_date);
            let second_heading = release_heading(template, release.version, second_date);
            match first {
                Ok(text) => {
                    &&& second is Ok
                    &&& first_heading.is_prefix_of(text)
                    &&& second_heading.is_prefix_of(second->Ok_0)
                    &&& text.skip(first_heading.len() as int) == second->Ok_0.skip(
                        second_heading.len() as int,
                    )
                    &&& first_date == second_date ==> text == second->Ok_0
                },
                Err(error) => second == Err::<Seq<char>, StoreErrorView>(error),
            }
        }),
{
    let body = release_body(contents_of(entries, release.entries), canonical);
    let first_heading = release_heading(template, release.version, first_date);
    let second_heading = release_heading(template, release.version, second_date);
    assert((first_heading + body).skip(first_heading.len() as int) == body);
    assert((second_heading + body).skip(second_heading.len() as int) == body);
    assert((first_heading + body).subrange(0, first_heading.len() as int) == first_heading);
    assert((second_heading + body).subrange(0, second_heading.len() as int) == second_heading);
}

/// Two results of rendering the same release from the same entries, with
/// the same configuration and date, hold the same text or the same failure.
pub proof fn lemma_render_is_repeatable(
    first: Result<String, StoreError>,
    second: Result<String, StoreError>,
    expected: Result<Seq<char>, StoreErrorView>,
)
    requires
        text_result_is(first, expected),
        text_result_is(second, expected),
    ensures
        first is Ok <==> second is Ok,
        first is Ok ==> first->Ok_0@ == second->Ok_0@,
        first is Err ==> first->Err_0@ == second->Err_0@,
{
}

/// A release that names an entry without a readable file is not rendered:
/// rendering fails with the first such name, whatever the date.
pub proof fn lemma_missing_entry_fails_rendering(
    release: ReleaseView,
    entries: Seq<EntryView>,
    canonical: Seq<Seq<char>>,
    template: Seq<char>,
    date: Seq<char>,
    at: int,
)
    requires
        0 <= at < release.entries.len(),
        content_of(entries, release.entries[at]) is None,
    ensures
        rendering(release, entries, canonical, template, date) is Err,
        rendering(release, entries, canonical, template, date)->Err_0 is MissingEntryFile,
{
    lemma_first_missing(entries, release.entries, at);
}

/// If a name without a readable entry is among `names`, a first such name
/// is found, and it is such a name.
pub proof fn lemma_first_missing(entries: Seq<EntryView>, names: Seq<Seq<char>>, at: int)
    requires
        0 <= at < names.len(),
        content_of(entries, names[at]) is None,
    ensures
        first_missing(entries, names) is Some,
        content_of(entries, first_missing(entries, names)->0) is None,
        names.contains(first_missing(entries, names)->0),
    decreases names.len(),
{
    if content_of(entries, names[0]) is None {
    } else {
        let rest = names.skip(1);
        assert(rest[at - 1] == names[at]);
        lemma_first_missing(entries, rest, at - 1);
        let found = first_missing(entries, rest)->0;
        let i = choose|i: int| 0 <= i < rest.len() && rest[i] == found;
        assert(names[i + 1] == found);
    }
}


/// A release whose entries fall into no section is rendered as its header
/// line alone.
pub proof fn lemma_release_without_sections(
    release: ReleaseView,
    entries: Seq<EntryView>,
    canonical: Seq<Seq<char>>,
    template: Seq<char>,
    date: Seq<char>,
)
    requires
        first_missing(entries, release.entries) is None,
        group_sections(contents_of(entries, release.entries)).len() == 0,
    ensures
        rendering(release, entries, canonical, template, date) == Ok::<Seq<char>, StoreErrorView>(
            release_heading(template, release.version, date),
        ),
{
    let grouped = group_sections(contents_of(entries, release.entries));
    assert(grouped == Seq::<SectionView>::empty());
    lemma_no_section_nothing_written(canonical);
    let heading = release_heading(template, release.version, date);
    assert(heading + Seq::<char>::empty() == heading);
}


/// A release without entries is rendered as its header line alone.
pub proof fn lemma_release_without_entries(
    release: ReleaseView,
    entries: Seq<EntryView>,
    canonical: Seq<Seq<char>>,
    template: Seq<char>,
    date: Seq<char>,
)
    requires
        release.entries.len() == 0,
    ensures
        rendering(release, entries, canonical, template, date) == Ok::<Seq<char>, StoreErrorView>(
            release_heading(template, release.version, date),
        ),
{
    assert(contents_of(entries, release.entries) == Seq::<Seq<char>>::empty());
    lemma_release_without_sections(release, entries, canonical, template, date);
}

} // verus!

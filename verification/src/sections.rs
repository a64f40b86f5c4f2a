//! Sections: the named groups of lines that the text of entries falls into
//! when a release is rendered.

use crate::text::{
    find_string, lemma_index_of_first_is, lemma_index_of_first_none, lines, push_chars, rows,
    split_lines, str_eq, string_of, strs, to_chars, trim, trim_chars, trim_end, trim_end_chars,
    CharClass,
};
use vstd::prelude::*;

verus! {

/// A named group of lines. The section without a name holds what stood
/// before any heading.
#[derive(Debug)]
pub struct Section {
    /// The section's name; empty for the unlabelled section.
    pub name: String,
    /// The section's lines, separated by line feeds.
    pub body: String,
}

/// A `Section` as character sequences.
pub struct SectionView {
    pub name: Seq<char>,
    pub body: Seq<char>,
}

impl View for Section {
    type V = SectionView;

    open spec fn view(&self) -> SectionView {
        SectionView { name: self.name@, body: self.body@ }
    }
}

/// The views of a sequence of sections.
pub open spec fn section_views(sections: Seq<Section>) -> Seq<SectionView> {
    Seq::new(sections.len(), |i: int| sections[i]@)
}

/// The names of a sequence of sections, in order.
pub open spec fn section_names(sections: Seq<SectionView>) -> Seq<Seq<char>> {
    Seq::new(sections.len(), |i: int| sections[i].name)
}

/// What a line of an entry is.
pub enum LineKind {
    /// Nothing but whitespace: the line is skipped.
    Blank,
    /// A heading: the lines after it belong to the section of this name.
    Heading(Seq<char>),
    /// A line of the current section.
    Body,
}

/// A line is blank if trimming whitespace leaves nothing, a heading if what
/// trimming leaves begins with `#`, and a body line otherwise. The name in a
/// heading is the line without the `#` and spaces at its ends.
pub open spec fn classify(line: Seq<char>) -> LineKind {
    let trimmed = trim(line, CharClass::Whitespace);
    if trimmed.len() == 0 {
        LineKind::Blank
    } else if trimmed[0] == '#' {
        LineKind::Heading(trim(line, CharClass::HeadingMark))
    } else {
        LineKind::Body
    }
}

/// `sections` after `line` was added to the section called `name`: a
/// section that is there gets a line feed and the line appended, a section
/// that is not comes last and holds the line.
pub open spec fn add_line(sections: Seq<SectionView>, name: Seq<char>, line: Seq<char>) -> Seq<
    SectionView,
> {
    match section_names(sections).index_of_first(name) {
        Some(i) => sections.update(
            i,
            SectionView { name, body: sections[i].body + seq!['\n'] + line },
        ),
        None => sections.push(SectionView { name, body: line }),
    }
}

/// Where the reading of an entry stands: the section that body lines go to,
/// and the sections gathered so far.
pub struct Scan {
    pub current: Seq<char>,
    pub sections: Seq<SectionView>,
}

/// The reading after one more line.
pub open spec fn scan_line(scan: Scan, line: Seq<char>) -> Scan {
    match classify(line) {
        LineKind::Blank => scan,
        LineKind::Heading(name) => Scan { current: name, sections: scan.sections },
        LineKind::Body => Scan {
            current: scan.current,
            sections: add_line(scan.sections, scan.current, line),
        },
    }
}

/// The reading after a sequence of lines.
pub open spec fn scan_lines(scan: Scan, text: Seq<Seq<char>>) -> Scan
    decreases text.len(),
{
    if text.len() == 0 {
        scan
    } else {
        scan_line(scan_lines(scan, text.drop_last()), text.last())
    }
}

/// `sections` after the text of one entry was read into them. Each entry
/// begins in the unlabelled section.
pub open spec fn scan_entry(sections: Seq<SectionView>, content: Seq<char>) -> Seq<SectionView> {
    scan_lines(Scan { current: Seq::empty(), sections }, lines(content)).sections
}

/// The sections that the texts of a sequence of entries fall into, each
/// section where its first line was met.
pub open spec fn group_sections(contents: Seq<Seq<char>>) -> Seq<SectionView>
    decreases contents.len(),
{
    if contents.len() == 0 {
        Seq::empty()
    } else {
        scan_entry(group_sections(contents.drop_last()), contents.last())
    }
}

/// The position of the first section called `name`, if there is one.
fn find_section(sections: &Vec<Section>, name: &str) -> (at: Option<usize>)
    ensures
        match at {
            Some(i) => i < sections.len() && section_names(
                section_views(sections@),
            ).index_of_first(name@) == Some(i as int),
            None => section_names(section_views(sections@)).index_of_first(name@) is None,
        },
{
    let ghost names = section_names(section_views(sections@));
    let mut i: usize = 0;
    while i < sections.len()
        invariant
            i <= sections.len(),
            names == section_names(section_views(sections@)),
            forall|j: int| 0 <= j < i ==> names[j] != name@,
        decreases sections.len() - i,
    {
        if str_eq(sections[i].name.as_str(), name) {
            proof {
                lemma_index_of_first_is(names, name@, i as int);
            }
            return Some(i);
        }
        i += 1;
    }
    proof {
        lemma_index_of_first_none(names, name@);
    }
    None
}

/// Appends the characters of `tail` to `text`.
fn push_to_string(text: &mut String, tail: &Vec<char>)
    ensures
        final(text)@ == old(text)@ + tail@,
{
    let mut i: usize = 0;
    while i < tail.len()
        invariant
            i <= tail.len(),
            text@ == old(text)@ + tail@.take(i as int),
        decreases tail.len() - i,
    {
        text.push(tail[i]);
        i += 1;
    }
    assert(tail@.take(tail.len() as int) == tail@);
}

/// Adds `line` to the section called `name`.
fn add_line_to(sections: &mut Vec<Section>, name: &String, line: &Vec<char>)
    ensures
        section_views(final(sections)@) == add_line(section_views(old(sections)@), name@, line@),
{
    let ghost before = section_views(sections@);
    match find_section(sections, name.as_str()) {
        Some(i) => {
            let mut body = sections[i].body.clone();
            body.push('\n');
            push_to_string(&mut body, line);
            assert(body@ == before[i as int].body + seq!['\n'] + line@) by {
                assert(before[i as int].body.push('\n') == before[i as int].body + seq!['\n']);
            }
            sections.set(i, Section { name: name.clone(), body });
            assert(section_views(sections@) == before.update(
                i as int,
                SectionView { name: name@, body: before[i as int].body + seq!['\n'] + line@ },
            ));
        },
        None => {
            sections.push(Section { name: name.clone(), body: string_of(line) });
            assert(section_views(sections@) == before.push(
                SectionView { name: name@, body: line@ },
            ));
        },
    }
}

/// Reads the text of one entry into `sections`.
pub fn read_entry(sections: &mut Vec<Section>, content: &str)
    ensures
        section_views(final(sections)@) == scan_entry(section_views(old(sections)@), content@),
{
    let chars = to_chars(content);
    let text = split_lines(&chars);
    let mut current = String::new();
    let ghost start = Scan { current: Seq::empty(), sections: section_views(sections@) };
    let mut i: usize = 0;
    assert(rows(text@).take(0) == Seq::<Seq<char>>::empty());
    while i < text.len()
        invariant
            i <= text.len(),
            rows(text@) == lines(content@),
            scan_lines(start, rows(text@).take(i as int)) == (Scan {
                current: current@,
                sections: section_views(sections@),
            }),
        decreases text.len() - i,
    {
        let line = &text[i];
        proof {
            let upto = rows(text@).take(i + 1);
            assert(upto.drop_last() == rows(text@).take(i as int));
            assert(upto.last() == line@);
        }
        let trimmed = trim_chars(line, CharClass::Whitespace);
        if trimmed.len() == 0 {
        } else if trimmed[0] == '#' {
            current = string_of(&trim_chars(line, CharClass::HeadingMark));
        } else {
            add_line_to(sections, &current, line);
        }
        i += 1;
    }
    assert(rows(text@).take(text.len() as int) == rows(text@));
}

/// The sections that the texts of `contents` fall into.
pub fn gather_sections(contents: &Vec<String>) -> (sections: Vec<Section>)
    ensures
        section_views(sections@) == group_sections(strs(contents@)),
{
    let mut sections: Vec<Section> = Vec::new();
    let mut i: usize = 0;
    assert(strs(contents@).take(0) == Seq::<Seq<char>>::empty());
    assert(section_views(sections@) == Seq::<SectionView>::empty());
    while i < contents.len()
        invariant
            i <= contents.len(),
            section_views(sections@) == group_sections(strs(contents@).take(i as int)),
        decreases contents.len() - i,
    {
        proof {
            let upto = strs(contents@).take(i + 1);
            assert(upto.drop_last() == strs(contents@).take(i as int));
            assert(upto.last() == contents@[i as int]@);
        }
        read_entry(&mut sections, contents[i].as_str());
        i += 1;
    }
    assert(strs(contents@).take(contents.len() as int) == strs(contents@));
    sections
}


/// Holds of the section without a name.
pub open spec fn is_unlabelled() -> spec_fn(SectionView) -> bool {
    |section: SectionView| section.name.len() == 0
}

/// Holds of a named section whose name is not among `canonical`.
pub open spec fn is_leftover(canonical: Seq<Seq<char>>) -> spec_fn(SectionView) -> bool {
    |section: SectionView| section.name.len() > 0 && !canonical.contains(section.name)
}

/// The first section called `name`, if there is one.
pub open spec fn section_named(sections: Seq<SectionView>, name: Seq<char>) -> Option<SectionView> {
    match section_names(sections).index_of_first(name) {
        Some(i) => Some(sections[i]),
        None => None,
    }
}

/// The sections whose names `canonical` lists, in the order of that list.
/// A name is looked at where the list has it first; the empty name is
/// passed over.
pub open spec fn canonical_sections(sections: Seq<SectionView>, canonical: Seq<Seq<char>>) -> Seq<
    SectionView,
>
    decreases canonical.len(),
{
    if canonical.len() == 0 {
        Seq::empty()
    } else {
        let before = canonical.drop_last();
        let name = canonical.last();
        let earlier = canonical_sections(sections, before);
        match section_named(sections, name) {
            Some(section) => if name.len() > 0 && !before.contains(name) {
                earlier.push(section)
            } else {
                earlier
            },
            None => earlier,
        }
    }
}

/// The order in which sections are written: the unlabelled section first,
/// then the sections that `canonical` lists, in its order, then the others
/// as they were met.
pub open spec fn ordered_sections(sections: Seq<SectionView>, canonical: Seq<Seq<char>>) -> Seq<
    SectionView,
> {
    sections.filter(is_unlabelled()) + canonical_sections(sections, canonical) + sections.filter(
        is_leftover(canonical),
    )
}

/// What is written for one section: for a named section a sub-heading and
/// an empty line, then the body without the whitespace at its end, then an
/// empty line.
pub open spec fn section_block(section: SectionView) -> Seq<char> {
    let heading = if section.name.len() > 0 {
        "### "@ + section.name + "\n\n"@
    } else {
        Seq::empty()
    };
    heading + trim_end(section.body, CharClass::Whitespace) + "\n\n"@
}

/// The blocks of a sequence of sections, one after the other.
pub open spec fn section_blocks(sections: Seq<SectionView>) -> Seq<char>
    decreases sections.len(),
{
    if sections.len() == 0 {
        Seq::empty()
    } else {
        section_blocks(sections.drop_last()) + section_block(sections.last())
    }
}

/// A copy of a section.
fn clone_section(section: &Section) -> (copy: Section)
    ensures
        copy@ == section@,
{
    Section { name: section.name.clone(), body: section.body.clone() }
}

/// Appends to `out` the sections of `sections` that are unlabelled, or, if
/// `leftover` is set, named and not among `canonical`.
fn push_filtered(
    out: &mut Vec<Section>,
    sections: &Vec<Section>,
    canonical: &Vec<String>,
    leftover: bool,
)
    ensures
        section_views(final(out)@) == section_views(old(out)@) + section_views(sections@).filter(
            if leftover {
                is_leftover(strs(canonical@))
            } else {
                is_unlabelled()
            },
        ),
{
    let ghost keep = if leftover {
        is_leftover(strs(canonical@))
    } else {
        is_unlabelled()
    };
    let ghost all = section_views(sections@);
    let ghost start = section_views(out@);
    let mut i: usize = 0;
    proof {
        reveal(Seq::filter);
        assert(all.take(0).filter(keep) == Seq::<SectionView>::empty());
        assert(start + Seq::<SectionView>::empty() == start);
    }
    while i < sections.len()
        invariant
            i <= sections.len(),
            all == section_views(sections@),
            keep == if leftover {
                is_leftover(strs(canonical@))
            } else {
                is_unlabelled()
            },
            section_views(out@) == start + all.take(i as int).filter(keep),
        decreases sections.len() - i,
    {
        let section = &sections[i];
        let ghost kept = all.take(i as int).filter(keep);
        proof {
            assert(all.take(i + 1) == all.take(i as int).push(section@));
            all.take(i as int).lemma_filter_push(section@, keep);
        }
        let named = section.name.as_str().unicode_len() > 0;
        let wanted = if leftover {
            let listed = find_string(canonical, section.name.as_str());
            proof {
                strs(canonical@).index_of_first_ensures(section.name@);
            }
            named && listed.is_none()
        } else {
            !named
        };
        assert(wanted == keep(section@));
        if wanted {
            out.push(clone_section(section));
            assert(section_views(out@) == (start + kept).push(section@));
            assert((start + kept).push(section@) == start + kept.push(section@));
        }
        i += 1;
    }
    assert(all.take(sections.len() as int) == all);
}

/// Appends to `out` the sections that `canonical` lists, in its order.
fn push_canonical(out: &mut Vec<Section>, sections: &Vec<Section>, canonical: &Vec<String>)
    ensures
        section_views(final(out)@) == section_views(old(out)@) + canonical_sections(
            section_views(sections@),
            strs(canonical@),
        ),
{
    let ghost all = section_views(sections@);
    let ghost listed = strs(canonical@);
    let ghost start = section_views(out@);
    let mut i: usize = 0;
    proof {
        assert(listed.take(0) == Seq::<Seq<char>>::empty());
        assert(start + Seq::<SectionView>::empty() == start);
    }
    while i < canonical.len()
        invariant
            i <= canonical.len(),
            all == section_views(sections@),
            listed == strs(canonical@),
            section_views(out@) == start + canonical_sections(all, listed.take(i as int)),
        decreases canonical.len() - i,
    {
        let name = &canonical[i];
        let ghost before = listed.take(i as int);
        let ghost earlier = canonical_sections(all, before);
        proof {
            assert(listed.take(i + 1).drop_last() == before);
            assert(listed.take(i + 1).last() == name@);
        }
        let first = find_string(canonical, name.as_str());
        proof {
            listed.index_of_first_ensures(name@);
            let k = listed.index_of_first(name@)->0;
            if k < i {
                assert(before[k] == name@);
            }
            if before.contains(name@) {
                let j = choose|j: int| 0 <= j < before.len() && before[j] == name@;
                assert(listed[j] == name@);
            }
            assert(before.contains(name@) <==> k < i);
        }
        let is_first = match first {
            Some(k) => k == i,
            None => false,
        };
        if name.as_str().unicode_len() > 0 && is_first {
            match find_section(sections, name.as_str()) {
                Some(at) => {
                    out.push(clone_section(&sections[at]));
                    assert(section_views(out@) == (start + earlier).push(all[at as int]));
                    assert((start + earlier).push(all[at as int]) == start + earlier.push(
                        all[at as int],
                    ));
                },
                None => {},
            }
        }
        i += 1;
    }
    assert(listed.take(canonical.len() as int) == listed);
}

/// The sections in the order in which they are written.
pub fn order_sections(sections: &Vec<Section>, canonical: &Vec<String>) -> (ordered: Vec<Section>)
    ensures
        section_views(ordered@) == ordered_sections(section_views(sections@), strs(canonical@)),
{
    let mut ordered: Vec<Section> = Vec::new();
    assert(section_views(ordered@) == Seq::<SectionView>::empty());
    push_filtered(&mut ordered, sections, canonical, false);
    assert(section_views(ordered@) == section_views(sections@).filter(is_unlabelled()));
    push_canonical(&mut ordered, sections, canonical);
    push_filtered(&mut ordered, sections, canonical, true);
    ordered
}

/// Appends the block of each section to `out`.
pub fn write_blocks(out: &mut Vec<char>, sections: &Vec<Section>)
    ensures
        final(out)@ == old(out)@ + section_blocks(section_views(sections@)),
{
    let ghost all = section_views(sections@);
    let ghost start = out@;
    let heading_mark = to_chars("### ");
    let empty_line = to_chars("\n\n");
    let mut i: usize = 0;
    proof {
        assert(all.take(0) == Seq::<SectionView>::empty());
        assert(start + Seq::<char>::empty() == start);
    }
    while i < sections.len()
        invariant
            i <= sections.len(),
            all == section_views(sections@),
            heading_mark@ == "### "@,
            empty_line@ == "\n\n"@,
            out@ == start + section_blocks(all.take(i as int)),
        decreases sections.len() - i,
    {
        let section = &sections[i];
        let ghost done = section_blocks(all.take(i as int));
        proof {
            assert(all.take(i + 1).drop_last() == all.take(i as int));
            assert(all.take(i + 1).last() == section@);
        }
        let name = to_chars(section.name.as_str());
        let body = trim_end_chars(&to_chars(section.body.as_str()), CharClass::Whitespace);
        if name.len() > 0 {
            push_chars(out, &heading_mark);
            push_chars(out, &name);
            push_chars(out, &empty_line);
        }
        push_chars(out, &body);
        push_chars(out, &empty_line);
        assert(out@ == start + (done + section_block(section@)));
        i += 1;
    }
    assert(all.take(sections.len() as int) == all);
}


/// Adding a line keeps the names of the sections distinct.
pub proof fn lemma_add_line_keeps_names_distinct(
    sections: Seq<SectionView>,
    name: Seq<char>,
    line: Seq<char>,
)
    requires
        section_names(sections).no_duplicates(),
    ensures
        section_names(add_line(sections, name, line)).no_duplicates(),
{
    let names = section_names(sections);
    let after = section_names(add_line(sections, name, line));
    names.index_of_first_ensures(name);
    match names.index_of_first(name) {
        Some(i) => {
            assert(after == names);
        },
        None => {
            assert(after == names.push(name));
            assert forall|a: int, b: int|
                0 <= a < after.len() && 0 <= b < after.len() && a != b implies after[a]
                != after[b] by {
                if a < names.len() {
                    assert(after[a] == names[a]);
                }
                if b < names.len() {
                    assert(after[b] == names[b]);
                }
            }
        },
    }
}

/// Reading lines keeps the names of the sections distinct.
pub proof fn lemma_scan_keeps_names_distinct(scan: Scan, text: Seq<Seq<char>>)
    requires
        section_names(scan.sections).no_duplicates(),
    ensures
        section_names(scan_lines(scan, text).sections).no_duplicates(),
    decreases text.len(),
{
    if text.len() > 0 {
        lemma_scan_keeps_names_distinct(scan, text.drop_last());
        let before = scan_lines(scan, text.drop_last());
        lemma_add_line_keeps_names_distinct(before.sections, before.current, text.last());
    }
}

/// No two of the sections that entries fall into share a name.
pub proof fn lemma_grouped_names_distinct(contents: Seq<Seq<char>>)
    ensures
        section_names(group_sections(contents)).no_duplicates(),
    decreases contents.len(),
{
    if contents.len() > 0 {
        lemma_grouped_names_distinct(contents.drop_last());
        lemma_scan_keeps_names_distinct(
            Scan { current: Seq::empty(), sections: group_sections(contents.drop_last()) },
            lines(contents.last()),
        );
    }
}

/// A section whose name `canonical` lists is among the canonical sections,
/// if it is the only section of its name.
pub proof fn lemma_listed_section_is_canonical(
    sections: Seq<SectionView>,
    canonical: Seq<Seq<char>>,
    at: int,
)
    requires
        section_names(sections).no_duplicates(),
        0 <= at < sections.len(),
        sections[at].name.len() > 0,
        canonical.contains(sections[at].name),
    ensures
        canonical_sections(sections, canonical).contains(sections[at]),
    decreases canonical.len(),
{
    let name = sections[at].name;
    let names = section_names(sections);
    let before = canonical.drop_last();
    let earlier = canonical_sections(sections, before);
    let whole = canonical_sections(sections, canonical);
    if before.contains(name) {
        lemma_listed_section_is_canonical(sections, before, at);
        let k = choose|k: int| 0 <= k < earlier.len() && earlier[k] == sections[at];
        if whole.len() > earlier.len() {
            assert(whole[k] == earlier[k]);
        }
        assert(whole[k] == sections[at]);
    } else {
        let j = choose|j: int| 0 <= j < canonical.len() && canonical[j] == name;
        if j < before.len() {
            assert(before[j] == name);
        }
        assert(canonical.last() == name);
        assert(names[at] == name);
        names.index_of_first_ensures(name);
        let first = names.index_of_first(name)->0;
        assert(first == at);
        assert(whole == earlier.push(sections[at]));
        assert(whole[earlier.len() as int] == sections[at]);
    }
}

/// Every section is written: ordering drops none of them, given that no two
/// share a name.
pub proof fn lemma_every_section_is_written(
    sections: Seq<SectionView>,
    canonical: Seq<Seq<char>>,
    at: int,
)
    requires
        section_names(sections).no_duplicates(),
        0 <= at < sections.len(),
    ensures
        ordered_sections(sections, canonical).contains(sections[at]),
{
    let section = sections[at];
    let first = sections.filter(is_unlabelled());
    let second = canonical_sections(sections, canonical);
    let third = sections.filter(is_leftover(canonical));
    let ordered = ordered_sections(sections, canonical);
    if section.name.len() == 0 {
        sections.lemma_filter_contains(is_unlabelled(), at);
        let k = choose|k: int| 0 <= k < first.len() && first[k] == section;
        assert(ordered[k] == section);
    } else if canonical.contains(section.name) {
        lemma_listed_section_is_canonical(sections, canonical, at);
        let k = choose|k: int| 0 <= k < second.len() && second[k] == section;
        assert(ordered[first.len() + k] == section);
    } else {
        sections.lemma_filter_contains(is_leftover(canonical), at);
        let k = choose|k: int| 0 <= k < third.len() && third[k] == section;
        assert(ordered[first.len() + second.len() + k] == section);
    }
}

/// Every canonical section is one of the sections.
pub proof fn lemma_canonical_sections_are_sections(
    sections: Seq<SectionView>,
    canonical: Seq<Seq<char>>,
    at: int,
)
    requires
        0 <= at < canonical_sections(sections, canonical).len(),
    ensures
        sections.contains(canonical_sections(sections, canonical)[at]),
        canonical_sections(sections, canonical)[at].name.len() > 0,
        canonical.contains(canonical_sections(sections, canonical)[at].name),
    decreases canonical.len(),
{
    let before = canonical.drop_last();
    let earlier = canonical_sections(sections, before);
    let whole = canonical_sections(sections, canonical);
    if at < earlier.len() {
        lemma_canonical_sections_are_sections(sections, before, at);
        assert(whole[at] == earlier[at]);
        let j = choose|j: int| 0 <= j < before.len() && before[j] == earlier[at].name;
        assert(canonical[j] == earlier[at].name);
    } else {
        let name = canonical.last();
        let names = section_names(sections);
        names.index_of_first_ensures(name);
        let first = names.index_of_first(name)->0;
        assert(whole[at] == sections[first]);
        assert(names[first] == sections[first].name);
        assert(canonical[canonical.len() - 1] == name);
    }
}

/// Nothing is written that is not a section: every written section is one
/// of the sections.
pub proof fn lemma_written_sections_are_sections(
    sections: Seq<SectionView>,
    canonical: Seq<Seq<char>>,
    at: int,
)
    requires
        0 <= at < ordered_sections(sections, canonical).len(),
    ensures
        sections.contains(ordered_sections(sections, canonical)[at]),
{
    let first = sections.filter(is_unlabelled());
    let second = canonical_sections(sections, canonical);
    let third = sections.filter(is_leftover(canonical));
    let ordered = ordered_sections(sections, canonical);
    if at < first.len() {
        assert(ordered[at] == first[at]);
        assert(first.contains(first[at]));
        sections.lemma_filter_contains_rev(is_unlabelled(), first[at]);
    } else if at < first.len() + second.len() {
        assert(ordered[at] == second[at - first.len()]);
        lemma_canonical_sections_are_sections(sections, canonical, at - first.len());
    } else {
        let k = at - first.len() - second.len();
        assert(ordered[at] == third[k]);
        assert(third.contains(third[k]));
        sections.lemma_filter_contains_rev(is_leftover(canonical), third[k]);
    }
}


/// Whether `after` holds all that `before` holds: each section of `before`
/// is at its place in `after`, under its name, and its body begins with
/// what it was.
pub open spec fn sections_kept(before: Seq<SectionView>, after: Seq<SectionView>) -> bool {
    &&& before.len() <= after.len()
    &&& forall|i: int|
        0 <= i < before.len() ==> (#[trigger] after[i]).name == before[i].name
            && before[i].body.is_prefix_of(after[i].body)
}

/// An added line is not lost and nothing is lost for it: the sections hold
/// all that they held, and the body of the section that the line went to
/// ends with the line.
pub proof fn lemma_add_line_keeps_text(sections: Seq<SectionView>, name: Seq<char>, line: Seq<char>)
    ensures
        sections_kept(sections, add_line(sections, name, line)),
        exists|i: int|
            0 <= i < add_line(sections, name, line).len() && (#[trigger] add_line(
                sections,
                name,
                line,
            )[i]).name == name && line.is_suffix_of(add_line(sections, name, line)[i].body),
{
    let names = section_names(sections);
    let after = add_line(sections, name, line);
    names.index_of_first_ensures(name);
    match names.index_of_first(name) {
        Some(at) => {
            let grown = sections[at].body + seq!['\n'] + line;
            assert(after[at].body == grown);
            assert(grown.subrange(0, sections[at].body.len() as int) == sections[at].body);
            assert(grown.subrange(grown.len() - line.len(), grown.len() as int) == line);
            assert(names[at] == sections[at].name);
            assert forall|i: int| 0 <= i < sections.len() implies (#[trigger] after[i]).name
                == sections[i].name && sections[i].body.is_prefix_of(after[i].body) by {
                if i != at {
                    assert(after[i] == sections[i]);
                    assert(sections[i].body.subrange(0, sections[i].body.len() as int)
                        == sections[i].body);
                }
            }
            assert(after[at].name == name && line.is_suffix_of(after[at].body));
        },
        None => {
            let last = after.len() - 1;
            assert forall|i: int| 0 <= i < sections.len() implies (#[trigger] after[i]).name
                == sections[i].name && sections[i].body.is_prefix_of(after[i].body) by {
                assert(after[i] == sections[i]);
                assert(sections[i].body.subrange(0, sections[i].body.len() as int)
                    == sections[i].body);
            }
            assert(after[last].body == line);
            assert(line.subrange(0, line.len() as int) == line);
            assert(after[last].name == name && line.is_suffix_of(after[last].body));
        },
    }
}

/// Holding all that was held carries over two steps.
pub proof fn lemma_sections_kept_twice(
    first: Seq<SectionView>,
    second: Seq<SectionView>,
    third: Seq<SectionView>,
)
    requires
        sections_kept(first, second),
        sections_kept(second, third),
    ensures
        sections_kept(first, third),
{
    assert forall|i: int| 0 <= i < first.len() implies (#[trigger] third[i]).name == first[i].name
        && first[i].body.is_prefix_of(third[i].body) by {
        assert(second[i].name == first[i].name);
        assert(third[i].name == second[i].name);
        let a = first[i].body;
        let b = second[i].body;
        let c = third[i].body;
        assert(c.subrange(0, a.len() as int) == b.subrange(0, a.len() as int));
    }
}

/// Reading lines loses nothing: the sections hold all that they held.
pub proof fn lemma_scan_keeps_text(scan: Scan, text: Seq<Seq<char>>)
    ensures
        sections_kept(scan.sections, scan_lines(scan, text).sections),
    decreases text.len(),
{
    if text.len() > 0 {
        lemma_scan_keeps_text(scan, text.drop_last());
        let before = scan_lines(scan, text.drop_last());
        lemma_add_line_keeps_text(before.sections, before.current, text.last());
        lemma_sections_kept_twice(
            scan.sections,
            before.sections,
            scan_line(before, text.last()).sections,
        );
    } else {
        assert forall|i: int| 0 <= i < scan.sections.len() implies scan.sections[i].body.is_prefix_of(
            scan.sections[i].body,
        ) by {
            let body = scan.sections[i].body;
            assert(body.subrange(0, body.len() as int) == body);
        }
    }
}


/// Where there is no section, none is written.
pub proof fn lemma_no_section_nothing_written(canonical: Seq<Seq<char>>)
    ensures
        ordered_sections(Seq::empty(), canonical).len() == 0,
    decreases canonical.len(),
{
    reveal(Seq::filter);
    let none = Seq::<SectionView>::empty();
    assert(canonical_sections(none, canonical).len() == 0) by {
        lemma_no_section_none_canonical(canonical);
    }
    assert(none.filter(is_unlabelled()).len() == 0);
    assert(none.filter(is_leftover(canonical)).len() == 0);
}

/// Where there is no section, there is no canonical section.
pub proof fn lemma_no_section_none_canonical(canonical: Seq<Seq<char>>)
    ensures
        canonical_sections(Seq::empty(), canonical).len() == 0,
    decreases canonical.len(),
{
    if canonical.len() > 0 {
        lemma_no_section_none_canonical(canonical.drop_last());
        let names = section_names(Seq::<SectionView>::empty());
        names.index_of_first_ensures(canonical.last());
    }
}


/// No two canonical sections share a name.
pub proof fn lemma_canonical_names_distinct(sections: Seq<SectionView>, canonical: Seq<Seq<char>>)
    ensures
        forall|a: int, b: int|
            0 <= a < canonical_sections(sections, canonical).len() && 0 <= b < canonical_sections(
                sections,
                canonical,
            ).len() && a != b ==> (#[trigger] canonical_sections(sections, canonical)[a]).name != (
            #[trigger] canonical_sections(sections, canonical)[b]).name,
    decreases canonical.len(),
{
    if canonical.len() > 0 {
        let before = canonical.drop_last();
        let name = canonical.last();
        let earlier = canonical_sections(sections, before);
        let whole = canonical_sections(sections, canonical);
        lemma_canonical_names_distinct(sections, before);
        if whole.len() > earlier.len() {
            let names = section_names(sections);
            names.index_of_first_ensures(name);
            let first = names.index_of_first(name)->0;
            assert(whole == earlier.push(sections[first]));
            assert(names[first] == sections[first].name);
            assert forall|a: int, b: int|
                0 <= a < whole.len() && 0 <= b < whole.len() && a != b implies (
            #[trigger] whole[a]).name != (#[trigger] whole[b]).name by {
                if a < earlier.len() && b < earlier.len() {
                    assert(whole[a] == earlier[a]);
                    assert(whole[b] == earlier[b]);
                } else if a < earlier.len() {
                    assert(whole[a] == earlier[a]);
                    lemma_canonical_sections_are_sections(sections, before, a);
                } else {
                    assert(whole[b] == earlier[b]);
                    lemma_canonical_sections_are_sections(sections, before, b);
                }
            }
        } else {
            assert(whole == earlier);
        }
    }
}

/// Of two sections whose names `canonical` lists, the one whose name the
/// list has before the first place of the other's name is the earlier of
/// the canonical sections. `first` and `second` are the places of the two
/// sections, `listed` a place of the first name in the list and `later`
/// the first place of the second name.
pub proof fn lemma_canonical_sections_follow_list(
    sections: Seq<SectionView>,
    canonical: Seq<Seq<char>>,
    first: int,
    second: int,
    listed: int,
    later: int,
)
    requires
        section_names(sections).no_duplicates(),
        0 <= first < sections.len(),
        0 <= second < sections.len(),
        sections[first].name.len() > 0,
        sections[second].name.len() > 0,
        0 <= listed < later < canonical.len(),
        canonical[listed] == sections[first].name,
        canonical[later] == sections[second].name,
        forall|p: int| 0 <= p < later ==> canonical[p] != sections[second].name,
    ensures
        exists|i: int, j: int|
            0 <= i < j < canonical_sections(sections, canonical).len() && #[trigger] canonical_sections(
                sections,
                canonical,
            )[i] == sections[first] && #[trigger] canonical_sections(sections, canonical)[j]
                == sections[second],
    decreases canonical.len(),
{
    let before = canonical.drop_last();
    let earlier = canonical_sections(sections, before);
    let whole = canonical_sections(sections, canonical);
    let names = section_names(sections);
    if later < before.len() {
        assert(before[listed] == canonical[listed]);
        assert(before[later] == canonical[later]);
        assert forall|p: int| 0 <= p < later implies before[p] != sections[second].name by {
            assert(before[p] == canonical[p]);
        }
        lemma_canonical_sections_follow_list(sections, before, first, second, listed, later);
        let (i, j) = choose|i: int, j: int|
            0 <= i < j < earlier.len() && #[trigger] earlier[i] == sections[first]
                && #[trigger] earlier[j] == sections[second];
        if whole.len() > earlier.len() {
            names.index_of_first_ensures(canonical.last());
            assert(whole == earlier.push(sections[names.index_of_first(canonical.last())->0]));
        } else {
            assert(whole == earlier);
        }
        assert(whole[i] == sections[first]);
        assert(whole[j] == sections[second]);
    } else {
        let name = sections[second].name;
        assert(canonical.last() == name);
        assert(!before.contains(name)) by {
            if before.contains(name) {
                let p = choose|p: int| 0 <= p < before.len() && before[p] == name;
                assert(canonical[p] == name);
            }
        }
        assert(names[second] == name);
        names.index_of_first_ensures(name);
        assert(names.index_of_first(name)->0 == second);
        assert(whole == earlier.push(sections[second]));
        assert(before[listed] == sections[first].name);
        lemma_listed_section_is_canonical(sections, before, first);
        let i = choose|i: int| 0 <= i < earlier.len() && earlier[i] == sections[first];
        assert(whole[i] == sections[first]);
        assert(whole[earlier.len() as int] == sections[second]);
    }
}

/// Sections are written in the order of the list of canonical names, and
/// each once: of two named sections, the one whose name the list has before
/// the first place of the other's name is written before the other, and no
/// other written section has the name of either. `first` and `second` are
/// the places of the two sections, `listed` a place of the first name in
/// the list and `later` the first place of the second name.
pub proof fn lemma_written_in_canonical_order(
    sections: Seq<SectionView>,
    canonical: Seq<Seq<char>>,
    first: int,
    second: int,
    listed: int,
    later: int,
)
    requires
        section_names(sections).no_duplicates(),
        0 <= first < sections.len(),
        0 <= second < sections.len(),
        sections[first].name.len() > 0,
        sections[second].name.len() > 0,
        0 <= listed < later < canonical.len(),
        canonical[listed] == sections[first].name,
        canonical[later] == sections[second].name,
        forall|p: int| 0 <= p < later ==> canonical[p] != sections[second].name,
    ensures
        exists|i: int, j: int|
            {
                &&& 0 <= i < j < ordered_sections(sections, canonical).len()
                &&& #[trigger] ordered_sections(sections, canonical)[i] == sections[first]
                &&& #[trigger] ordered_sections(sections, canonical)[j] == sections[second]
                &&& forall|k: int|
                    0 <= k < ordered_sections(sections, canonical).len() && (
                    #[trigger] ordered_sections(sections, canonical)[k]).name
                        == sections[first].name ==> k == i
                &&& forall|k: int|
                    0 <= k < ordered_sections(sections, canonical).len() && (
                    #[trigger] ordered_sections(sections, canonical)[k]).name
                        == sections[second].name ==> k == j
            },
{
    let head = sections.filter(is_unlabelled());
    let middle = canonical_sections(sections, canonical);
    let tail = sections.filter(is_leftover(canonical));
    let ordered = ordered_sections(sections, canonical);
    lemma_canonical_sections_follow_list(sections, canonical, first, second, listed, later);
    let (a, b) = choose|a: int, b: int|
        0 <= a < b < middle.len() && #[trigger] middle[a] == sections[first]
            && #[trigger] middle[b] == sections[second];
    let i = head.len() + a;
    let j = head.len() + b;
    assert(ordered[i] == sections[first]);
    assert(ordered[j] == sections[second]);
    lemma_canonical_names_distinct(sections, canonical);
    assert forall|k: int, at: int|
        0 <= k < ordered.len() && (at == first || at == second) && (#[trigger] ordered[k]).name
            == (#[trigger] sections[at]).name implies k == (if at == first {
        i
    } else {
        j
    }) by {
        let name = sections[at].name;
        assert(canonical.contains(name)) by {
            if at == first {
                assert(canonical[listed] == name);
            } else {
                assert(canonical[later] == name);
            }
        }
        if k < head.len() {
            assert(ordered[k] == head[k]);
            sections.lemma_filter_pred(is_unlabelled(), k);
        } else if k < head.len() + middle.len() {
            assert(ordered[k] == middle[k - head.len()]);
            if at == first {
                if k - head.len() != a {
                    assert(middle[k - head.len()].name != middle[a].name);
                }
            } else {
                if k - head.len() != b {
                    assert(middle[k - head.len()].name != middle[b].name);
                }
            }
        } else {
            let m = k - head.len() - middle.len();
            assert(ordered[k] == tail[m]);
            sections.lemma_filter_pred(is_leftover(canonical), m);
        }
    }
    assert forall|k: int| 0 <= k < ordered.len() && (#[trigger] ordered[k]).name
        == sections[first].name implies k == i by {
        assert(ordered[k].name == sections[first].name);
    }
    assert forall|k: int| 0 <= k < ordered.len() && (#[trigger] ordered[k]).name
        == sections[second].name implies k == j by {
        assert(ordered[k].name == sections[second].name);
    }
}

} // verus!

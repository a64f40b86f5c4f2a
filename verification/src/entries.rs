//! The repository of pending entries: the change notes that wait for a
//! release, each under a name of its own.

use crate::text::{
    clone_text, ends_with_chars, lemma_index_of_first_is, lemma_index_of_first_none, push_chars,
    str_eq, string_of, strs, sub_chars, to_chars,
};
use vstd::prelude::*;

verus! {

/// One item of the listing of the entries directory.
#[derive(Debug)]
pub struct DirItem {
    /// The item's file name, extension included.
    pub file_name: String,
    /// Whether the item is a regular file.
    pub is_file: bool,
    /// What the file holds; `None` if it could not be read.
    pub content: Option<String>,
}

/// A pending change note.
#[derive(Debug)]
pub struct Entry {
    /// The entry's name: its file name without the extension.
    pub name: String,
    /// The entry's text; `None` if its file could not be read.
    pub content: Option<String>,
}

/// An `Entry` as character sequences.
pub struct EntryView {
    pub name: Seq<char>,
    pub content: Option<Seq<char>>,
}

/// The view of an optional string.
pub open spec fn text_of(text: Option<String>) -> Option<Seq<char>> {
    match text {
        Some(s) => Some(s@),
        None => None,
    }
}

impl View for Entry {
    type V = EntryView;

    open spec fn view(&self) -> EntryView {
        EntryView { name: self.name@, content: text_of(self.content) }
    }
}

/// The views of a sequence of entries.
pub open spec fn entry_views(entries: Seq<Entry>) -> Seq<EntryView> {
    Seq::new(entries.len(), |i: int| entries[i]@)
}

/// The names of a sequence of entries, in order.
pub open spec fn entry_names(entries: Seq<EntryView>) -> Seq<Seq<char>> {
    Seq::new(entries.len(), |i: int| entries[i].name)
}

/// The extension of an entry file.
pub open spec fn entry_extension() -> Seq<char> {
    ".md"@
}

/// The name of the marker file that keeps the entries directory in version
/// control while it is empty.
pub open spec fn keep_file_name() -> Seq<char> {
    ".gitkeep"@
}

/// Whether a directory item is an entry file: a regular file whose name
/// ends in the entry extension.
pub open spec fn is_entry_file(file_name: Seq<char>, is_file: bool) -> bool {
    is_file && entry_extension().is_suffix_of(file_name)
}

/// The entry that an entry file holds.
pub open spec fn entry_of_file(file_name: Seq<char>, content: Option<Seq<char>>) -> EntryView {
    EntryView { name: file_name.take(file_name.len() - entry_extension().len()), content }
}

/// `entries` after writing `content` under `name`: the entry of that name
/// holds the new text and keeps its place; a new name comes last.
pub open spec fn with_entry(
    entries: Seq<EntryView>,
    name: Seq<char>,
    content: Option<Seq<char>>,
) -> Seq<EntryView> {
    match entry_names(entries).index_of_first(name) {
        Some(i) => entries.update(i, EntryView { name, content }),
        None => entries.push(EntryView { name, content }),
    }
}

/// The file name under which the entry `name` is stored.
pub fn entry_file_name(name: &str) -> (file_name: String)
    ensures
        file_name@ == name@ + entry_extension(),
{
    let mut chars = to_chars(name);
    let extension = to_chars(".md");
    push_chars(&mut chars, &extension);
    string_of(&chars)
}


/// A `DirItem` as character sequences.
pub struct DirItemView {
    pub file_name: Seq<char>,
    pub is_file: bool,
    pub content: Option<Seq<char>>,
}

impl View for DirItem {
    type V = DirItemView;

    open spec fn view(&self) -> DirItemView {
        DirItemView {
            file_name: self.file_name@,
            is_file: self.is_file,
            content: text_of(self.content),
        }
    }
}

/// The views of a directory listing.
pub open spec fn item_views(items: Seq<DirItem>) -> Seq<DirItemView> {
    Seq::new(items.len(), |i: int| items[i]@)
}

/// The entries that a directory listing holds, in the listing's order. An
/// entry file whose name was listed before is passed over.
pub open spec fn listed_entries(items: Seq<DirItemView>) -> Seq<EntryView>
    decreases items.len(),
{
    if items.len() == 0 {
        Seq::empty()
    } else {
        let before = listed_entries(items.drop_last());
        let item = items.last();
        let entry = entry_of_file(item.file_name, item.content);
        if is_entry_file(item.file_name, item.is_file) && !entry_names(before).contains(
            entry.name,
        ) {
            before.push(entry)
        } else {
            before
        }
    }
}

/// Whether a directory item has no business in the entries directory: it is
/// neither an entry file nor the keep file.
pub open spec fn is_unexpected(item: DirItemView) -> bool {
    !is_entry_file(item.file_name, item.is_file) && item.file_name != keep_file_name()
}

/// The file names of the unexpected items of a listing, in its order.
pub open spec fn unexpected_items(items: Seq<DirItemView>) -> Seq<Seq<char>>
    decreases items.len(),
{
    if items.len() == 0 {
        Seq::empty()
    } else if is_unexpected(items.last()) {
        unexpected_items(items.drop_last()).push(items.last().file_name)
    } else {
        unexpected_items(items.drop_last())
    }
}

/// The text stored under `name`, if an entry of that name is there and
/// could be read.
pub open spec fn content_of(entries: Seq<EntryView>, name: Seq<char>) -> Option<Seq<char>> {
    match entry_names(entries).index_of_first(name) {
        Some(i) => entries[i].content,
        None => None,
    }
}

/// The pending entries, each under a name of its own, in the order in which
/// the directory listed them; entries created later come last.
pub struct EntryRepository {
    entries: Vec<Entry>,
}

impl View for EntryRepository {
    type V = Seq<EntryView>;

    closed spec fn view(&self) -> Seq<EntryView> {
        entry_views(self.entries@)
    }
}

impl EntryRepository {
    /// No two entries share a name.
    #[verifier::type_invariant]
    pub open spec fn wf(&self) -> bool {
        entry_names(self@).no_duplicates()
    }

    /// Whether an entry called `name` is there.
    pub open spec fn has(&self, name: Seq<char>) -> bool {
        entry_names(self@).contains(name)
    }

    /// A repository without entries.
    pub fn new() -> (repo: Self)
        ensures
            repo@ == Seq::<EntryView>::empty(),
            repo.wf(),
    {
        let repo = EntryRepository { entries: Vec::new() };
        assert(repo@ == Seq::<EntryView>::empty());
        repo
    }

    /// The repository that a listing of the entries directory describes,
    /// and the file names of the items that do not belong there.
    pub fn from_listing(items: &Vec<DirItem>) -> (found: (Self, Vec<String>))
        ensures
            found.0@ == listed_entries(item_views(items@)),
            found.0.wf(),
            strs(found.1@) == unexpected_items(item_views(items@)),
    {
        let mut repo = EntryRepository::new();
        let mut unexpected: Vec<String> = Vec::new();
        let extension = to_chars(".md");
        let mut i: usize = 0;
        proof {
            reveal_strlit(".md");
            assert(item_views(items@).take(0) == Seq::<DirItemView>::empty());
        }
        while i < items.len()
            invariant
                i <= items.len(),
                extension@ == entry_extension(),
                extension@.len() == 3,
                repo@ == listed_entries(item_views(items@).take(i as int)),
                repo.wf(),
                strs(unexpected@) == unexpected_items(item_views(items@).take(i as int)),
            decreases items.len() - i,
        {
            let item = &items[i];
            let ghost views = item_views(items@);
            let ghost before = views.take(i as int);
            proof {
                assert(views.take(i + 1).drop_last() == before);
                assert(views.take(i + 1).last() == item@);
            }
            let file_name = to_chars(item.file_name.as_str());
            let is_entry = item.is_file && ends_with_chars(&file_name, &extension);
            if is_entry {
                let name_chars = sub_chars(&file_name, 0, file_name.len() - extension.len());
                let name = string_of(&name_chars);
                assert(name@ == entry_of_file(item@.file_name, item@.content).name);
                if !repo.contains(name.as_str()) {
                    repo.push_new(name, clone_text(&item.content));
                }
            } else if !str_eq(item.file_name.as_str(), ".gitkeep") {
                let ghost old_unexpected = strs(unexpected@);
                unexpected.push(item.file_name.clone());
                assert(strs(unexpected@) == old_unexpected.push(item@.file_name));
            }
            i += 1;
        }
        assert(item_views(items@).take(items.len() as int) == item_views(items@));
        (repo, unexpected)
    }

    /// The position of the entry called `name`, if it is there.
    fn find(&self, name: &str) -> (at: Option<usize>)
        ensures
            match at {
                Some(i) => i < self.entries.len() && entry_names(self@).index_of_first(name@)
                    == Some(i as int),
                None => entry_names(self@).index_of_first(name@) is None,
            },
    {
        let mut i: usize = 0;
        while i < self.entries.len()
            invariant
                i <= self.entries.len(),
                forall|j: int| 0 <= j < i ==> entry_names(self@)[j] != name@,
            decreases self.entries.len() - i,
        {
            if str_eq(self.entries[i].name.as_str(), name) {
                proof {
                    lemma_index_of_first_is(entry_names(self@), name@, i as int);
                }
                return Some(i);
            }
            i += 1;
        }
        proof {
            lemma_index_of_first_none(entry_names(self@), name@);
        }
        None
    }

    /// Moves the entries out and leaves the repository empty.
    fn take_entries(&mut self) -> (entries: Vec<Entry>)
        ensures
            entries == old(self).entries,
            final(self).entries@.len() == 0,
    {
        let mut taken = EntryRepository { entries: Vec::new() };
        assert(entry_names(taken@) == Seq::<Seq<char>>::empty());
        core::mem::swap(self, &mut taken);
        taken.entries
    }

    /// Adds an entry under a name that is not there yet.
    fn push_new(&mut self, name: String, content: Option<String>)
        requires
            !old(self).has(name@),
        ensures
            final(self)@ == old(self)@.push(EntryView { name: name@, content: text_of(content) }),
            final(self).wf(),
    {
        proof {
            use_type_invariant(&*self);
        }
        let ghost before = self@;
        let ghost entry = EntryView { name: name@, content: text_of(content) };
        let mut entries = self.take_entries();
        entries.push(Entry { name, content });
        proof {
            let after = entry_views(entries@);
            assert(after == before.push(entry));
            let names = entry_names(after);
            assert forall|a: int, b: int| 0 <= a < names.len() && 0 <= b < names.len() && a
                != b implies names[a] != names[b] by {
                if a < before.len() && b < before.len() {
                    assert(names[a] == entry_names(before)[a]);
                    assert(names[b] == entry_names(before)[b]);
                } else if a < before.len() {
                    assert(names[a] == entry_names(before)[a]);
                } else {
                    assert(names[b] == entry_names(before)[b]);
                }
            }
        }
        *self = EntryRepository { entries };
    }

    /// Gives the entry at position `at` a new text.
    fn set_content(&mut self, at: usize, content: Option<String>)
        requires
            at < old(self)@.len(),
        ensures
            final(self)@ == old(self)@.update(
                at as int,
                EntryView { name: old(self)@[at as int].name, content: text_of(content) },
            ),
            final(self).wf(),
    {
        proof {
            use_type_invariant(&*self);
        }
        let ghost before = self@;
        let mut entries = self.take_entries();
        let name = entries[at].name.clone();
        entries.set(at, Entry { name, content });
        proof {
            let after = entry_views(entries@);
            assert(after == before.update(
                at as int,
                EntryView { name: before[at as int].name, content: text_of(content) },
            ));
            assert(entry_names(after) == entry_names(before));
        }
        *self = EntryRepository { entries };
    }

    /// Whether an entry called `name` is there.
    pub fn contains(&self, name: &str) -> (found: bool)
        ensures
            found == self.has(name@),
    {
        let at = self.find(name);
        proof {
            entry_names(self@).index_of_first_ensures(name@);
        }
        at.is_some()
    }

    /// The text of the entry called `name`: `None` if no such entry is
    /// there or its file could not be read.
    pub fn content(&self, name: &str) -> (text: Option<String>)
        ensures
            text_of(text) == content_of(self@, name@),
    {
        match self.find(name) {
            Some(i) => clone_text(&self.entries[i].content),
            None => None,
        }
    }

    /// Stores `content` under `name`. An entry of that name keeps its place
    /// and holds the new text; a new name comes last.
    pub fn create(&mut self, name: String, content: String)
        ensures
            final(self)@ == with_entry(old(self)@, name@, Some(content@)),
            final(self).wf(),
            final(self).has(name@),
            final(self)@.contains(EntryView { name: name@, content: Some(content@) }),
            content_of(final(self)@, name@) == Some(content@),
    {
        proof {
            use_type_invariant(&*self);
        }
        let ghost before = self@;
        let ghost entry = EntryView { name: name@, content: Some(content@) };
        match self.find(name.as_str()) {
            Some(i) => {
                proof {
                    entry_names(before).index_of_first_ensures(name@);
                    assert(entry_names(before)[i as int] == before[i as int].name);
                }
                self.set_content(i, Some(content));
                proof {
                    assert(entry_names(self@) == entry_names(before));
                    assert(self@[i as int] == entry);
                }
            },
            None => {
                proof {
                    entry_names(before).index_of_first_ensures(name@);
                }
                self.push_new(name, Some(content));
                proof {
                    assert(self@.last() == entry);
                    assert(entry_names(self@).last() == entry.name);
                    lemma_index_of_first_is(entry_names(self@), entry.name, self@.len() - 1);
                }
            },
        }
        proof {
            entry_names(self@).index_of_first_ensures(entry.name);
        }
    }

    /// The names of the entries, in the repository's order.
    pub fn names(&self) -> (names: Vec<String>)
        ensures
            strs(names@) == entry_names(self@),
    {
        let mut names: Vec<String> = Vec::new();
        let mut i: usize = 0;
        while i < self.entries.len()
            invariant
                i <= self.entries.len(),
                strs(names@) == entry_names(self@).take(i as int),
            decreases self.entries.len() - i,
        {
            let ghost before = strs(names@);
            names.push(self.entries[i].name.clone());
            assert(strs(names@) == before.push(self.entries[i as int].name@));
            i += 1;
        }
        assert(entry_names(self@).take(self.entries.len() as int) == entry_names(self@));
        names
    }

    /// The entries, in the repository's order.
    pub fn list(&self) -> (entries: Vec<Entry>)
        ensures
            entry_views(entries@) == self@,
    {
        let mut entries: Vec<Entry> = Vec::new();
        let mut i: usize = 0;
        while i < self.entries.len()
            invariant
                i <= self.entries.len(),
                entry_views(entries@) == self@.take(i as int),
            decreases self.entries.len() - i,
        {
            let ghost before = entry_views(entries@);
            let entry = &self.entries[i];
            entries.push(Entry { name: entry.name.clone(), content: clone_text(&entry.content) });
            assert(entry_views(entries@) == before.push(entry@));
            i += 1;
        }
        assert(self@.take(self.entries.len() as int) == self@);
        entries
    }
}


/// After a text was written under a name, an entry of that name is there,
/// it holds the text, and the listing shows the two together.
pub proof fn lemma_written_entry_is_listed(
    entries: Seq<EntryView>,
    name: Seq<char>,
    content: Option<Seq<char>>,
)
    ensures
        entry_names(with_entry(entries, name, content)).contains(name),
        with_entry(entries, name, content).contains(EntryView { name, content }),
        content_of(with_entry(entries, name, content), name) == content,
{
    let names = entry_names(entries);
    let after = with_entry(entries, name, content);
    let entry = EntryView { name, content };
    names.index_of_first_ensures(name);
    match names.index_of_first(name) {
        Some(i) => {
            assert(after[i] == entry);
            assert(entry_names(after)[i] == name);
            assert forall|j: int| 0 <= j < i implies entry_names(after)[j] != name by {
                assert(entry_names(after)[j] == names[j]);
            }
            lemma_index_of_first_is(entry_names(after), name, i);
        },
        None => {
            let last = after.len() - 1;
            assert(after[last] == entry);
            assert(entry_names(after)[last] == name);
            assert forall|j: int| 0 <= j < last implies entry_names(after)[j] != name by {
                assert(entry_names(after)[j] == names[j]);
            }
            lemma_index_of_first_is(entry_names(after), name, last);
        },
    }
}

/// Writing under a name leaves the entries of all other names as they were.
pub proof fn lemma_written_entry_keeps_others(
    entries: Seq<EntryView>,
    name: Seq<char>,
    content: Option<Seq<char>>,
    other: Seq<char>,
)
    requires
        other != name,
    ensures
        entry_names(with_entry(entries, name, content)).contains(other) == entry_names(
            entries,
        ).contains(other),
        content_of(with_entry(entries, name, content), other) == content_of(entries, other),
{
    let names = entry_names(entries);
    let after = with_entry(entries, name, content);
    let names_after = entry_names(after);
    names.index_of_first_ensures(name);
    names.index_of_first_ensures(other);
    names_after.index_of_first_ensures(other);
    assert forall|j: int| 0 <= j < names.len() implies (names[j] == other <==> names_after[j]
        == other) by {
        match names.index_of_first(name) {
            Some(i) => {
                if j != i {
                    assert(after[j] == entries[j]);
                }
            },
            None => {
                assert(after[j] == entries[j]);
            },
        }
    }
    if names.index_of_first(name) is None {
        assert(names_after[names.len() as int] == name);
    }
    match names.index_of_first(other) {
        Some(k) => {
            assert(names_after[k] == other);
            assert forall|j: int| 0 <= j < k implies names_after[j] != other by {
                assert(names[j] != other);
            }
            lemma_index_of_first_is(names_after, other, k);
            assert(after[k] == entries[k]);
        },
        None => {
            assert forall|j: int| 0 <= j < names_after.len() implies names_after[j] != other by {
                if j < names.len() {
                    assert(names[j] != other);
                }
            }
            lemma_index_of_first_none(names_after, other);
        },
    }
}

} // verus!

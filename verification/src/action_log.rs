//! Logging a change: the text that a new entry starts from, and what is
//! made of the text that comes back from the editor.

use crate::entries::entry_names;
use crate::store::Store;
use crate::text::{push_chars, string_of, strs, to_chars};
use vstd::prelude::*;

verus! {

/// The beginning of an entry for one section: the heading, and a list item
/// that names the issue if there is one.
pub open spec fn section_stub(section: Seq<char>, issue: Option<Seq<char>>) -> Seq<char> {
    "# "@ + section + "\n"@ + match issue {
        Some(number) => "-  (#"@ + number + ")\n"@,
        None => "- \n"@,
    }
}

/// The text that a new entry starts from: a stub for each chosen section,
/// with an empty line between two stubs.
pub open spec fn prefill(sections: Seq<Seq<char>>, issue: Option<Seq<char>>) -> Seq<char>
    decreases sections.len(),
{
    if sections.len() == 0 {
        Seq::empty()
    } else {
        let before = prefill(sections.drop_last(), issue);
        let separated = if before.len() > 0 {
            before + "\n"@
        } else {
            before
        };
        separated + section_stub(sections.last(), issue)
    }
}

/// The text that a new entry starts from.
pub fn prefill_text(sections: &Vec<String>, issue: Option<&str>) -> (text: String)
    ensures
        text@ == prefill(
            strs(sections@),
            match issue {
                Some(number) => Some(number@),
                None => None,
            },
        ),
{
    let ghost all = strs(sections@);
    let ghost number = match issue {
        Some(number) => Some(number@),
        None => None,
    };
    let mut out: Vec<char> = Vec::new();
    let mut i: usize = 0;
    assert(all.take(0) == Seq::<Seq<char>>::empty());
    while i < sections.len()
        invariant
            i <= sections.len(),
            all == strs(sections@),
            number == match issue {
                Some(number) => Some(number@),
                None => None,
            },
            out@ == prefill(all.take(i as int), number),
        decreases sections.len() - i,
    {
        let ghost before = out@;
        proof {
            assert(all.take(i + 1).drop_last() == all.take(i as int));
            assert(all.take(i + 1).last() == sections@[i as int]@);
        }
        if out.len() > 0 {
            out.push('\n');
            proof {
                reveal_strlit("\n");
                assert(out@ == before + "\n"@);
            }
        }
        let ghost separated = out@;
        push_chars(&mut out, &to_chars("# "));
        push_chars(&mut out, &to_chars(sections[i].as_str()));
        push_chars(&mut out, &to_chars("\n"));
        match issue {
            Some(number) => {
                push_chars(&mut out, &to_chars("-  (#"));
                push_chars(&mut out, &to_chars(number));
                push_chars(&mut out, &to_chars(")\n"));
            },
            None => {
                push_chars(&mut out, &to_chars("- \n"));
            },
        }
        assert(out@ == separated + section_stub(sections@[i as int]@, number));
        i += 1;
    }
    assert(all.take(sections.len() as int) == all);
    string_of(&out)
}

/// The text of an entry, made of what the editor gave back: the text the
/// entry started from if nothing came back, and a line feed at the end if
/// there was none.
pub open spec fn finished(edited: Seq<char>, prefilled: Seq<char>) -> Seq<char> {
    let text = if edited.len() == 0 {
        prefilled
    } else {
        edited
    };
    if text.len() > 0 && text.last() == '\n' {
        text
    } else {
        text.push('\n')
    }
}

/// The text of an entry, made of what the editor gave back.
pub fn finish_text(edited: &str, prefilled: &str) -> (text: String)
    ensures
        text@ == finished(edited@, prefilled@),
{
    let mut chars = to_chars(edited);
    if chars.len() == 0 {
        chars = to_chars(prefilled);
    }
    if chars.len() == 0 || chars[chars.len() - 1] != '\n' {
        chars.push('\n');
    }
    string_of(&chars)
}

/// What to make of a name or a version that the user typed.
#[derive(Clone, Copy, Debug, PartialEq, Eq, Structural)]
pub enum InputCheck {
    /// Nothing was typed: the user gave up.
    Cancelled,
    /// It is in use: ask again.
    Taken,
    /// It can be used.
    Free,
}

/// What to make of a typed text, given whether it is in use.
pub open spec fn input_check(text: Seq<char>, in_use: bool) -> InputCheck {
    if text.len() == 0 {
        InputCheck::Cancelled
    } else if in_use {
        InputCheck::Taken
    } else {
        InputCheck::Free
    }
}

/// What to make of the name that the user typed for a new entry.
pub fn check_entry_name(store: &Store, name: &str) -> (check: InputCheck)
    ensures
        check == input_check(name@, entry_names(store@.entries).contains(name@)),
{
    if name.unicode_len() == 0 {
        InputCheck::Cancelled
    } else if store.entry_exists(name) {
        InputCheck::Taken
    } else {
        InputCheck::Free
    }
}

} // verus!

//! Turning a value that is there but empty into no value.

use vstd::prelude::*;

verus! {

/// For optional texts and lists: an empty one counts as none.
pub trait EmptyToNone<T>: Sized {
    /// The value if it is there and not empty.
    spec fn emptied(self) -> Option<T>;

    /// The value if it is there and not empty, and `None` otherwise.
    fn empty_to_none(self) -> (kept: Option<T>)
        ensures
            kept == self.emptied(),
    ;
}

impl<'a> EmptyToNone<&'a str> for Option<&'a str> {
    open spec fn emptied(self) -> Option<&'a str> {
        match self {
            Some(text) => if text@.len() == 0 {
                None
            } else {
                Some(text)
            },
            None => None,
        }
    }

    fn empty_to_none(self) -> (kept: Option<&'a str>) {
        match self {
            None => None,
            Some(text) => if text.is_empty() {
                None
            } else {
                Some(text)
            },
        }
    }
}

impl<'a> EmptyToNone<&'a String> for Option<&'a String> {
    open spec fn emptied(self) -> Option<&'a String> {
        match self {
            Some(text) => if text@.len() == 0 {
                None
            } else {
                Some(text)
            },
            None => None,
        }
    }

    fn empty_to_none(self) -> (kept: Option<&'a String>) {
        match self {
            None => None,
            Some(text) => if text.as_str().is_empty() {
                None
            } else {
                Some(text)
            },
        }
    }
}

impl EmptyToNone<String> for Option<String> {
    open spec fn emptied(self) -> Option<String> {
        match self {
            Some(text) => if text@.len() == 0 {
                None
            } else {
                Some(text)
            },
            None => None,
        }
    }

    fn empty_to_none(self) -> (kept: Option<String>) {
        match self {
            None => None,
            Some(text) => if text.as_str().is_empty() {
                None
            } else {
                Some(text)
            },
        }
    }
}

impl<X> EmptyToNone<Vec<X>> for Option<Vec<X>> {
    open spec fn emptied(self) -> Option<Vec<X>> {
        match self {
            Some(list) => if list@.len() == 0 {
                None
            } else {
                Some(list)
            },
            None => None,
        }
    }

    fn empty_to_none(self) -> (kept: Option<Vec<X>>) {
        match self {
            None => None,
            Some(list) => if list.is_empty() {
                None
            } else {
                Some(list)
            },
        }
    }
}

impl<'a, X> EmptyToNone<&'a Vec<X>> for Option<&'a Vec<X>> {
    open spec fn emptied(self) -> Option<&'a Vec<X>> {
        match self {
            Some(list) => if list@.len() == 0 {
                None
            } else {
                Some(list)
            },
            None => None,
        }
    }

    fn empty_to_none(self) -> (kept: Option<&'a Vec<X>>) {
        match self {
            None => None,
            Some(list) => if list.is_empty() {
                None
            } else {
                Some(list)
            },
        }
    }
}

} // verus!

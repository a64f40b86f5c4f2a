//! Text as sequences of characters: the small vocabulary of string operations
//! the rest of the crate is specified with, and verified implementations of
//! them over `Vec<char>`.

use vstd::prelude::*;

verus! {

/// The views of a sequence of strings.
pub open spec fn strs(v: Seq<String>) -> Seq<Seq<char>> {
    Seq::new(v.len(), |i: int| v[i]@)
}

/// `String::push` appends one character at the end.
pub assume_specification[ String::push ](s: &mut String, ch: char)
    ensures
        final(s)@ == old(s)@.push(ch),
;

/// Whether a character has the Unicode `White_Space` property, as
/// `char::is_whitespace` reports it.
pub uninterp spec fn is_whitespace(c: char) -> bool;

/// `char::is_whitespace` is a function of the character alone; its result is
/// what the contracts call [`is_whitespace`].
pub assume_specification[ char::is_whitespace ](c: char) -> (b: bool)
    ensures
        b == is_whitespace(c),
;

/// The characters of a string slice, in order.
pub fn to_chars(s: &str) -> (out: Vec<char>)
    ensures
        out@ == s@,
{
    let mut out: Vec<char> = Vec::new();
    for c in it: s.chars()
        invariant
            out@ == s@.take(it.index() as int),
            it.seq() == s@,
    {
        out.push(c);
    }
    out
}

/// The string made of the characters `chars[from..to]`.
pub(crate) fn from_chars(chars: &Vec<char>, from: usize, to: usize) -> (s: String)
    requires
        from <= to <= chars.len(),
    ensures
        s@ == chars@.subrange(from as int, to as int),
{
    let mut s = String::new();
    let mut i: usize = from;
    while i < to
        invariant
            from <= i <= to <= chars.len(),
            s@ == chars@.subrange(from as int, i as int),
        decreases to - i,
    {
        s.push(chars[i]);
        i += 1;
    }
    s
}

/// The string made of all of `chars`.
pub fn string_of(chars: &Vec<char>) -> (s: String)
    ensures
        s@ == chars@,
{
    let s = from_chars(chars, 0, chars.len());
    assert(chars@.subrange(0, chars.len() as int) == chars@);
    s
}

/// Whether two string slices hold the same characters.
pub fn str_eq(a: &str, b: &str) -> (same: bool)
    ensures
        same == (a@ == b@),
{
    let x = to_chars(a);
    let y = to_chars(b);
    chars_eq(&x, &y)
}

/// Whether two character vectors are equal.
pub fn chars_eq(a: &Vec<char>, b: &Vec<char>) -> (same: bool)
    ensures
        same == (a@ == b@),
{
    if a.len() != b.len() {
        return false;
    }
    let mut i: usize = 0;
    while i < a.len()
        invariant
            i <= a.len(),
            a.len() == b.len(),
            a@.take(i as int) == b@.take(i as int),
        decreases a.len() - i,
    {
        if a[i] != b[i] {
            return false;
        }
        assert(a@.take(i + 1) == a@.take(i as int).push(a@[i as int]));
        assert(b@.take(i + 1) == b@.take(i as int).push(b@[i as int]));
        i += 1;
    }
    assert(a@.take(a.len() as int) == a@);
    assert(b@.take(b.len() as int) == b@);
    true
}


/// The views of a sequence of character vectors.
pub open spec fn rows(v: Seq<Vec<char>>) -> Seq<Seq<char>> {
    Seq::new(v.len(), |i: int| v[i]@)
}

/// A copy of `chars[from..to]`.
pub(crate) fn sub_chars(chars: &Vec<char>, from: usize, to: usize) -> (out: Vec<char>)
    requires
        from <= to <= chars.len(),
    ensures
        out@ == chars@.subrange(from as int, to as int),
{
    let mut out: Vec<char> = Vec::new();
    let mut i: usize = from;
    while i < to
        invariant
            from <= i <= to <= chars.len(),
            out@ == chars@.subrange(from as int, i as int),
        decreases to - i,
    {
        out.push(chars[i]);
        i += 1;
    }
    out
}

/// Appends `tail` to `chars`.
pub fn push_chars(chars: &mut Vec<char>, tail: &Vec<char>)
    ensures
        final(chars)@ == old(chars)@ + tail@,
{
    let mut i: usize = 0;
    while i < tail.len()
        invariant
            i <= tail.len(),
            chars@ == old(chars)@ + tail@.take(i as int),
        decreases tail.len() - i,
    {
        chars.push(tail[i]);
        i += 1;
    }
    assert(tail@.take(tail.len() as int) == tail@);
}

/// A set of characters that trimming can remove from the ends of a text.
#[derive(Clone, Copy, Debug)]
pub enum CharClass {
    /// The characters with the Unicode `White_Space` property.
    Whitespace,
    /// `#` and the space character: what surrounds the name in a heading line.
    HeadingMark,
    /// The slash.
    Slash,
}

impl CharClass {
    /// Whether `c` belongs to the class.
    pub open spec fn has(self, c: char) -> bool {
        match self {
            CharClass::Whitespace => is_whitespace(c),
            CharClass::HeadingMark => c == '#' || c == ' ',
            CharClass::Slash => c == '/',
        }
    }

    /// Whether `c` belongs to the class.
    pub fn contains(self, c: char) -> (b: bool)
        ensures
            b == self.has(c),
    {
        match self {
            CharClass::Whitespace => c.is_whitespace(),
            CharClass::HeadingMark => c == '#' || c == ' ',
            CharClass::Slash => c == '/',
        }
    }
}

/// How many characters at the start of `s` belong to `class`.
pub open spec fn leading(s: Seq<char>, class: CharClass) -> nat
    decreases s.len(),
{
    if s.len() > 0 && class.has(s[0]) {
        1 + leading(s.skip(1), class)
    } else {
        0
    }
}

/// How many characters at the end of `s` belong to `class`.
pub open spec fn trailing(s: Seq<char>, class: CharClass) -> nat
    decreases s.len(),
{
    if s.len() > 0 && class.has(s.last()) {
        1 + trailing(s.drop_last(), class)
    } else {
        0
    }
}

/// `s` without its leading characters of `class`.
pub open spec fn trim_start(s: Seq<char>, class: CharClass) -> Seq<char> {
    s.skip(leading(s, class) as int)
}

/// `s` without its trailing characters of `class`.
pub open spec fn trim_end(s: Seq<char>, class: CharClass) -> Seq<char> {
    s.take(s.len() - trailing(s, class))
}

/// `s` without the characters of `class` at either end.
pub open spec fn trim(s: Seq<char>, class: CharClass) -> Seq<char> {
    trim_end(trim_start(s, class), class)
}

/// A position after a run of class characters, at the end of the text or
/// before a character outside the class, is `leading`.
pub proof fn lemma_leading_is(s: Seq<char>, class: CharClass, k: int)
    requires
        0 <= k <= s.len(),
        forall|i: int| 0 <= i < k ==> class.has(#[trigger] s[i]),
        k < s.len() ==> !class.has(s[k]),
    ensures
        leading(s, class) == k,
    decreases k,
{
    if k > 0 {
        let rest = s.skip(1);
        assert forall|i: int| 0 <= i < k - 1 implies class.has(#[trigger] rest[i]) by {
            assert(rest[i] == s[i + 1]);
        }
        lemma_leading_is(rest, class, k - 1);
    }
}

/// A run of class characters that ends the text, with a character outside
/// the class or nothing before it, has the length `trailing`.
pub proof fn lemma_trailing_is(s: Seq<char>, class: CharClass, k: int)
    requires
        0 <= k <= s.len(),
        forall|i: int| s.len() - k <= i < s.len() ==> class.has(#[trigger] s[i]),
        k < s.len() ==> !class.has(s[s.len() - k - 1]),
    ensures
        trailing(s, class) == k,
    decreases k,
{
    if k > 0 {
        let rest = s.drop_last();
        assert forall|i: int| rest.len() - (k - 1) <= i < rest.len() implies class.has(
            #[trigger] rest[i],
        ) by {
            assert(rest[i] == s[i]);
        }
        lemma_trailing_is(rest, class, k - 1);
    }
}

/// `chars` without its leading characters of `class`.
pub fn trim_start_chars(chars: &Vec<char>, class: CharClass) -> (out: Vec<char>)
    ensures
        out@ == trim_start(chars@, class),
{
    let mut i: usize = 0;
    while i < chars.len() && class.contains(chars[i])
        invariant
            i <= chars.len(),
            forall|j: int| 0 <= j < i ==> class.has(#[trigger] chars@[j]),
        decreases chars.len() - i,
    {
        i += 1;
    }
    proof {
        lemma_leading_is(chars@, class, i as int);
    }
    sub_chars(chars, i, chars.len())
}

/// `chars` without its trailing characters of `class`.
pub fn trim_end_chars(chars: &Vec<char>, class: CharClass) -> (out: Vec<char>)
    ensures
        out@ == trim_end(chars@, class),
{
    let mut n: usize = chars.len();
    while n > 0 && class.contains(chars[n - 1])
        invariant
            n <= chars.len(),
            forall|j: int| n <= j < chars.len() ==> class.has(#[trigger] chars@[j]),
        decreases n,
    {
        n -= 1;
    }
    proof {
        lemma_trailing_is(chars@, class, chars.len() - n);
    }
    sub_chars(chars, 0, n)
}

/// `chars` without the characters of `class` at either end.
pub fn trim_chars(chars: &Vec<char>, class: CharClass) -> (out: Vec<char>)
    ensures
        out@ == trim(chars@, class),
{
    let start = trim_start_chars(chars, class);
    trim_end_chars(&start, class)
}

/// The position of the first line feed in `s`, or the length of `s` if it
/// holds none.
pub open spec fn first_newline(s: Seq<char>) -> nat
    decreases s.len(),
{
    if s.len() == 0 || s[0] == '\n' {
        0
    } else {
        1 + first_newline(s.skip(1))
    }
}

/// A line without the carriage return that ended it, if one did.
pub open spec fn strip_cr(line: Seq<char>) -> Seq<char> {
    if line.len() > 0 && line.last() == '\r' {
        line.drop_last()
    } else {
        line
    }
}

/// The lines of a text. A line ends at a line feed, or at a carriage return
/// directly followed by one; neither belongs to the line. What follows the
/// last line feed is a line of its own unless it is empty.
pub open spec fn lines(s: Seq<char>) -> Seq<Seq<char>>
    decreases s.len(),
{
    if s.len() == 0 {
        Seq::empty()
    } else if first_newline(s) >= s.len() {
        seq![s]
    } else {
        seq![strip_cr(s.take(first_newline(s) as int))] + lines(
            s.skip(first_newline(s) as int + 1),
        )
    }
}

/// A position that no line feed precedes, at the end of the text or at a
/// line feed, is `first_newline`.
pub proof fn lemma_first_newline_is(s: Seq<char>, k: int)
    requires
        0 <= k <= s.len(),
        forall|i: int| 0 <= i < k ==> #[trigger] s[i] != '\n',
        k < s.len() ==> s[k] == '\n',
    ensures
        first_newline(s) == k,
    decreases k,
{
    if k > 0 {
        let rest = s.skip(1);
        assert forall|i: int| 0 <= i < k - 1 implies #[trigger] rest[i] != '\n' by {
            assert(rest[i] == s[i + 1]);
        }
        lemma_first_newline_is(rest, k - 1);
    }
}

/// The lines of `chars`.
pub fn split_lines(chars: &Vec<char>) -> (out: Vec<Vec<char>>)
    ensures
        rows(out@) == lines(chars@),
{
    let mut out: Vec<Vec<char>> = Vec::new();
    let mut start: usize = 0;
    assert(chars@.skip(0) == chars@);
    while start < chars.len()
        invariant
            start <= chars.len(),
            lines(chars@) == rows(out@) + lines(chars@.skip(start as int)),
        decreases chars.len() - start,
    {
        let ghost rest = chars@.skip(start as int);
        let ghost before = rows(out@);
        let mut end: usize = start;
        while end < chars.len() && chars[end] != '\n'
            invariant
                start <= end <= chars.len(),
                forall|j: int| start <= j < end ==> #[trigger] chars@[j] != '\n',
            decreases chars.len() - end,
        {
            end += 1;
        }
        proof {
            assert forall|i: int| 0 <= i < end - start implies #[trigger] rest[i] != '\n' by {
                assert(rest[i] == chars@[start + i]);
            }
            lemma_first_newline_is(rest, end - start);
            assert(rest.take(end - start) == chars@.subrange(start as int, end as int));
        }
        if end == chars.len() {
            let line = sub_chars(chars, start, end);
            proof {
                assert(line@ == rest);
                assert(lines(rest) == seq![rest]);
                assert(chars@.skip(end as int).len() == 0);
            }
            out.push(line);
            assert(rows(out@) == before + seq![rest]);
            start = end;
        } else {
            let line = if end > start && chars[end - 1] == '\r' {
                sub_chars(chars, start, end - 1)
            } else {
                sub_chars(chars, start, end)
            };
            proof {
                let whole = chars@.subrange(start as int, end as int);
                if end > start && chars@[end - 1] == '\r' {
                    assert(whole.last() == '\r');
                    assert(whole.drop_last() == chars@.subrange(start as int, end - 1));
                }
                assert(line@ == strip_cr(whole));
                assert(rest.skip(end - start + 1) == chars@.skip(end + 1));
            }
            out.push(line);
            assert(rows(out@) == before + seq![line@]);
            start = end + 1;
        }
    }
    assert(chars@.skip(start as int).len() == 0);
    assert(rows(out@) + Seq::<Seq<char>>::empty() == rows(out@));
    out
}

/// Whether `pattern` stands in `s` at position `at`.
pub open spec fn occurs_at(s: Seq<char>, at: int, pattern: Seq<char>) -> bool {
    0 <= at && at + pattern.len() <= s.len() && s.subrange(at, at + pattern.len()) == pattern
}

/// `s` with each occurrence of `from` replaced by `to`, found from left to
/// right; an occurrence begins only after the one before it has ended. An
/// empty `from` occurs nowhere.
pub open spec fn replace(s: Seq<char>, from: Seq<char>, to: Seq<char>) -> Seq<char>
    decreases s.len(),
{
    if from.len() == 0 || s.len() < from.len() {
        s
    } else if occurs_at(s, 0, from) {
        to + replace(s.skip(from.len() as int), from, to)
    } else {
        seq![s[0]] + replace(s.skip(1), from, to)
    }
}

/// Whether `pattern` stands in `chars` at position `at`.
pub fn occurs_at_chars(chars: &Vec<char>, at: usize, pattern: &Vec<char>) -> (found: bool)
    ensures
        found == occurs_at(chars@, at as int, pattern@),
{
    if at > chars.len() || pattern.len() > chars.len() - at {
        return false;
    }
    let mut i: usize = 0;
    while i < pattern.len()
        invariant
            i <= pattern.len(),
            at + pattern.len() <= chars.len(),
            forall|j: int| 0 <= j < i ==> chars@[at + j] == #[trigger] pattern@[j],
        decreases pattern.len() - i,
    {
        if chars[at + i] != pattern[i] {
            proof {
                let window = chars@.subrange(at as int, at + pattern.len());
                assert(window[i as int] != pattern@[i as int]);
            }
            return false;
        }
        i += 1;
    }
    assert(chars@.subrange(at as int, at + pattern.len()) == pattern@);
    true
}

/// `chars` with each occurrence of `from` replaced by `to`.
pub fn replace_chars(chars: &Vec<char>, from: &Vec<char>, to: &Vec<char>) -> (out: Vec<char>)
    ensures
        out@ == replace(chars@, from@, to@),
{
    let mut out: Vec<char> = Vec::new();
    if from.len() == 0 {
        push_chars(&mut out, chars);
        return out;
    }
    let mut i: usize = 0;
    assert(chars@.skip(0) == chars@);
    while i < chars.len()
        invariant
            i <= chars.len(),
            from.len() > 0,
            replace(chars@, from@, to@) == out@ + replace(chars@.skip(i as int), from@, to@),
        decreases chars.len() - i,
    {
        let ghost rest = chars@.skip(i as int);
        let found = occurs_at_chars(chars, i, from);
        proof {
            if i + from.len() <= chars.len() {
                assert(rest.subrange(0, from.len() as int) == chars@.subrange(
                    i as int,
                    i + from.len(),
                ));
            }
            assert(found == occurs_at(rest, 0, from@));
        }
        if found {
            proof {
                assert(rest.skip(from.len() as int) == chars@.skip(i + from.len()));
            }
            push_chars(&mut out, to);
            i += from.len();
        } else if chars.len() - i < from.len() {
            proof {
                assert(replace(rest, from@, to@) == rest);
                assert(chars@.skip(chars.len() as int).len() == 0);
            }
            let tail = sub_chars(chars, i, chars.len());
            push_chars(&mut out, &tail);
            i = chars.len();
        } else {
            proof {
                assert(rest.skip(1) == chars@.skip(i + 1));
                assert(rest[0] == chars@[i as int]);
            }
            out.push(chars[i]);
            i += 1;
        }
    }
    assert(chars@.skip(i as int).len() == 0);
    out
}

/// Whether `chars` begins with `prefix`.
pub fn starts_with_chars(chars: &Vec<char>, prefix: &Vec<char>) -> (yes: bool)
    ensures
        yes == prefix@.is_prefix_of(chars@),
{
    occurs_at_chars(chars, 0, prefix)
}

/// Whether `chars` ends with `suffix`.
pub fn ends_with_chars(chars: &Vec<char>, suffix: &Vec<char>) -> (yes: bool)
    ensures
        yes == suffix@.is_suffix_of(chars@),
{
    if suffix.len() > chars.len() {
        return false;
    }
    occurs_at_chars(chars, chars.len() - suffix.len(), suffix)
}


/// The first position of an element is where it stands with no equal
/// element before it.
pub proof fn lemma_index_of_first_is<A>(s: Seq<A>, a: A, k: int)
    requires
        0 <= k < s.len(),
        s[k] == a,
        forall|j: int| 0 <= j < k ==> s[j] != a,
    ensures
        s.index_of_first(a) == Some(k),
{
    s.index_of_first_ensures(a);
    assert(s.contains(a));
}

/// An element that stands nowhere has no first position.
pub proof fn lemma_index_of_first_none<A>(s: Seq<A>, a: A)
    requires
        forall|j: int| 0 <= j < s.len() ==> s[j] != a,
    ensures
        s.index_of_first(a) is None,
        !s.contains(a),
{
    s.index_of_first_ensures(a);
}

/// A copy of an optional string.
pub fn clone_text(text: &Option<String>) -> (copy: Option<String>)
    ensures
        copy == *text,
{
    match text {
        Some(s) => Some(s.clone()),
        None => None,
    }
}

/// A copy of a vector of strings.
pub fn clone_strings(strings: &Vec<String>) -> (copy: Vec<String>)
    ensures
        copy@ == strings@,
{
    let mut copy: Vec<String> = Vec::new();
    let mut i: usize = 0;
    while i < strings.len()
        invariant
            i <= strings.len(),
            copy@ == strings@.take(i as int),
        decreases strings.len() - i,
    {
        copy.push(strings[i].clone());
        i += 1;
    }
    assert(strings@.take(strings.len() as int) == strings@);
    copy
}

/// The position of the first string equal to `name`, if there is one.
pub fn find_string(strings: &Vec<String>, name: &str) -> (at: Option<usize>)
    ensures
        match at {
            Some(i) => strs(strings@).index_of_first(name@) == Some(i as int),
            None => strs(strings@).index_of_first(name@) is None,
        },
{
    let mut i: usize = 0;
    while i < strings.len()
        invariant
            i <= strings.len(),
            forall|j: int| 0 <= j < i ==> strs(strings@)[j] != name@,
        decreases strings.len() - i,
    {
        if str_eq(strings[i].as_str(), name) {
            proof {
                lemma_index_of_first_is(strs(strings@), name@, i as int);
            }
            return Some(i);
        }
        i += 1;
    }
    proof {
        lemma_index_of_first_none(strs(strings@), name@);
    }
    None
}


/// Whether no string stands twice in `strings`.
pub fn all_distinct(strings: &Vec<String>) -> (distinct: bool)
    ensures
        distinct == strs(strings@).no_duplicates(),
{
    let ghost all = strs(strings@);
    let mut i: usize = 0;
    while i < strings.len()
        invariant
            i <= strings.len(),
            all == strs(strings@),
            all.take(i as int).no_duplicates(),
        decreases strings.len() - i,
    {
        let first = find_string(strings, strings[i].as_str());
        proof {
            all.index_of_first_ensures(all[i as int]);
        }
        match first {
            Some(k) => {
                if k != i {
                    assert(all[k as int] == all[i as int]);
                    return false;
                }
            },
            None => {},
        }
        proof {
            let next = all.take(i + 1);
            assert forall|a: int, b: int| 0 <= a < next.len() && 0 <= b < next.len() && a
                != b implies next[a] != next[b] by {
                if a < i && b < i {
                    assert(all.take(i as int)[a] != all.take(i as int)[b]);
                }
            }
        }
        i += 1;
    }
    assert(all.take(strings.len() as int) == all);
    true
}


/// The lowercase form of a text, as `str::to_lowercase` gives it.
pub uninterp spec fn lowercase(s: Seq<char>) -> Seq<char>;

/// `str::to_lowercase` is a function of the text alone; its result is what
/// the contracts call [`lowercase`].
pub assume_specification[ str::to_lowercase ](s: &str) -> (lower: String)
    ensures
        lower@ == lowercase(s@),
;

/// The uppercase form of a text, as `str::to_uppercase` gives it.
pub uninterp spec fn uppercase(s: Seq<char>) -> Seq<char>;

/// `str::to_uppercase` is a function of the text alone; its result is what
/// the contracts call [`uppercase`].
pub assume_specification[ str::to_uppercase ](s: &str) -> (upper: String)
    ensures
        upper@ == uppercase(s@),
;

/// The uppercase form of one character, which may be more than one
/// character long, as `char::to_uppercase` gives it.
pub uninterp spec fn char_uppercase(c: char) -> Seq<char>;

/// `char::to_uppercase` yields the characters of the uppercase form of `c`;
/// they are collected into a string. The result is what the contracts call
/// [`char_uppercase`].
#[verifier::external_body]
fn uppercase_of_char(c: char) -> (upper: String)
    ensures
        upper@ == char_uppercase(c),
{
    c.to_uppercase().collect()
}

/// A text with its first character in uppercase.
pub open spec fn capitalized(s: Seq<char>) -> Seq<char> {
    if s.len() == 0 {
        s
    } else {
        char_uppercase(s[0]) + s.skip(1)
    }
}

/// `input` with its first character in uppercase.
pub fn ucfirst(input: &str) -> (out: String)
    ensures
        out@ == capitalized(input@),
{
    let chars = to_chars(input);
    if chars.len() == 0 {
        return String::new();
    }
    let mut out = to_chars(uppercase_of_char(chars[0]).as_str());
    let rest = sub_chars(&chars, 1, chars.len());
    push_chars(&mut out, &rest);
    string_of(&out)
}

} // verus!

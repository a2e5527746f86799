//! A single line of text, addressed by character index.
use vstd::prelude::*;

use crate::error::EditorError;

verus! {

/// Relies on `String::push`: appends one character to the string.
#[verifier::external_body]
pub(crate) fn push_char(s: &mut String, c: char)
    ensures
        final(s)@ == old(s)@.push(c),
{
    s.push(c)
}

/// A line of Unicode scalar values with a dirty marker that every mutation sets.
pub struct Line {
    chars: Vec<char>,
    edited: bool,
}

impl View for Line {
    type V = Seq<char>;

    closed spec fn view(&self) -> Seq<char> {
        self.chars@
    }
}

impl Line {
    /// Whether the line has been mutated since it was made.
    pub closed spec fn spec_edited(&self) -> bool {
        self.edited
    }

    /// An empty, unedited line.
    pub fn new() -> (r: Line)
        ensures
            r@ == Seq::<char>::empty(),
            !r.spec_edited(),
    {
        Line { chars: Vec::new(), edited: false }
    }

    /// An unedited line holding the characters of `text`.
    pub fn from_text(text: &str) -> (r: Line)
        ensures
            r@ == text@,
            !r.spec_edited(),
    {
        let n = text.unicode_len();
        let mut chars: Vec<char> = Vec::new();
        let mut i: usize = 0;
        while i < n
            invariant
                n == text@.len(),
                i <= n,
                chars@ == text@.subrange(0, i as int),
            decreases n - i,
        {
            chars.push(text.get_char(i));
            i = i + 1;
            assert(chars@ =~= text@.subrange(0, i as int));
        }
        assert(chars@ =~= text@);
        Line { chars, edited: false }
    }

    /// The number of characters.
    pub fn len(&self) -> (r: usize)
        ensures
            r == self@.len(),
    {
        self.chars.len()
    }

    pub fn is_empty(&self) -> (r: bool)
        ensures
            r == (self@.len() == 0),
    {
        self.chars.len() == 0
    }

    pub fn is_edited(&self) -> (r: bool)
        ensures
            r == self.spec_edited(),
    {
        self.edited
    }

    /// The characters of the line.
    pub fn chars(&self) -> (r: &Vec<char>)
        ensures
            r@ == self@,
    {
        &self.chars
    }

    /// Mutable access to the characters; the line counts as edited.
    pub fn chars_mut(&mut self) -> (r: &mut Vec<char>)
        ensures
            r@ == old(self)@,
            final(self)@ == final(r)@,
            final(self).spec_edited(),
    {
        self.edited = true;
        &mut self.chars
    }

    /// The line as a `String`.
    pub fn to_text(&self) -> (r: String)
        ensures
            r@ == self@,
    {
        let mut s = String::new();
        let n = self.chars.len();
        let mut i: usize = 0;
        while i < n
            invariant
                n == self@.len(),
                i <= n,
                s@ == self@.subrange(0, i as int),
            decreases n - i,
        {
            push_char(&mut s, self.chars[i]);
            i = i + 1;
            assert(s@ =~= self@.subrange(0, i as int));
        }
        assert(s@ =~= self@);
        s
    }

    /// Inserts `c` before the character at `index` (at the end when `index`
    /// is the length).
    pub fn insert(&mut self, index: usize, c: char) -> (r: Result<(), EditorError>)
        ensures
            index <= old(self)@.len() ==> {
                &&& r is Ok
                &&& final(self)@ == old(self)@.insert(index as int, c)
                &&& final(self).spec_edited()
            },
            index > old(self)@.len() ==> r == Err::<(), EditorError>(
                EditorError::IndexOutOfRange(index),
            ) && *final(self) == *old(self),
    {
        if index > self.chars.len() {
            return Err(EditorError::IndexOutOfRange(index));
        }
        self.chars.insert(index, c);
        self.edited = true;
        Ok(())
    }

    /// Inserts the characters of `text` before the character at `index`.
    pub fn insert_text(&mut self, index: usize, text: &str) -> (r: Result<(), EditorError>)
        ensures
            index <= old(self)@.len() ==> {
                &&& r is Ok
                &&& final(self)@ == old(self)@.subrange(0, index as int) + text@ + old(self)@.subrange(
                    index as int,
                    old(self)@.len() as int,
                )
                &&& final(self).spec_edited()
            },
            index > old(self)@.len() ==> r == Err::<(), EditorError>(
                EditorError::IndexOutOfRange(index),
            ) && *final(self) == *old(self),
    {
        if index > self.chars.len() {
            return Err(EditorError::IndexOutOfRange(index));
        }
        let mut tail = self.chars.split_off(index);
        let n = text.unicode_len();
        let mut i: usize = 0;
        while i < n
            invariant
                n == text@.len(),
                i <= n,
                self.chars@ == old(self)@.subrange(0, index as int) + text@.subrange(0, i as int),
            decreases n - i,
        {
            self.chars.push(text.get_char(i));
            i = i + 1;
            assert(self.chars@ =~= old(self)@.subrange(0, index as int) + text@.subrange(
                0,
                i as int,
            ));
        }
        assert(text@.subrange(0, n as int) =~= text@);
        self.chars.append(&mut tail);
        self.edited = true;
        Ok(())
    }

    /// Appends `c`.
    pub fn push(&mut self, c: char)
        ensures
            final(self)@ == old(self)@.push(c),
            final(self).spec_edited(),
    {
        self.chars.push(c);
        self.edited = true;
    }

    /// Removes and returns the last character; an empty line is left as it is.
    pub fn pop(&mut self) -> (r: Option<char>)
        ensures
            old(self)@.len() == 0 ==> r is None && *final(self) == *old(self),
            old(self)@.len() > 0 ==> {
                &&& r == Some(old(self)@.last())
                &&& final(self)@ == old(self)@.drop_last()
                &&& final(self).spec_edited()
            },
    {
        if self.chars.len() == 0 {
            return None;
        }
        self.edited = true;
        self.chars.pop()
    }

    /// Removes and returns the character at `index`.
    pub fn remove(&mut self, index: usize) -> (r: Result<char, EditorError>)
        ensures
            index < old(self)@.len() ==> {
                &&& r == Ok::<char, EditorError>(old(self)@[index as int])
                &&& final(self)@ == old(self)@.remove(index as int)
                &&& final(self).spec_edited()
            },
            index >= old(self)@.len() ==> r == Err::<char, EditorError>(
                EditorError::IndexOutOfRange(index),
            ) && *final(self) == *old(self),
    {
        if index >= self.chars.len() {
            return Err(EditorError::IndexOutOfRange(index));
        }
        self.edited = true;
        Ok(self.chars.remove(index))
    }

    /// Truncates the line at `index` and returns the rest as a new line.
    pub fn split_off(&mut self, index: usize) -> (r: Result<Line, EditorError>)
        ensures
            index <= old(self)@.len() ==> (r matches Ok(rest) && {
                &&& final(self)@ == old(self)@.subrange(0, index as int)
                &&& rest@ == old(self)@.subrange(index as int, old(self)@.len() as int)
                &&& final(self).spec_edited()
                &&& rest.spec_edited()
            }),
            index > old(self)@.len() ==> (r matches Err(e) && e == EditorError::IndexOutOfRange(
                index,
            ) && *final(self) == *old(self)),
    {
        if index > self.chars.len() {
            return Err(EditorError::IndexOutOfRange(index));
        }
        let rest = self.chars.split_off(index);
        self.edited = true;
        Ok(Line { chars: rest, edited: true })
    }

    /// A copy of the line, with the same characters and marker.
    pub fn duplicate(&self) -> (r: Line)
        ensures
            r@ == self@,
            r.spec_edited() == self.spec_edited(),
    {
        let mut chars: Vec<char> = Vec::new();
        let n = self.chars.len();
        let mut i: usize = 0;
        while i < n
            invariant
                n == self@.len(),
                i <= n,
                chars@ == self@.subrange(0, i as int),
            decreases n - i,
        {
            chars.push(self.chars[i]);
            i = i + 1;
            assert(chars@ =~= self@.subrange(0, i as int));
        }
        assert(chars@ =~= self@);
        Line { chars, edited: self.edited }
    }
}

} // verus!

//! A buffer: an ordered sequence of lines with a cursor and an id.
use vstd::prelude::*;

use crate::error::EditorError;
use crate::fonts::Font;
use crate::line::Line;

verus! {

/// An item of styled text: a character, or a style tag that applies to the
/// characters after it.
#[derive(Clone, Copy, Debug, PartialEq, Eq, Structural)]
pub enum BufferEntry {
    Text(char),
    Font(Font),
}

impl From<char> for BufferEntry {
    fn from(c: char) -> (r: BufferEntry)
        ensures
            r == BufferEntry::Text(c),
    {
        BufferEntry::Text(c)
    }
}

impl vstd::std_specs::convert::FromSpecImpl<char> for BufferEntry {
    open spec fn obeys_from_spec() -> bool {
        true
    }

    open spec fn from_spec(c: char) -> BufferEntry {
        BufferEntry::Text(c)
    }
}

/// The newline marker that ends every line but the last.
pub open spec fn is_newline(c: char) -> bool {
    c == '\n' || c == '\r'
}

/// Characters with no special meaning to `insert_at_cursor`.
pub open spec fn is_plain(c: char) -> bool {
    !is_newline(c) && c != '\x08' && c != '\t'
}

/// A line's text without its trailing newline marker, if it has one.
pub open spec fn without_marker(s: Seq<char>) -> Seq<char> {
    if s.len() > 0 && s.last() == '\n' {
        s.drop_last()
    } else {
        s
    }
}

/// The view of an optional path.
pub open spec fn opt_view(p: Option<String>) -> Option<Seq<char>> {
    match p {
        Some(s) => Some(s@),
        None => None,
    }
}

/// Mathematical model of a buffer. `line` counts from 1, `col` from 0.
pub struct BufferView {
    pub id: u32,
    pub path: Option<Seq<char>>,
    pub lines: Seq<Seq<char>>,
    pub line: int,
    pub col: int,
}

impl BufferView {
    pub open spec fn wf(self) -> bool {
        &&& self.lines.len() >= 1
        &&& 1 <= self.line <= self.lines.len()
        &&& 0 <= self.col <= self.current().len()
    }

    /// The line the cursor is on.
    pub open spec fn current(self) -> Seq<char> {
        self.lines[self.line - 1]
    }

    /// Room left by the machine's integers for one more edit.
    pub open spec fn has_room(self) -> bool {
        &&& self.current().len() + 3 <= usize::MAX
        &&& self.lines.len() < usize::MAX
    }

    /// The buffer after typing `c` at the cursor.
    pub open spec fn after_insert(self, c: char) -> BufferView {
        let l = self.line - 1;
        let cur = self.current();
        let col = self.col;
        if is_newline(c) {
            BufferView {
                lines: self.lines.update(l, cur.subrange(0, col).push('\n')).insert(
                    l + 1,
                    cur.subrange(col, cur.len() as int),
                ),
                line: self.line + 1,
                col: 0,
                ..self
            }
        } else if c == '\x08' {
            if cur.len() == 0 {
                if self.line > 1 {
                    let prev = without_marker(self.lines[l - 1]);
                    BufferView {
                        lines: self.lines.remove(l).update(l - 1, prev),
                        line: self.line - 1,
                        col: prev.len() as int,
                        ..self
                    }
                } else {
                    self
                }
            } else if col > 0 {
                BufferView { lines: self.lines.update(l, cur.remove(col - 1)), col: col - 1, ..self }
            } else {
                self
            }
        } else if c == '\t' {
            BufferView {
                lines: self.lines.update(
                    l,
                    cur.subrange(0, col) + seq![' ', ' ', ' '] + cur.subrange(col, cur.len() as int),
                ),
                col: col + 3,
                ..self
            }
        } else {
            BufferView { lines: self.lines.update(l, cur.insert(col, c)), col: col + 1, ..self }
        }
    }
}

/// A text buffer: at least one line, a cursor inside it, and an id.
pub struct Buffer {
    id: u32,
    path: Option<String>,
    lines: Vec<Line>,
    cursor_pos: (usize, usize),
}

impl View for Buffer {
    type V = BufferView;

    closed spec fn view(&self) -> BufferView {
        BufferView {
            id: self.id,
            path: opt_view(self.path),
            lines: self.lines@.map_values(|l: Line| l@),
            line: self.cursor_pos.0 as int,
            col: self.cursor_pos.1 as int,
        }
    }
}

impl Buffer {
    /// Whether the line at `i` (from 0) is marked edited.
    pub closed spec fn line_edited(&self, i: int) -> bool {
        self.lines@[i].spec_edited()
    }

    /// An empty buffer: one empty line, the cursor at line 1, column 0.
    pub fn new(id: u32) -> (r: Buffer)
        ensures
            r@ == (BufferView {
                id,
                path: None,
                lines: seq![Seq::<char>::empty()],
                line: 1,
                col: 0,
            }),
            r@.wf(),
    {
        let mut lines: Vec<Line> = Vec::new();
        lines.push(Line::new());
        let r = Buffer { id, path: None, lines, cursor_pos: (1, 0) };
        assert(r@.lines =~= seq![Seq::<char>::empty()]);
        r
    }

    pub fn get_id(&self) -> (r: u32)
        ensures
            r == self@.id,
    {
        self.id
    }

    /// The file this buffer belongs to, if any.
    pub fn get_path(&self) -> (r: Option<String>)
        ensures
            match r {
                Some(p) => self@.path == Some(p@),
                None => self@.path is None,
            },
    {
        match &self.path {
            Some(p) => Some(p.clone()),
            None => None,
        }
    }

    /// Types `c` at the cursor. A newline splits the line after a newline
    /// marker; a backspace (`\x08`) deletes the character before the cursor,
    /// or an empty line; a tab inserts three spaces; anything else is
    /// inserted as it is.
    pub fn insert_at_cursor(&mut self, c: char)
        requires
            old(self)@.wf(),
            old(self)@.has_room(),
        ensures
            final(self)@ == old(self)@.after_insert(c),
            final(self)@.wf(),
            final(self)@ != old(self)@ && final(self)@.lines.len() >= old(self)@.lines.len()
                ==> final(self).line_edited(final(self)@.line - 1),
            is_plain(c) ==> {
                &&& final(self)@.line == old(self)@.line
                &&& final(self)@.current().len() == old(self)@.current().len() + 1
                &&& final(self)@.col == old(self)@.col + 1
            },
            is_newline(c) ==> {
                &&& final(self)@.lines.len() == old(self)@.lines.len() + 1
                &&& final(self)@.line == old(self)@.line + 1
                &&& final(self)@.col == 0
                &&& final(self)@.lines[old(self)@.line - 1].last() == '\n'
                &&& final(self)@.lines[old(self)@.line - 1].drop_last() + final(self)@.current()
                    == old(self)@.current()
            },
            c == '\x08' && old(self)@.current().len() == 0 && old(self)@.line > 1 ==> {
                &&& final(self)@.lines.len() == old(self)@.lines.len() - 1
                &&& final(self)@.line == old(self)@.line - 1
                &&& final(self)@.current() == without_marker(old(self)@.lines[old(self)@.line - 2])
                &&& final(self)@.col == without_marker(old(self)@.lines[old(self)@.line - 2]).len()
            },
            c == '\x08' && old(self)@.current().len() == 0 && old(self)@.line == 1 ==> *final(self)
                == *old(self),
    {
        let ghost before = self@;
        let li = self.cursor_pos.0 - 1;
        let col = self.cursor_pos.1;
        assert(self.lines@[li as int]@ == before.current());
        if c == '\n' || c == '\r' {
            let _ = self.lines[li].insert(col, '\n');
            let rest = self.lines[li].split_off(col + 1);
            match rest {
                Ok(rest) => {
                    self.lines.insert(li + 1, rest);
                },
                Err(_) => {},
            }
            self.cursor_pos = (li + 2, 0);
            proof {
                let cur = before.current();
                assert(cur.insert(col as int, '\n').subrange(0, col + 1) =~= cur.subrange(
                    0,
                    col as int,
                ).push('\n'));
                assert(cur.insert(col as int, '\n').subrange(col + 1, cur.len() + 1 as int)
                    =~= cur.subrange(col as int, cur.len() as int));
                assert(self@.lines =~= before.after_insert(c).lines);
                assert(before.after_insert(c).lines[li as int].drop_last() =~= cur.subrange(
                    0,
                    col as int,
                ));
                assert(cur.subrange(0, col as int) + cur.subrange(col as int, cur.len() as int)
                    =~= cur);
            }
        } else if c == '\x08' {
            if self.lines[li].is_empty() {
                if li > 0 {
                    self.lines.remove(li);
                    let n = self.lines[li - 1].len();
                    if n > 0 && self.lines[li - 1].chars()[n - 1] == '\n' {
                        let _ = self.lines[li - 1].pop();
                    }
                    let new_col = self.lines[li - 1].len();
                    self.cursor_pos = (li, new_col);
                    proof {
                        assert(self@.lines =~= before.after_insert(c).lines);
                    }
                }
            } else if col > 0 {
                let _ = self.lines[li].remove(col - 1);
                self.cursor_pos = (li + 1, col - 1);
                proof {
                    assert(self@.lines =~= before.after_insert(c).lines);
                }
            }
        } else if c == '\t' {
            let _ = self.lines[li].insert_text(col, "   ");
            self.cursor_pos = (li + 1, col + 3);
            proof {
                reveal_strlit("   ");
                assert("   "@ =~= seq![' ', ' ', ' ']);
                assert(self@.lines =~= before.after_insert(c).lines);
            }
        } else {
            let _ = self.lines[li].insert(col, c);
            self.cursor_pos = (li + 1, col + 1);
            proof {
                assert(self@.lines =~= before.after_insert(c).lines);
            }
        }
    }

    /// Inserts `line` above the cursor's line; the cursor stays on its line.
    pub fn insert_line_above(&mut self, line: Line)
        requires
            old(self)@.wf(),
            old(self)@.lines.len() < usize::MAX,
        ensures
            final(self)@ == (BufferView {
                lines: old(self)@.lines.insert(old(self)@.line - 1, line@),
                line: old(self)@.line + 1,
                ..old(self)@
            }),
            final(self)@.wf(),
    {
        let ghost before = self@;
        let li = self.cursor_pos.0 - 1;
        self.lines.insert(li, line);
        self.cursor_pos = (li + 2, self.cursor_pos.1);
        assert(self@.lines =~= before.lines.insert(li as int, line@));
    }

    /// Inserts `line` below the cursor's line; the cursor does not move.
    pub fn insert_line_below(&mut self, line: Line)
        requires
            old(self)@.wf(),
        ensures
            final(self)@ == (BufferView {
                lines: old(self)@.lines.insert(old(self)@.line, line@),
                ..old(self)@
            }),
            final(self)@.wf(),
    {
        let ghost before = self@;
        let li = self.cursor_pos.0;
        self.lines.insert(li, line);
        assert(self@.lines =~= before.lines.insert(li as int, line@));
    }

    /// Removes the character at the cursor; there is none at the end of the line.
    pub fn delete_at_cursor(&mut self) -> (r: Result<char, EditorError>)
        requires
            old(self)@.wf(),
        ensures
            final(self)@.wf(),
            old(self)@.col < old(self)@.current().len() ==> {
                &&& r == Ok::<char, EditorError>(old(self)@.current()[old(self)@.col])
                &&& final(self)@ == (BufferView {
                    lines: old(self)@.lines.update(
                        old(self)@.line - 1,
                        old(self)@.current().remove(old(self)@.col),
                    ),
                    ..old(self)@
                })
                &&& final(self).line_edited(old(self)@.line - 1)
            },
            old(self)@.col == old(self)@.current().len() ==> r == Err::<char, EditorError>(
                EditorError::IndexOutOfRange(old(self)@.col as usize),
            ) && *final(self) == *old(self),
    {
        let ghost before = self@;
        let li = self.cursor_pos.0 - 1;
        let col = self.cursor_pos.1;
        assert(self.lines@[li as int]@ == before.current());
        if col >= self.lines[li].len() {
            return Err(EditorError::IndexOutOfRange(col));
        }
        let r = self.lines[li].remove(col);
        assert(self@.lines =~= before.lines.update(li as int, self.lines@[li as int]@));
        r
    }

    /// The line the cursor is on.
    pub fn get_current_line(&self) -> (r: &Line)
        requires
            self@.wf(),
        ensures
            r@ == self@.current(),
    {
        &self.lines[self.cursor_pos.0 - 1]
    }

    /// Mutable access to the line the cursor is on. The cursor does not
    /// move, so a caller that shortens the line below the cursor's column
    /// leaves the buffer ill-formed.
    pub fn get_current_line_mut(&mut self) -> (r: &mut Line)
        requires
            old(self)@.wf(),
        ensures
            r@ == old(self)@.current(),
            final(self)@.lines =~= old(self)@.lines.update(old(self)@.line - 1, final(r)@),
            final(self)@.line == old(self)@.line,
            final(self)@.col == old(self)@.col,
            final(self)@.id == old(self)@.id,
            final(self)@.path == old(self)@.path,
    {
        let li = self.cursor_pos.0 - 1;
        &mut self.lines[li]
    }

    /// The cursor as (line from 1, column from 0).
    pub fn get_cursor_pos(&self) -> (r: (usize, usize))
        ensures
            r.0 == self@.line,
            r.1 == self@.col,
    {
        self.cursor_pos
    }

    /// All the lines, in order.
    pub fn get_lines(&self) -> (r: &Vec<Line>)
        ensures
            r@.len() == self@.lines.len(),
            forall|i: int| 0 <= i < r@.len() ==> #[trigger] r@[i]@ == self@.lines[i],
    {
        &self.lines
    }

    /// A deep copy of the buffer, with the same id, lines and cursor.
    pub fn snapshot(&self) -> (r: Buffer)
        ensures
            r@ == self@,
    {
        let mut lines: Vec<Line> = Vec::new();
        let n = self.lines.len();
        let mut i: usize = 0;
        while i < n
            invariant
                n == self.lines@.len(),
                i <= n,
                lines@.len() == i,
                forall|j: int| 0 <= j < i ==> #[trigger] lines@[j]@ == self.lines@[j]@,
            decreases n - i,
        {
            lines.push(self.lines[i].duplicate());
            i = i + 1;
        }
        let path = match &self.path {
            Some(p) => Some(p.clone()),
            None => None,
        };
        let r = Buffer { id: self.id, path, lines, cursor_pos: self.cursor_pos };
        assert(r@.lines =~= self@.lines);
        r
    }
}

} // verus!

//! What the renderer consumes: runs of text that share a style tag.
use vstd::prelude::*;

use crate::buffer::{Buffer, BufferEntry};
use crate::fonts::Font;
use crate::line::push_char;

verus! {

/// A run of text drawn in one style.
pub struct TextRun {
    pub text: String,
    pub font: Font,
}

impl View for TextRun {
    type V = (Seq<char>, Font);

    open spec fn view(&self) -> (Seq<char>, Font) {
        (self.text@, self.font)
    }
}

pub open spec fn runs_view(v: Seq<TextRun>) -> Seq<(Seq<char>, Font)> {
    v.map_values(|r: TextRun| r@)
}

/// The runs of a sequence of entries: a first run in the normal style, a
/// new run at each style tag, and each character added to the latest run.
pub open spec fn runs(entries: Seq<BufferEntry>) -> Seq<(Seq<char>, Font)>
    decreases entries.len(),
{
    if entries.len() == 0 {
        seq![(Seq::<char>::empty(), Font::Normal)]
    } else {
        let prev = runs(entries.drop_last());
        match entries.last() {
            BufferEntry::Font(f) => prev.push((Seq::<char>::empty(), f)),
            BufferEntry::Text(c) => prev.update(
                prev.len() - 1,
                (prev.last().0.push(c), prev.last().1),
            ),
        }
    }
}

/// The characters of all lines, one after another.
pub open spec fn flatten(lines: Seq<Seq<char>>) -> Seq<char>
    decreases lines.len(),
{
    if lines.len() == 0 {
        Seq::empty()
    } else {
        flatten(lines.drop_last()) + lines.last()
    }
}

proof fn lemma_runs_nonempty(entries: Seq<BufferEntry>)
    ensures
        runs(entries).len() >= 1,
    decreases entries.len(),
{
    if entries.len() > 0 {
        lemma_runs_nonempty(entries.drop_last());
    }
}

/// Splits styled entries into runs.
pub fn runs_of(entries: &Vec<BufferEntry>) -> (r: Vec<TextRun>)
    ensures
        runs_view(r@) == runs(entries@),
{
    let mut v: Vec<TextRun> = Vec::new();
    v.push(TextRun { text: String::new(), font: Font::Normal });
    let n = entries.len();
    let mut i: usize = 0;
    assert(entries@.subrange(0, 0) =~= Seq::<BufferEntry>::empty());
    assert(runs_view(v@) =~= runs(entries@.subrange(0, 0)));
    while i < n
        invariant
            n == entries@.len(),
            i <= n,
            runs_view(v@) == runs(entries@.subrange(0, i as int)),
        decreases n - i,
    {
        let ghost prev = runs(entries@.subrange(0, i as int));
        proof {
            lemma_runs_nonempty(entries@.subrange(0, i as int));
            assert(entries@.subrange(0, i + 1 as int).drop_last() =~= entries@.subrange(
                0,
                i as int,
            ));
        }
        match entries[i] {
            BufferEntry::Font(f) => {
                v.push(TextRun { text: String::new(), font: f });
                assert(runs_view(v@) =~= prev.push((Seq::<char>::empty(), f)));
            },
            BufferEntry::Text(c) => {
                let last = v.len() - 1;
                assert(v@[last as int]@ == prev.last());
                push_char(&mut v[last].text, c);
                assert(runs_view(v@) =~= prev.update(
                    prev.len() - 1,
                    (prev.last().0.push(c), prev.last().1),
                ));
            },
        }
        i = i + 1;
    }
    assert(entries@.subrange(0, n as int) =~= entries@);
    v
}

/// The runs to draw for a buffer: its whole text, in the normal style.
pub fn section_text(display_buffer: &Buffer) -> (r: Vec<TextRun>)
    ensures
        runs_view(r@) == seq![(flatten(display_buffer@.lines), Font::Normal)],
{
    let lines = display_buffer.get_lines();
    let ghost texts = display_buffer@.lines;
    let mut text = String::new();
    let n = lines.len();
    let mut i: usize = 0;
    assert(texts.subrange(0, 0) =~= Seq::<Seq<char>>::empty());
    while i < n
        invariant
            n == texts.len(),
            lines@.len() == n,
            forall|k: int| 0 <= k < n ==> #[trigger] lines@[k]@ == texts[k],
            i <= n,
            text@ == flatten(texts.subrange(0, i as int)),
        decreases n - i,
    {
        let chars = lines[i].chars();
        let m = chars.len();
        let mut j: usize = 0;
        let ghost base = text@;
        assert(base + chars@.subrange(0, 0) =~= base);
        while j < m
            invariant
                m == chars@.len(),
                j <= m,
                text@ == base + chars@.subrange(0, j as int),
            decreases m - j,
        {
            push_char(&mut text, chars[j]);
            j = j + 1;
            assert(text@ =~= base + chars@.subrange(0, j as int));
        }
        proof {
            assert(chars@.subrange(0, m as int) =~= chars@);
            assert(texts.subrange(0, i + 1 as int).drop_last() =~= texts.subrange(0, i as int));
        }
        i = i + 1;
    }
    assert(texts.subrange(0, n as int) =~= texts);
    let mut r: Vec<TextRun> = Vec::new();
    r.push(TextRun { text, font: Font::Normal });
    assert(runs_view(r@) =~= seq![(flatten(texts), Font::Normal)]);
    r
}

} // verus!

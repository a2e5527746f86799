//! The editor: the active buffer, the background buffers, the mode, and the
//! key chains that turn key presses into commands.
use vstd::prelude::*;

use crate::buffer::{opt_view, Buffer, BufferView};
use crate::display::{flatten, runs_view, section_text, TextRun};
use crate::fonts::Font;
use crate::error::EditorError;
use crate::keymaps::{lookup, plain_key, Chain, ChainLink, ChainView, EditCommand, KeyPress, Step};
use crate::line::push_char;

verus! {

/// The editing modes. The editor starts in `Normal`.
#[derive(Clone, Copy, Debug, PartialEq, Eq, Structural)]
pub enum EditMode {
    Normal,
    Insert,
    Visual,
    Command,
}

/// The name of a mode as the status line shows it.
pub open spec fn label_of(m: EditMode) -> Seq<char> {
    match m {
        EditMode::Normal => "NORMAL"@,
        EditMode::Insert => "INSERT"@,
        EditMode::Visual => "VISUAL"@,
        EditMode::Command => "COMMAND"@,
    }
}

impl EditMode {
    /// The name of the mode as the status line shows it.
    pub fn label(&self) -> (r: &'static str)
        ensures
            r@ == label_of(*self),
    {
        match self {
            EditMode::Normal => "NORMAL",
            EditMode::Insert => "INSERT",
            EditMode::Visual => "VISUAL",
            EditMode::Command => "COMMAND",
        }
    }
}

/// The decimal digits of `n`.
pub open spec fn decimal(n: nat) -> Seq<char>
    decreases n,
{
    if n < 10 {
        seq![(n + 48) as char]
    } else {
        decimal(n / 10).push((n % 10 + 48) as char)
    }
}

/// The status line: `[MODE] [line:column]`.
pub open spec fn status_text(m: EditMode, line: nat, col: nat) -> Seq<char> {
    seq!['['] + label_of(m) + seq![']', ' ', '['] + decimal(line) + seq![':'] + decimal(col) + seq![
        ']',
    ]
}

fn push_decimal(s: &mut String, n: usize)
    ensures
        final(s)@ == old(s)@ + decimal(n as nat),
    decreases n,
{
    if n >= 10 {
        push_decimal(s, n / 10);
    }
    let d: u8 = (n % 10) as u8;
    let c = (d + 48) as char;
    push_char(s, c);
    assert(final(s)@ =~= old(s)@ + decimal(n as nat)) by {
        if n < 10 {
            assert(old(s)@.push(c) =~= old(s)@ + seq![c]);
        } else {
            assert((old(s)@ + decimal(n as nat / 10)).push(c) =~= old(s)@ + decimal(n as nat / 10).push(c));
        }
    }
}

/// The chain that a mode dispatches through; `Command` binds nothing.
pub open spec fn empty_chain() -> ChainView {
    ChainView { nodes: seq![Seq::empty()], path: Seq::empty() }
}

/// The registry's buffers have strictly increasing ids.
pub open spec fn ids_increasing(s: Seq<BufferView>) -> bool {
    forall|i: int, j: int| 0 <= i < j < s.len() ==> s[i].id < s[j].id
}

/// Some buffer of `s` has the id `id`.
pub open spec fn has_id(s: Seq<BufferView>, id: u32) -> bool {
    exists|i: int| 0 <= i < s.len() && s[i].id == id
}

/// The position in `s` of the buffer with id `id`.
pub open spec fn index_of(s: Seq<BufferView>, id: u32) -> int {
    choose|i: int| 0 <= i < s.len() && s[i].id == id
}

/// `b` inserted into `s` in order of id.
pub open spec fn sorted_insert(s: Seq<BufferView>, b: BufferView) -> Seq<BufferView>
    decreases s.len(),
{
    if s.len() == 0 {
        seq![b]
    } else if b.id < s[0].id {
        seq![b] + s
    } else {
        seq![s[0]] + sorted_insert(s.drop_first(), b)
    }
}

/// The character drawn at the cursor's position in a display copy.
pub const CURSOR_MARK: char = '\u{2588}';

proof fn lemma_sorted_insert_at(s: Seq<BufferView>, p: int, b: BufferView)
    requires
        ids_increasing(s),
        0 <= p <= s.len(),
        forall|j: int| 0 <= j < p ==> s[j].id < b.id,
        p < s.len() ==> b.id < s[p].id,
    ensures
        sorted_insert(s, b) == s.insert(p, b),
        ids_increasing(s.insert(p, b)),
    decreases s.len(),
{
    if p == 0 {
        assert(seq![b] + s =~= s.insert(0, b));
        if s.len() == 0 {
            assert(seq![b] =~= s.insert(0, b));
        }
    } else {
        let t = s.drop_first();
        assert forall|j: int| 0 <= j < p - 1 implies t[j].id < b.id by {
            assert(t[j] == s[j + 1]);
        }
        lemma_sorted_insert_at(t, p - 1, b);
        assert(seq![s[0]] + t.insert(p - 1, b) =~= s.insert(p, b));
    }
    let u = s.insert(p, b);
    assert forall|i: int, j: int| 0 <= i < j < u.len() implies u[i].id < u[j].id by {
        if j < p {
        } else if j == p {
        } else if i < p {
            assert(u[j] == s[j - 1]);
            if p < s.len() {
                assert(s[p].id <= s[j - 1].id);
            }
        } else if i == p {
            assert(u[j] == s[j - 1]);
            assert(s[p].id <= s[j - 1].id);
        } else {
            assert(u[i] == s[i - 1]);
            assert(u[j] == s[j - 1]);
        }
    }
}

proof fn lemma_index_of_unique(reg: Seq<BufferView>, k: int)
    requires
        ids_increasing(reg),
        0 <= k < reg.len(),
    ensures
        index_of(reg, reg[k].id) == k,
{
    let c = index_of(reg, reg[k].id);
    assert(0 <= c < reg.len() && reg[c].id == reg[k].id);
    if c < k {
        assert(reg[c].id < reg[k].id);
    } else if c > k {
        assert(reg[k].id < reg[c].id);
    }
}

proof fn lemma_remove_keeps_order(reg: Seq<BufferView>, k: int)
    requires
        ids_increasing(reg),
        0 <= k < reg.len(),
    ensures
        ids_increasing(reg.remove(k)),
{
    let rest = reg.remove(k);
    assert forall|i: int, j: int| 0 <= i < j < rest.len() implies rest[i].id < rest[j].id by {
        if i >= k {
            assert(rest[i] == reg[i + 1]);
        }
        if j >= k {
            assert(rest[j] == reg[j + 1]);
        }
    }
}

/// The registry after exchanging its `k`-th buffer for `active`, inserted at `p`.
proof fn lemma_exchange(reg: Seq<BufferView>, k: int, active: BufferView, p: int, next_id: u32)
    requires
        ids_increasing(reg),
        0 <= k < reg.len(),
        forall|i: int| 0 <= i < reg.len() ==> (#[trigger] reg[i]).wf() && reg[i].id < next_id,
        active.wf(),
        active.id < next_id,
        !has_id(reg, active.id),
        0 <= p <= reg.len() - 1,
        forall|j: int| 0 <= j < p ==> #[trigger] reg.remove(k)[j].id < active.id,
        p < reg.len() - 1 ==> reg.remove(k)[p].id >= active.id,
    ensures
        ids_increasing(reg.remove(k).insert(p, active)),
        sorted_insert(reg.remove(k), active) == reg.remove(k).insert(p, active),
        forall|i: int|
            0 <= i < reg.len() ==> (#[trigger] reg.remove(k).insert(p, active)[i]).wf() && reg.remove(
                k,
            ).insert(p, active)[i].id < next_id,
        !has_id(reg.remove(k).insert(p, active), reg[k].id),
{
    let rest = reg.remove(k);
    lemma_remove_keeps_order(reg, k);
    if p < rest.len() {
        assert(rest[p].id != active.id) by {
            if p < k {
                assert(rest[p] == reg[p]);
            } else {
                assert(rest[p] == reg[p + 1]);
            }
        }
    }
    lemma_sorted_insert_at(rest, p, active);
    let nr = rest.insert(p, active);
    assert forall|i: int| 0 <= i < nr.len() implies (#[trigger] nr[i]).wf() && nr[i].id
        < next_id by {
        if i != p {
            let o = if i < p { i } else { i - 1 };
            assert(nr[i] == rest[o]);
            if o >= k {
                assert(rest[o] == reg[o + 1]);
            } else {
                assert(rest[o] == reg[o]);
            }
        }
    }
    assert forall|i: int| 0 <= i < nr.len() && nr[i].id == reg[k].id implies false by {
        if i == p {
            assert(!(0 <= k < reg.len() && reg[k].id == active.id));
        } else {
            let o = if i < p { i } else { i - 1 };
            assert(nr[i] == rest[o]);
            if o >= k {
                assert(rest[o] == reg[o + 1]);
                assert(reg[k].id < reg[o + 1].id);
            } else {
                assert(rest[o] == reg[o]);
                assert(reg[o].id < reg[k].id);
            }
        }
    }
}

/// A buffer creation: `id` is the counter before, and the counter moves on by one.
pub open spec fn issues_id(before: u32, after: u32, id: u32) -> bool {
    id == before && after == before + 1
}

/// The ids handed out by successive buffer creations, starting from a new
/// editor's counter, are 1, 2, 3, ... and so strictly increasing.
pub proof fn lemma_ids_increase(counters: Seq<u32>, ids: Seq<u32>)
    requires
        counters.len() == ids.len() + 1,
        counters[0] == 1,
        forall|i: int| 0 <= i < ids.len() ==> issues_id(counters[i], counters[i + 1], #[trigger] ids[i]),
    ensures
        forall|i: int| 0 <= i < ids.len() ==> #[trigger] ids[i] == i + 1,
        forall|i: int, j: int| 0 <= i < j < ids.len() ==> ids[i] < ids[j],
{
    assert forall|i: int| 0 <= i < counters.len() implies #[trigger] counters[i] == i + 1 by {
        lemma_counter_at(counters, ids, i);
    }
    assert forall|i: int| 0 <= i < ids.len() implies #[trigger] ids[i] == i + 1 by {
        assert(issues_id(counters[i], counters[i + 1], ids[i]));
        assert(counters[i] == i + 1);
    }
}

proof fn lemma_counter_at(counters: Seq<u32>, ids: Seq<u32>, i: int)
    requires
        counters.len() == ids.len() + 1,
        counters[0] == 1,
        forall|k: int| 0 <= k < ids.len() ==> issues_id(counters[k], counters[k + 1], #[trigger] ids[k]),
        0 <= i < counters.len(),
    ensures
        counters[i] == i + 1,
    decreases i,
{
    if i > 0 {
        lemma_counter_at(counters, ids, i - 1);
        assert(issues_id(counters[i - 1], counters[i], ids[i - 1]));
    }
}

/// The editor: one active buffer, background buffers sorted by id, the mode,
/// and one key chain per mode.
pub struct EditorState {
    pub normal_chain: Chain,
    pub insert_chain: Chain,
    pub visual_chain: Chain,
    pub next_id: u32,
    pub active_buffer: Buffer,
    pub buffers: Vec<Buffer>,
    pub mode: EditMode,
    pub status_line: String,
}

impl EditorState {
    /// The background buffers, in order.
    pub open spec fn registry(self) -> Seq<BufferView> {
        self.buffers@.map_values(|b: Buffer| b@)
    }

    pub open spec fn chain_for(self, m: EditMode) -> ChainView {
        match m {
            EditMode::Normal => self.normal_chain@,
            EditMode::Insert => self.insert_chain@,
            EditMode::Visual => self.visual_chain@,
            EditMode::Command => empty_chain(),
        }
    }

    pub open spec fn chains(self) -> (ChainView, ChainView, ChainView) {
        (self.normal_chain@, self.insert_chain@, self.visual_chain@)
    }

    pub open spec fn wf(self) -> bool {
        &&& self.normal_chain@.wf()
        &&& self.insert_chain@.wf()
        &&& self.visual_chain@.wf()
        &&& self.active_buffer@.wf()
        &&& forall|i: int| 0 <= i < self.registry().len() ==> (#[trigger] self.registry()[i]).wf()
        &&& ids_increasing(self.registry())
        &&& forall|i: int|
            0 <= i < self.registry().len() ==> (#[trigger] self.registry()[i]).id < self.next_id
        &&& self.active_buffer@.id < self.next_id
        &&& !has_id(self.registry(), self.active_buffer@.id)
    }

    /// A new editor in `Normal` mode with one empty buffer (id 0) and no
    /// background buffers; `i` enters `Insert` mode and escape leaves it.
    pub fn new() -> (r: EditorState)
        ensures
            r.wf(),
            r.mode == EditMode::Normal,
            r.next_id == 1,
            r.active_buffer@ == (BufferView {
                id: 0,
                path: None,
                lines: seq![Seq::<char>::empty()],
                line: 1,
                col: 0,
            }),
            r.registry().len() == 0,
            r.status_line@.len() == 0,
            r.normal_chain@.path.len() == 0,
            r.normal_chain@.nodes.len() == 1,
            forall|k: KeyPress|
                lookup(r.normal_chain@.nodes[0], k) == if k == plain_key('i') {
                    Some(ChainLink::Action(EditCommand::SetMode(EditMode::Insert)))
                } else {
                    None
                },
            r.insert_chain@.path.len() == 0,
            r.insert_chain@.nodes.len() == 1,
            forall|k: KeyPress|
                lookup(r.insert_chain@.nodes[0], k) == if k == plain_key('\x1b') {
                    Some(ChainLink::Action(EditCommand::SetMode(EditMode::Normal)))
                } else {
                    None
                },
            r.visual_chain@ == empty_chain(),
    {
        let mut normal_chain = Chain::new();
        normal_chain.bind_root_action(KeyPress::from('i'), EditCommand::SetMode(EditMode::Insert));
        let mut insert_chain = Chain::new();
        insert_chain.bind_root_action(
            KeyPress::from('\x1b'),
            EditCommand::SetMode(EditMode::Normal),
        );
        let visual_chain = Chain::new();
        let r = EditorState {
            normal_chain,
            insert_chain,
            visual_chain,
            next_id: 1,
            active_buffer: Buffer::new(0),
            buffers: Vec::new(),
            mode: EditMode::Normal,
            status_line: String::new(),
        };
        assert(r.registry() =~= Seq::<BufferView>::empty());
        assert(r.visual_chain@.path =~= Seq::<(KeyPress, usize)>::empty());
        r
    }

    /// Runs a command.
    pub fn execute(&mut self, command: EditCommand)
        ensures
            final(self).mode == command.next_mode(old(self).mode),
            final(self).chains() == old(self).chains(),
            final(self).active_buffer@ == old(self).active_buffer@,
            final(self).registry() == old(self).registry(),
            final(self).next_id == old(self).next_id,
            final(self).status_line@ == old(self).status_line@,
    {
        match command {
            EditCommand::SetMode(m) => self.mode = m,
        }
    }

    /// Feeds a key press to the current mode's chain. A completed sequence
    /// runs its command; in `Insert` mode a key bound to nothing at the root
    /// is typed into the active buffer; any other key is dropped.
    pub fn process_key_press(&mut self, key: KeyPress)
        requires
            old(self).wf(),
            old(self).active_buffer@.has_room(),
        ensures
            final(self).wf(),
            final(self).registry() == old(self).registry(),
            final(self).next_id == old(self).next_id,
            final(self).status_line@ == old(self).status_line@,
            ({
                let m = old(self).mode;
                let (c, s) = old(self).chain_for(m).step(key);
                &&& final(self).chain_for(m) == c
                &&& forall|other: EditMode|
                    other != m ==> #[trigger] final(self).chain_for(other) == old(self).chain_for(
                        other,
                    )
                &&& final(self).mode == match s {
                    Step::Fired(cmd) => cmd.next_mode(m),
                    _ => m,
                }
                &&& final(self).active_buffer@ == if m == EditMode::Insert && s == Step::Unbound {
                    old(self).active_buffer@.after_insert(key.key)
                } else {
                    old(self).active_buffer@
                }
            }),
    {
        let step = match self.mode {
            EditMode::Normal => self.normal_chain.step(key),
            EditMode::Insert => self.insert_chain.step(key),
            EditMode::Visual => self.visual_chain.step(key),
            EditMode::Command => {
                proof {
                    assert(empty_chain().nodes[0] =~= Seq::<(KeyPress, ChainLink)>::empty());
                }
                Step::Unbound
            },
        };
        match step {
            Step::Fired(cmd) => self.execute(cmd),
            Step::Unbound => {
                if self.mode == EditMode::Insert {
                    self.active_buffer.insert_at_cursor(key.key);
                }
            },
            _ => {},
        }
    }

    /// Feeds a plain character, with no modifier held.
    pub fn process_keystroke(&mut self, key: char)
        requires
            old(self).wf(),
            old(self).active_buffer@.has_room(),
        ensures
            final(self).wf(),
            final(self).registry() == old(self).registry(),
            final(self).next_id == old(self).next_id,
            final(self).status_line@ == old(self).status_line@,
            ({
                let m = old(self).mode;
                let (c, s) = old(self).chain_for(m).step(plain_key(key));
                &&& final(self).chain_for(m) == c
                &&& forall|other: EditMode|
                    other != m ==> #[trigger] final(self).chain_for(other) == old(self).chain_for(
                        other,
                    )
                &&& final(self).mode == match s {
                    Step::Fired(cmd) => cmd.next_mode(m),
                    _ => m,
                }
                &&& final(self).active_buffer@ == if m == EditMode::Insert && s == Step::Unbound {
                    old(self).active_buffer@.after_insert(key)
                } else {
                    old(self).active_buffer@
                }
            }),
    {
        self.process_key_press(KeyPress::from(key));
    }

    pub fn set_mode(&mut self, new_mode: EditMode)
        ensures
            final(self).mode == new_mode,
            final(self).chains() == old(self).chains(),
            final(self).active_buffer@ == old(self).active_buffer@,
            final(self).registry() == old(self).registry(),
            final(self).next_id == old(self).next_id,
    {
        self.mode = new_mode;
    }

    pub fn set_insert_mode(&mut self)
        ensures
            final(self).mode == EditMode::Insert,
            final(self).chains() == old(self).chains(),
            final(self).active_buffer@ == old(self).active_buffer@,
            final(self).registry() == old(self).registry(),
            final(self).next_id == old(self).next_id,
    {
        self.mode = EditMode::Insert;
    }

    pub fn set_normal_mode(&mut self)
        ensures
            final(self).mode == EditMode::Normal,
            final(self).chains() == old(self).chains(),
            final(self).active_buffer@ == old(self).active_buffer@,
            final(self).registry() == old(self).registry(),
            final(self).next_id == old(self).next_id,
    {
        self.mode = EditMode::Normal;
    }

    pub fn set_visual_mode(&mut self)
        ensures
            final(self).mode == EditMode::Visual,
            final(self).chains() == old(self).chains(),
            final(self).active_buffer@ == old(self).active_buffer@,
            final(self).registry() == old(self).registry(),
            final(self).next_id == old(self).next_id,
    {
        self.mode = EditMode::Visual;
    }

    pub fn set_command_mode(&mut self)
        ensures
            final(self).mode == EditMode::Command,
            final(self).chains() == old(self).chains(),
            final(self).active_buffer@ == old(self).active_buffer@,
            final(self).registry() == old(self).registry(),
            final(self).next_id == old(self).next_id,
    {
        self.mode = EditMode::Command;
    }

    pub fn get_mode(&self) -> (r: EditMode)
        ensures
            r == self.mode,
    {
        self.mode
    }

    /// Recomputes the status line from the mode and the cursor.
    pub fn update(&mut self)
        ensures
            final(self).status_line@ == status_text(
                old(self).mode,
                old(self).active_buffer@.line as nat,
                old(self).active_buffer@.col as nat,
            ),
            final(self).mode == old(self).mode,
            final(self).chains() == old(self).chains(),
            final(self).active_buffer@ == old(self).active_buffer@,
            final(self).registry() == old(self).registry(),
            final(self).next_id == old(self).next_id,
    {
        let (line, col) = self.active_buffer.get_cursor_pos();
        let mut s = String::new();
        push_char(&mut s, '[');
        s.append(self.mode.label());
        push_char(&mut s, ']');
        push_char(&mut s, ' ');
        push_char(&mut s, '[');
        push_decimal(&mut s, line);
        push_char(&mut s, ':');
        push_decimal(&mut s, col);
        push_char(&mut s, ']');
        assert(s@ =~= status_text(self.mode, line as nat, col as nat));
        self.status_line = s;
    }

    /// Makes a new empty background buffer with the next id and returns the id.
    pub fn create_empty_buffer(&mut self) -> (r: u32)
        requires
            old(self).wf(),
            old(self).next_id < u32::MAX,
        ensures
            final(self).wf(),
            issues_id(old(self).next_id, final(self).next_id, r),
            final(self).registry() == old(self).registry().push(
                BufferView { id: r, path: None, lines: seq![Seq::<char>::empty()], line: 1, col: 0 },
            ),
            final(self).registry() == sorted_insert(
                old(self).registry(),
                BufferView { id: r, path: None, lines: seq![Seq::<char>::empty()], line: 1, col: 0 },
            ),
            final(self).active_buffer@ == old(self).active_buffer@,
            final(self).mode == old(self).mode,
            final(self).chains() == old(self).chains(),
            final(self).status_line@ == old(self).status_line@,
    {
        let id = self.next_id;
        proof {
            lemma_sorted_insert_at(
                old(self).registry(),
                old(self).registry().len() as int,
                BufferView { id, path: None, lines: seq![Seq::<char>::empty()], line: 1, col: 0 },
            );
            assert(old(self).registry().insert(
                old(self).registry().len() as int,
                BufferView { id, path: None, lines: seq![Seq::<char>::empty()], line: 1, col: 0 },
            ) =~= old(self).registry().push(
                BufferView { id, path: None, lines: seq![Seq::<char>::empty()], line: 1, col: 0 },
            ));
        }
        self.buffers.push(Buffer::new(id));
        self.next_id = id + 1;
        assert(self.registry() =~= old(self).registry().push(
            BufferView { id, path: None, lines: seq![Seq::<char>::empty()], line: 1, col: 0 },
        ));
        assert(self.registry().len() == old(self).registry().len() + 1);
        assert forall|i: int| 0 <= i < self.registry().len() && self.registry()[i].id
            == self.active_buffer@.id implies false by {
            if i < old(self).registry().len() {
                assert(old(self).registry()[i] == self.registry()[i]);
            }
        }
        id
    }

    /// Binary search of the background buffers for `id`.
    fn find_buffer(&self, id: u32) -> (r: Option<usize>)
        requires
            ids_increasing(self.registry()),
        ensures
            match r {
                Some(k) => k < self.registry().len() && self.registry()[k as int].id == id,
                None => !has_id(self.registry(), id),
            },
    {
        let mut lo: usize = 0;
        let mut hi: usize = self.buffers.len();
        while lo < hi
            invariant
                hi <= self.registry().len(),
                self.buffers@.len() == self.registry().len(),
                lo <= hi,
                ids_increasing(self.registry()),
                forall|i: int| 0 <= i < lo ==> #[trigger] self.registry()[i].id < id,
                forall|i: int| hi <= i < self.registry().len() ==> #[trigger] self.registry()[i].id > id,
            decreases hi - lo,
        {
            let mid = lo + (hi - lo) / 2;
            let mid_id = self.buffers[mid].get_id();
            assert(mid_id == self.registry()[mid as int].id);
            if mid_id == id {
                return Some(mid);
            } else if mid_id < id {
                lo = mid + 1;
            } else {
                hi = mid;
            }
        }
        None
    }

    /// Makes the background buffer with id `id` the active one; the buffer
    /// that was active takes its place among the background buffers, in
    /// order of id.
    pub fn change_buffer(&mut self, id: u32) -> (r: Result<(), EditorError>)
        requires
            old(self).wf(),
        ensures
            final(self).wf(),
            final(self).mode == old(self).mode,
            final(self).chains() == old(self).chains(),
            final(self).next_id == old(self).next_id,
            final(self).status_line@ == old(self).status_line@,
            !has_id(old(self).registry(), id) ==> {
                &&& r == Err::<(), EditorError>(EditorError::BufferNotFound(id))
                &&& final(self).active_buffer@ == old(self).active_buffer@
                &&& final(self).registry() == old(self).registry()
            },
            has_id(old(self).registry(), id) ==> {
                let k = index_of(old(self).registry(), id);
                &&& r is Ok
                &&& final(self).active_buffer@ == old(self).registry()[k]
                &&& final(self).registry() == sorted_insert(
                    old(self).registry().remove(k),
                    old(self).active_buffer@,
                )
            },
    {
        let ghost reg = self.registry();
        let ghost active = self.active_buffer@;
        match self.find_buffer(id) {
            None => Err(EditorError::BufferNotFound(id)),
            Some(k) => {
                proof {
                    lemma_index_of_unique(reg, k as int);
                    lemma_remove_keeps_order(reg, k as int);
                }
                let mut b = self.buffers.remove(k);
                std::mem::swap(&mut b, &mut self.active_buffer);
                let ghost rest = reg.remove(k as int);
                assert(self.registry() =~= rest);
                let n = self.buffers.len();
                let bid = b.get_id();
                let mut p: usize = 0;
                while p < n && self.buffers[p].get_id() < bid
                    invariant
                        n == self.buffers@.len(),
                        self.registry() == rest,
                        p <= n,
                        bid == active.id,
                        forall|j: int| 0 <= j < p ==> #[trigger] rest[j].id < active.id,
                    decreases n - p,
                {
                    assert(self.buffers@[p as int]@ == rest[p as int]);
                    p = p + 1;
                }
                proof {
                    if p < n {
                        assert(self.buffers@[p as int]@ == rest[p as int]);
                    }
                    lemma_exchange(reg, k as int, active, p as int, self.next_id);
                }
                self.buffers.insert(p, b);
                assert(self.registry() =~= rest.insert(p as int, active));
                Ok(())
            },
        }
    }

    /// The id and path of each background buffer, in order of id.
    pub fn get_buffer_list(&self) -> (r: Vec<(u32, Option<String>)>)
        ensures
            r@.len() == self.registry().len(),
            forall|i: int|
                0 <= i < r@.len() ==> (#[trigger] r@[i]).0 == self.registry()[i].id && opt_view(
                    r@[i].1,
                ) == self.registry()[i].path,
    {
        let mut out: Vec<(u32, Option<String>)> = Vec::new();
        let n = self.buffers.len();
        let mut i: usize = 0;
        while i < n
            invariant
                n == self.registry().len(),
                n == self.buffers@.len(),
                i <= n,
                out@.len() == i,
                forall|j: int|
                    0 <= j < i ==> (#[trigger] out@[j]).0 == self.registry()[j].id && opt_view(
                        out@[j].1,
                    ) == self.registry()[j].path,
            decreases n - i,
        {
            let b = &self.buffers[i];
            out.push((b.get_id(), b.get_path()));
            i = i + 1;
        }
        out
    }

    /// A copy of the active buffer with the cursor mark inserted at the
    /// cursor; the active buffer itself is not touched.
    pub fn get_display_buffer(&self) -> (r: Buffer)
        requires
            self.wf(),
        ensures
            ({
                let a = self.active_buffer@;
                r@ == BufferView {
                    lines: a.lines.update(a.line - 1, a.current().insert(a.col, CURSOR_MARK)),
                    ..a
                }
            }),
    {
        let mut display = self.active_buffer.snapshot();
        let (_, col) = display.get_cursor_pos();
        let _ = display.get_current_line_mut().insert(col, CURSOR_MARK);
        display
    }

    /// The runs of text to draw for `display_buffer`.
    pub fn get_section_text(&self, display_buffer: &Buffer) -> (r: Vec<TextRun>)
        ensures
            runs_view(r@) == seq![(flatten(display_buffer@.lines), Font::Normal)],
    {
        section_text(display_buffer)
    }
}

} // verus!

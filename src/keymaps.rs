//! Key presses and the per-mode key-sequence trie ("chain").
//!
//! A chain is an arena of nodes. Node `0` is the root; every other node is
//! reached through a `ChainLink::SubChain` edge. The dispatch position is the
//! path of `(key, node)` pairs taken from the root for the keys typed so far.
//! Dispatching never changes the nodes, so returning to the root after an
//! action fires or a sequence is abandoned is just clearing the path.
use vstd::prelude::*;

use crate::editor::EditMode;

verus! {

/// Modifier keys held while a key is pressed.
#[derive(Clone, Copy, Debug, PartialEq, Eq, Structural, Hash)]
pub struct Modifiers {
    pub control: bool,
    pub alt: bool,
    pub logo: bool,
}

impl Modifiers {
    /// No modifier held.
    pub fn with_none() -> (r: Modifiers)
        ensures
            r == (Modifiers { control: false, alt: false, logo: false }),
    {
        Modifiers { control: false, alt: false, logo: false }
    }

    /// Control held, nothing else.
    pub fn with_control() -> (r: Modifiers)
        ensures
            r == (Modifiers { control: true, alt: false, logo: false }),
    {
        Modifiers { control: true, alt: false, logo: false }
    }

    /// Alt held, nothing else.
    pub fn with_alt() -> (r: Modifiers)
        ensures
            r == (Modifiers { control: false, alt: true, logo: false }),
    {
        Modifiers { control: false, alt: true, logo: false }
    }

    /// Logo (super) held, nothing else.
    pub fn with_logo() -> (r: Modifiers)
        ensures
            r == (Modifiers { control: false, alt: false, logo: true }),
    {
        Modifiers { control: false, alt: false, logo: true }
    }
}

impl Default for Modifiers {
    fn default() -> (r: Modifiers)
        ensures
            r == (Modifiers { control: false, alt: false, logo: false }),
    {
        Modifiers::with_none()
    }
}

/// A key press together with the modifiers held at the time.
/// Two key presses are equal when the key and all three modifiers agree.
#[derive(Clone, Copy, Debug, PartialEq, Eq, Structural, Hash)]
pub struct KeyPress {
    pub key: char,
    pub modifiers: Modifiers,
}

/// The key press of a plain character, with no modifier held.
pub open spec fn plain_key(c: char) -> KeyPress {
    KeyPress { key: c, modifiers: Modifiers { control: false, alt: false, logo: false } }
}

impl From<char> for KeyPress {
    fn from(key: char) -> (r: KeyPress)
        ensures
            r == plain_key(key),
    {
        KeyPress { key, modifiers: Modifiers::with_none() }
    }
}

impl vstd::std_specs::convert::FromSpecImpl<char> for KeyPress {
    open spec fn obeys_from_spec() -> bool {
        true
    }

    open spec fn from_spec(key: char) -> KeyPress {
        plain_key(key)
    }
}

/// The closed set of editing commands that a chain can bind.
#[derive(Clone, Copy, Debug, PartialEq, Eq, Structural)]
pub enum EditCommand {
    SetMode(EditMode),
}

impl EditCommand {
    /// The mode after running the command in mode `m`.
    pub open spec fn next_mode(self, m: EditMode) -> EditMode {
        match self {
            EditCommand::SetMode(n) => n,
        }
    }
}

/// What a key leads to within a chain node: a command to run, or the node
/// (by arena index) that continues a longer key sequence.
#[derive(Clone, Copy, Debug, PartialEq, Eq, Structural)]
pub enum ChainLink {
    Action(EditCommand),
    SubChain(usize),
}

impl From<EditCommand> for ChainLink {
    fn from(command: EditCommand) -> (r: ChainLink)
        ensures
            r == ChainLink::Action(command),
    {
        ChainLink::Action(command)
    }
}

impl vstd::std_specs::convert::FromSpecImpl<EditCommand> for ChainLink {
    open spec fn obeys_from_spec() -> bool {
        true
    }

    open spec fn from_spec(command: EditCommand) -> ChainLink {
        ChainLink::Action(command)
    }
}

/// The outcome of feeding one key press to a chain.
#[derive(Clone, Copy, Debug, PartialEq, Eq, Structural)]
pub enum Step {
    /// The key completed a sequence bound to this command; back at the root.
    Fired(EditCommand),
    /// The key extended a sequence; waiting for the next key.
    Advanced,
    /// The key did not continue the sequence in progress; back at the root.
    Aborted,
    /// The key is bound to nothing at the root; nothing changed.
    Unbound,
}

/// What a node binds `key` to: the first entry with that key, if any.
pub open spec fn lookup(entries: Seq<(KeyPress, ChainLink)>, key: KeyPress) -> Option<ChainLink>
    decreases entries.len(),
{
    if entries.len() == 0 {
        None
    } else if entries[0].0 == key {
        Some(entries[0].1)
    } else {
        lookup(entries.drop_first(), key)
    }
}

/// Mathematical model of a chain: the arena of nodes and the dispatch path.
pub struct ChainView {
    pub nodes: Seq<Seq<(KeyPress, ChainLink)>>,
    pub path: Seq<(KeyPress, usize)>,
}

/// A link that stays inside an arena of `n` nodes.
pub open spec fn link_in_arena(link: ChainLink, n: nat) -> bool {
    match link {
        ChainLink::SubChain(j) => j < n,
        ChainLink::Action(_) => true,
    }
}

impl ChainView {
    pub open spec fn wf(self) -> bool {
        &&& self.nodes.len() >= 1
        &&& forall|n: int, i: int|
            0 <= n < self.nodes.len() && 0 <= i < self.nodes[n].len() ==> link_in_arena(
                #[trigger] self.nodes[n][i].1,
                self.nodes.len(),
            )
        &&& forall|i: int| 0 <= i < self.path.len() ==> (#[trigger] self.path[i]).1 < self.nodes.len()
    }

    /// The node at which the next key is looked up: the root when no
    /// sequence is in progress.
    pub open spec fn position(self) -> int {
        if self.path.len() == 0 {
            0
        } else {
            self.path.last().1 as int
        }
    }

    /// What `key` is bound to at the current position.
    pub open spec fn binding(self, key: KeyPress) -> Option<ChainLink> {
        lookup(self.nodes[self.position()], key)
    }

    /// The chain at the root position, with the same nodes.
    pub open spec fn at_root(self) -> ChainView {
        ChainView { nodes: self.nodes, path: Seq::empty() }
    }

    /// One dispatch step: the chain afterwards and the outcome.
    pub open spec fn step(self, key: KeyPress) -> (ChainView, Step) {
        match self.binding(key) {
            Some(ChainLink::Action(cmd)) => (self.at_root(), Step::Fired(cmd)),
            Some(ChainLink::SubChain(j)) => (
                ChainView { nodes: self.nodes, path: self.path.push((key, j)) },
                Step::Advanced,
            ),
            None => if self.path.len() > 0 {
                (self.at_root(), Step::Aborted)
            } else {
                (self, Step::Unbound)
            },
        }
    }
}

/// The chain after feeding it `keys` one after another.
pub open spec fn run(c: ChainView, keys: Seq<KeyPress>) -> ChainView
    decreases keys.len(),
{
    if keys.len() == 0 {
        c
    } else {
        run(c.step(keys[0]).0, keys.drop_first())
    }
}

proof fn lemma_run_keeps_nodes(c: ChainView, keys: Seq<KeyPress>)
    ensures
        run(c, keys).nodes == c.nodes,
    decreases keys.len(),
{
    if keys.len() > 0 {
        lemma_run_keeps_nodes(c.step(keys[0]).0, keys.drop_first());
    }
}

/// Fold-back: whatever keys are fed to a chain that starts at its root, its
/// nodes stay as they were; and as soon as a key fires an action or aborts
/// the sequence in progress, the chain is exactly as it was before the
/// sequence began.
pub proof fn lemma_fold_back(c: ChainView, keys: Seq<KeyPress>)
    requires
        c.wf(),
        c.path.len() == 0,
        keys.len() > 0,
    ensures
        run(c, keys).nodes == c.nodes,
        ({
            let (after, s) = run(c, keys.drop_last()).step(keys.last());
            (s is Fired || s is Aborted) ==> after == c
        }),
{
    lemma_run_keeps_nodes(c, keys);
    lemma_run_keeps_nodes(c, keys.drop_last());
    assert(c.path =~= Seq::<(KeyPress, usize)>::empty());
}

proof fn lemma_lookup_push(s: Seq<(KeyPress, ChainLink)>, e: (KeyPress, ChainLink), k: KeyPress)
    ensures
        lookup(s.push(e), k) == (if lookup(s, k) is Some {
            lookup(s, k)
        } else if e.0 == k {
            Some(e.1)
        } else {
            None
        }),
    decreases s.len(),
{
    if s.len() > 0 {
        assert(s.push(e)[0] == s[0]);
        assert(s.push(e).drop_first() =~= s.drop_first().push(e));
        lemma_lookup_push(s.drop_first(), e, k);
    } else {
        assert(s.push(e)[0] == e);
        assert(s.push(e).drop_first() =~= Seq::<(KeyPress, ChainLink)>::empty());
        assert(lookup(Seq::<(KeyPress, ChainLink)>::empty(), k) is None);
    }
}

proof fn lemma_lookup_update(
    s: Seq<(KeyPress, ChainLink)>,
    i: int,
    key: KeyPress,
    link: ChainLink,
    k: KeyPress,
)
    requires
        0 <= i < s.len(),
        s[i].0 == key,
        forall|j: int| 0 <= j < i ==> s[j].0 != key,
    ensures
        lookup(s.update(i, (key, link)), k) == (if k == key {
            Some(link)
        } else {
            lookup(s, k)
        }),
    decreases i,
{
    let t = s.update(i, (key, link));
    if i > 0 {
        assert(t[0] == s[0]);
        assert(t.drop_first() =~= s.drop_first().update(i - 1, (key, link)));
        lemma_lookup_update(s.drop_first(), i - 1, key, link, k);
    } else {
        assert(t[0] == (key, link));
        assert(t.drop_first() =~= s.drop_first());
    }
}

/// Index of the first entry whose key is `key`.
fn find_entry(entries: &Vec<(KeyPress, ChainLink)>, key: KeyPress) -> (r: Option<usize>)
    ensures
        match r {
            Some(i) => {
                &&& i < entries@.len()
                &&& entries@[i as int].0 == key
                &&& forall|j: int| 0 <= j < i ==> entries@[j].0 != key
                &&& lookup(entries@, key) == Some(entries@[i as int].1)
            },
            None => lookup(entries@, key) is None,
        },
{
    let n = entries.len();
    let mut i: usize = 0;
    assert(entries@.subrange(0, n as int) =~= entries@);
    while i < n
        invariant
            n == entries@.len(),
            i <= n,
            forall|j: int| 0 <= j < i ==> entries@[j].0 != key,
            lookup(entries@, key) == lookup(entries@.subrange(i as int, n as int), key),
        decreases n - i,
    {
        assert(entries@.subrange(i as int, n as int).drop_first() =~= entries@.subrange(
            i as int + 1,
            n as int,
        ));
        if entries[i].0 == key {
            return Some(i);
        }
        i = i + 1;
    }
    None
}

/// A key-sequence trie for one editing mode, with its dispatch position.
pub struct Chain {
    nodes: Vec<Vec<(KeyPress, ChainLink)>>,
    path: Vec<(KeyPress, usize)>,
}

impl View for Chain {
    type V = ChainView;

    closed spec fn view(&self) -> ChainView {
        ChainView {
            nodes: self.nodes@.map_values(|n: Vec<(KeyPress, ChainLink)>| n@),
            path: self.path@,
        }
    }
}

impl Chain {
    /// A chain with an empty root and no sequence in progress.
    pub fn new() -> (r: Chain)
        ensures
            r@.wf(),
            r@.nodes == seq![Seq::<(KeyPress, ChainLink)>::empty()],
            r@.path.len() == 0,
    {
        let r = Chain { nodes: vec![Vec::new()], path: Vec::new() };
        assert(r@.nodes =~= seq![Seq::<(KeyPress, ChainLink)>::empty()]);
        r
    }

    /// Adds an empty node to the arena and returns its index.
    pub fn add_node(&mut self) -> (r: usize)
        requires
            old(self)@.wf(),
            old(self)@.nodes.len() < usize::MAX,
        ensures
            final(self)@.wf(),
            r == old(self)@.nodes.len(),
            final(self)@.nodes == old(self)@.nodes.push(Seq::empty()),
            final(self)@.path == old(self)@.path,
    {
        let r = self.nodes.len();
        self.nodes.push(Vec::new());
        assert(self@.nodes =~= old(self)@.nodes.push(Seq::empty()));
        assert(self@.path == old(self)@.path);
        assert forall|n: int, i: int|
            0 <= n < self@.nodes.len() && 0 <= i < self@.nodes[n].len() implies link_in_arena(
            #[trigger] self@.nodes[n][i].1,
            self@.nodes.len(),
        ) by {
            assert(self@.nodes[n] == old(self)@.nodes[n]);
            assert(link_in_arena(old(self)@.nodes[n][i].1, old(self)@.nodes.len()));
        }
        r
    }

    /// Binds `key` in node `node` to `link`, replacing what it was bound to.
    pub fn bind(&mut self, node: usize, key: KeyPress, link: ChainLink)
        requires
            old(self)@.wf(),
            node < old(self)@.nodes.len(),
            link_in_arena(link, old(self)@.nodes.len()),
        ensures
            final(self)@.wf(),
            final(self)@.nodes.len() == old(self)@.nodes.len(),
            final(self)@.path == old(self)@.path,
            lookup(final(self)@.nodes[node as int], key) == Some(link),
            forall|k: KeyPress|
                k != key ==> lookup(final(self)@.nodes[node as int], k) == lookup(
                    old(self)@.nodes[node as int],
                    k,
                ),
            forall|n: int|
                0 <= n < old(self)@.nodes.len() && n != node ==> final(self)@.nodes[n]
                    == old(self)@.nodes[n],
    {
        let mut entries: Vec<(KeyPress, ChainLink)> = Vec::new();
        std::mem::swap(&mut entries, &mut self.nodes[node]);
        let ghost old_entries = entries@;
        assert(old_entries == old(self)@.nodes[node as int]);
        match find_entry(&entries, key) {
            Some(i) => {
                entries[i] = (key, link);
                assert forall|k: KeyPress| true implies lookup(entries@, k) == (if k == key {
                    Some(link)
                } else {
                    lookup(old_entries, k)
                }) by {
                    lemma_lookup_update(old_entries, i as int, key, link, k);
                }
            },
            None => {
                entries.push((key, link));
                assert forall|k: KeyPress| true implies lookup(entries@, k) == (if k == key {
                    Some(link)
                } else {
                    lookup(old_entries, k)
                }) by {
                    lemma_lookup_push(old_entries, (key, link), k);
                }
            },
        }
        self.nodes[node] = entries;
        assert(self@.nodes =~= old(self)@.nodes.update(node as int, entries@));
        assert(self@.path == old(self)@.path);
        assert forall|n: int, i: int|
            0 <= n < self@.nodes.len() && 0 <= i < self@.nodes[n].len() implies link_in_arena(
            #[trigger] self@.nodes[n][i].1,
            self@.nodes.len(),
        ) by {
            if n != node {
                assert(self@.nodes[n] == old(self)@.nodes[n]);
                assert(link_in_arena(old(self)@.nodes[n][i].1, old(self)@.nodes.len()));
            } else if i < old_entries.len() && self@.nodes[n][i] == old_entries[i] {
                assert(link_in_arena(old(self)@.nodes[n][i].1, old(self)@.nodes.len()));
            }
        }
    }

    /// Binds `key` at the root to `command`.
    pub fn bind_root_action(&mut self, key: KeyPress, command: EditCommand)
        requires
            old(self)@.wf(),
        ensures
            final(self)@.wf(),
            final(self)@.nodes.len() == old(self)@.nodes.len(),
            final(self)@.path == old(self)@.path,
            lookup(final(self)@.nodes[0], key) == Some(ChainLink::Action(command)),
            forall|k: KeyPress|
                k != key ==> lookup(final(self)@.nodes[0], k) == lookup(old(self)@.nodes[0], k),
            forall|n: int|
                0 < n < old(self)@.nodes.len() ==> final(self)@.nodes[n] == old(self)@.nodes[n],
    {
        self.bind(0, key, ChainLink::from(command));
    }

    /// What `key` is bound to in node `node`.
    pub fn lookup_at(&self, node: usize, key: KeyPress) -> (r: Option<ChainLink>)
        requires
            node < self@.nodes.len(),
        ensures
            r == lookup(self@.nodes[node as int], key),
    {
        match find_entry(&self.nodes[node], key) {
            Some(i) => Some(self.nodes[node][i].1),
            None => None,
        }
    }

    /// Whether no key sequence is in progress.
    pub fn is_at_root(&self) -> (r: bool)
        ensures
            r == (self@.path.len() == 0),
    {
        self.path.len() == 0
    }

    /// The number of keys of the sequence in progress.
    pub fn depth(&self) -> (r: usize)
        ensures
            r == self@.path.len(),
    {
        self.path.len()
    }

    /// Abandons any sequence in progress.
    pub fn reset(&mut self)
        requires
            old(self)@.wf(),
        ensures
            final(self)@ == old(self)@.at_root(),
            final(self)@.wf(),
    {
        self.path.clear();
        assert(self@.path =~= Seq::<(KeyPress, usize)>::empty());
    }

    /// Feeds one key press: follows a sub-chain, fires an action, abandons
    /// the sequence in progress, or reports that the key is unbound.
    pub fn step(&mut self, key: KeyPress) -> (r: Step)
        requires
            old(self)@.wf(),
        ensures
            (final(self)@, r) == old(self)@.step(key),
            final(self)@.wf(),
    {
        let pos = if self.path.len() == 0 {
            0
        } else {
            self.path[self.path.len() - 1].1
        };
        assert(pos == self@.position());
        assert(self.nodes@.len() == self@.nodes.len());
        assert(self.nodes@[pos as int]@ == self@.nodes[pos as int]);
        match find_entry(&self.nodes[pos], key) {
            Some(i) => match self.nodes[pos][i].1 {
                ChainLink::Action(cmd) => {
                    self.path.clear();
                    assert(self@.path =~= Seq::<(KeyPress, usize)>::empty());
                    Step::Fired(cmd)
                },
                ChainLink::SubChain(j) => {
                    assert(link_in_arena(self@.nodes[pos as int][i as int].1, self@.nodes.len()));
                    self.path.push((key, j));
                    Step::Advanced
                },
            },
            None => {
                if self.path.len() > 0 {
                    self.path.clear();
                    assert(self@.path =~= Seq::<(KeyPress, usize)>::empty());
                    Step::Aborted
                } else {
                    Step::Unbound
                }
            },
        }
    }
}

} // verus!

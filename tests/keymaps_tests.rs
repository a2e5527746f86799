use modal_editor::editor::EditMode;
use modal_editor::keymaps::{Chain, ChainLink, EditCommand, KeyPress, Modifiers, Step};

#[test]
fn modifier_constructors() {
    let n = Modifiers::with_none();
    assert!(!n.control && !n.alt && !n.logo);
    let c = Modifiers::with_control();
    assert!(c.control && !c.alt && !c.logo);
    let a = Modifiers::with_alt();
    assert!(!a.control && a.alt && !a.logo);
    let l = Modifiers::with_logo();
    assert!(!l.control && !l.alt && l.logo);
    assert_eq!(Modifiers::default(), n);
}

#[test]
fn key_press_equality_is_structural() {
    let k = KeyPress::from('x');
    assert_eq!(k, KeyPress { key: 'x', modifiers: Modifiers::with_none() });
    assert_ne!(k, KeyPress { key: 'x', modifiers: Modifiers::with_control() });
    assert_ne!(k, KeyPress::from('y'));
}

fn two_key_chain() -> Chain {
    let mut ch = Chain::new();
    let sub = ch.add_node();
    ch.bind(0, KeyPress::from('g'), ChainLink::SubChain(sub));
    ch.bind(sub, KeyPress::from('v'), ChainLink::Action(EditCommand::SetMode(EditMode::Visual)));
    ch
}

#[test]
fn two_key_sequence_fires_and_returns_to_root() {
    let mut ch = two_key_chain();
    assert_eq!(ch.step(KeyPress::from('g')), Step::Advanced);
    assert_eq!(ch.depth(), 1);
    assert!(!ch.is_at_root());
    assert_eq!(ch.step(KeyPress::from('v')), Step::Fired(EditCommand::SetMode(EditMode::Visual)));
    assert!(ch.is_at_root());
    assert_eq!(ch.step(KeyPress::from('g')), Step::Advanced);
}

#[test]
fn aborted_sequence_restores_root() {
    let mut ch = two_key_chain();
    assert_eq!(ch.step(KeyPress::from('g')), Step::Advanced);
    assert_eq!(ch.step(KeyPress::from('x')), Step::Aborted);
    assert!(ch.is_at_root());
    // the trie is intact: the same sequence works again
    assert_eq!(ch.lookup_at(0, KeyPress::from('g')), Some(ChainLink::SubChain(1)));
    assert_eq!(ch.step(KeyPress::from('g')), Step::Advanced);
    assert_eq!(ch.step(KeyPress::from('v')), Step::Fired(EditCommand::SetMode(EditMode::Visual)));
}

#[test]
fn unbound_key_at_root() {
    let mut ch = two_key_chain();
    assert_eq!(ch.step(KeyPress::from('z')), Step::Unbound);
    assert!(ch.is_at_root());
    let ctrl_g = KeyPress { key: 'g', modifiers: Modifiers::with_control() };
    assert_eq!(ch.step(ctrl_g), Step::Unbound);
}

#[test]
fn rebinding_replaces_link() {
    let mut ch = Chain::new();
    ch.bind_root_action(KeyPress::from('q'), EditCommand::SetMode(EditMode::Insert));
    ch.bind_root_action(KeyPress::from('q'), EditCommand::SetMode(EditMode::Command));
    assert_eq!(
        ch.lookup_at(0, KeyPress::from('q')),
        Some(ChainLink::Action(EditCommand::SetMode(EditMode::Command)))
    );
    assert_eq!(ch.lookup_at(0, KeyPress::from('w')), None);
    ch.step(KeyPress::from('g'));
    ch.reset();
    assert!(ch.is_at_root());
}

#[test]
fn chain_link_from_command() {
    let cmd = EditCommand::SetMode(EditMode::Insert);
    assert_eq!(ChainLink::from(cmd), ChainLink::Action(cmd));
}

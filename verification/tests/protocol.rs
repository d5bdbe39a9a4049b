use dyparser::plugins::{PluginError, PluginState};
use dyparser::sections::lookup;

fn s(text: &str) -> String {
    text.to_string()
}

#[test]
fn stream_gives_each_character_then_the_end() {
    let mut state = PluginState::new("héy".chars().collect());
    assert_eq!(state.next_char(), Some('h'));
    assert_eq!(state.next_char(), Some('é'));
    assert_eq!(state.next_char(), Some('y'));
    assert_eq!(state.next_char(), None);
    assert_eq!(state.next_char(), None);
    assert_eq!(state.next_char(), None);
}

#[test]
fn empty_stream_is_at_its_end_at_once() {
    let mut state = PluginState::new(Vec::new());
    assert_eq!(state.next_char(), None);
    assert_eq!(state.next_char(), None);
}

#[test]
fn protocol_builds_the_tree_that_was_reported() {
    let mut state = PluginState::new(Vec::new());
    let h0 = state.new_section().unwrap();
    assert_eq!(state.add_field(h0, s("a"), s("1")), Ok(()));
    assert_eq!(state.add_field(h0, s("a"), s("2")), Ok(()));
    let h1 = state.new_section().unwrap();
    assert_ne!(h0, h1);
    assert_eq!(state.add_field(h1, s("x"), s("3")), Ok(()));
    assert_eq!(state.add_section(h0, s("b"), h1), Ok(()));
    let root = state.finish(h0).unwrap();

    assert_eq!(root.get_kv().len(), 1);
    assert_eq!(lookup(root.get_kv(), &s("a")), Some(&vec![s("1"), s("2")]));
    let subsections = root.get_subsections();
    assert_eq!(subsections.len(), 1);
    assert_eq!(subsections[0].key, "b");
    assert_eq!(subsections[0].values.len(), 1);
    let node = &subsections[0].values[0];
    assert_eq!(node.get_kv().len(), 1);
    assert_eq!(lookup(node.get_kv(), &s("x")), Some(&vec![s("3")]));
    assert!(node.get_subsections().is_empty());
}

#[test]
fn unknown_handle_is_refused_and_no_tree_comes_out() {
    let mut state = PluginState::new(Vec::new());
    assert_eq!(state.add_field(17, s("a"), s("1")), Err(PluginError::HandleInvalid));
    assert_eq!(state.release(17), Err(PluginError::HandleInvalid));
    assert!(matches!(state.finish(17), Err(PluginError::HandleInvalid)));
}

#[test]
fn attached_handle_is_dead() {
    let mut state = PluginState::new(Vec::new());
    let parent = state.new_section().unwrap();
    let child = state.new_section().unwrap();
    let other = state.new_section().unwrap();
    assert_eq!(state.add_section(parent, s("k"), child), Ok(()));
    assert_eq!(state.add_field(child, s("a"), s("1")), Err(PluginError::HandleInvalid));
    assert_eq!(state.add_section(child, s("k"), other), Err(PluginError::HandleInvalid));
    assert_eq!(state.add_section(other, s("k"), child), Err(PluginError::HandleInvalid));
    assert_eq!(state.add_section(parent, s("k"), child), Err(PluginError::HandleInvalid));
    assert_eq!(state.release(child), Err(PluginError::HandleInvalid));
    // The refused calls changed nothing: `other` is still live and empty.
    let rest = state.finish(other).unwrap();
    assert!(rest.get_kv().is_empty());
    assert!(rest.get_subsections().is_empty());
}

#[test]
fn self_attach_is_refused_and_changes_nothing() {
    let mut state = PluginState::new(Vec::new());
    let h = state.new_section().unwrap();
    assert_eq!(state.add_field(h, s("a"), s("1")), Ok(()));
    assert_eq!(state.add_section(h, s("k"), h), Err(PluginError::SelfAttach));
    assert_eq!(state.add_field(h, s("a"), s("2")), Ok(()));
    let root = state.finish(h).unwrap();
    assert_eq!(lookup(root.get_kv(), &s("a")), Some(&vec![s("1"), s("2")]));
    assert!(root.get_subsections().is_empty());
}

#[test]
fn self_attach_of_a_dead_handle_is_an_invalid_handle() {
    let mut state = PluginState::new(Vec::new());
    assert_eq!(state.add_section(3, s("k"), 3), Err(PluginError::HandleInvalid));
}

#[test]
fn attach_with_a_dead_parent_keeps_the_child() {
    let mut state = PluginState::new(Vec::new());
    let child = state.new_section().unwrap();
    assert_eq!(state.add_field(child, s("a"), s("1")), Ok(()));
    assert_eq!(state.add_section(child + 1, s("k"), child), Err(PluginError::HandleInvalid));
    let tree = state.finish(child).unwrap();
    assert_eq!(lookup(tree.get_kv(), &s("a")), Some(&vec![s("1")]));
}

#[test]
fn release_kills_the_handle() {
    let mut state = PluginState::new(Vec::new());
    let keep = state.new_section().unwrap();
    let gone = state.new_section().unwrap();
    assert_eq!(state.add_field(keep, s("a"), s("1")), Ok(()));
    assert_eq!(state.release(gone), Ok(()));
    assert_eq!(state.release(gone), Err(PluginError::HandleInvalid));
    assert_eq!(state.add_field(gone, s("a"), s("1")), Err(PluginError::HandleInvalid));
    assert_eq!(state.add_section(keep, s("k"), gone), Err(PluginError::HandleInvalid));
    let tree = state.finish(keep).unwrap();
    assert_eq!(lookup(tree.get_kv(), &s("a")), Some(&vec![s("1")]));
    assert!(tree.get_subsections().is_empty());
}

#[test]
fn same_named_subsections_keep_their_order() {
    let mut state = PluginState::new(Vec::new());
    let root = state.new_section().unwrap();
    let first = state.new_section().unwrap();
    let second = state.new_section().unwrap();
    let third = state.new_section().unwrap();
    assert_eq!(state.add_field(first, s("n"), s("1")), Ok(()));
    assert_eq!(state.add_field(second, s("n"), s("2")), Ok(()));
    assert_eq!(state.add_field(third, s("n"), s("3")), Ok(()));
    assert_eq!(state.add_section(second, s("deep"), third), Ok(()));
    assert_eq!(state.add_section(root, s("item"), first), Ok(()));
    assert_eq!(state.add_section(root, s("item"), second), Ok(()));
    let tree = state.finish(root).unwrap();
    let items = lookup(tree.get_subsections(), &s("item")).unwrap();
    assert_eq!(items.len(), 2);
    assert_eq!(lookup(items[0].get_kv(), &s("n")), Some(&vec![s("1")]));
    assert_eq!(lookup(items[1].get_kv(), &s("n")), Some(&vec![s("2")]));
    let deep = lookup(items[1].get_subsections(), &s("deep")).unwrap();
    assert_eq!(deep.len(), 1);
    assert_eq!(lookup(deep[0].get_kv(), &s("n")), Some(&vec![s("3")]));
}

#[test]
fn building_does_not_disturb_the_stream() {
    let mut state = PluginState::new("ab".chars().collect());
    assert_eq!(state.next_char(), Some('a'));
    let h = state.new_section().unwrap();
    assert_eq!(state.add_field(h, s("k"), s("v")), Ok(()));
    assert_eq!(state.next_char(), Some('b'));
    assert_eq!(state.release(h), Ok(()));
    assert_eq!(state.next_char(), None);
}

#[test]
fn a_full_table_refuses_a_new_section() {
    let mut state = PluginState::new(Vec::new());
    let mut made: u32 = 0;
    let mut refused = None;
    while made < 2_000_000 {
        match state.new_section() {
            Ok(_) => made += 1,
            Err(e) => {
                refused = Some(e);
                break;
            }
        }
    }
    assert_eq!(refused, Some(PluginError::TableFull));
    assert!(made > 0);
    // Releasing one section makes room for exactly one more.
    assert_eq!(state.release(0), Ok(()));
    assert!(state.new_section().is_ok());
    assert_eq!(state.new_section(), Err(PluginError::TableFull));
}

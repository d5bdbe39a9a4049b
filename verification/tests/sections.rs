use dyparser::sections::{lookup, position, record, Entry, MultiSection};

fn s(text: &str) -> String {
    text.to_string()
}

#[test]
fn new_section_is_empty() {
    let section: MultiSection<String> = MultiSection::new();
    assert!(section.get_kv().is_empty());
    assert!(section.get_subsections().is_empty());
}

#[test]
fn default_section_is_empty() {
    let section: MultiSection<u8> = MultiSection::default();
    assert!(section.get_kv().is_empty());
    assert!(section.get_subsections().is_empty());
}

#[test]
fn record_keeps_values_in_call_order() {
    let mut entries: Vec<Entry<String>> = Vec::new();
    record(&mut entries, s("a"), s("1"));
    record(&mut entries, s("b"), s("x"));
    record(&mut entries, s("a"), s("2"));
    record(&mut entries, s("a"), s("3"));
    assert_eq!(entries.len(), 2);
    assert_eq!(lookup(&entries, &s("a")), Some(&vec![s("1"), s("2"), s("3")]));
    assert_eq!(lookup(&entries, &s("b")), Some(&vec![s("x")]));
    assert_eq!(lookup(&entries, &s("c")), None);
}

#[test]
fn record_creates_an_entry_for_a_new_key() {
    let mut entries: Vec<Entry<u32>> = Vec::new();
    assert_eq!(position(&entries, &s("k")), None);
    record(&mut entries, s("k"), 7);
    assert_eq!(position(&entries, &s("k")), Some(0));
    assert_eq!(entries[0].key, "k");
    assert_eq!(entries[0].values, vec![7]);
    record(&mut entries, s("other"), 9);
    assert_eq!(position(&entries, &s("other")), Some(1));
    assert_eq!(position(&entries, &s("k")), Some(0));
}

#[test]
fn keys_are_compared_exactly() {
    let mut entries: Vec<Entry<u32>> = Vec::new();
    record(&mut entries, s("key"), 1);
    record(&mut entries, s("Key"), 2);
    record(&mut entries, s(""), 3);
    assert_eq!(entries.len(), 3);
    assert_eq!(lookup(&entries, &s("key")), Some(&vec![1]));
    assert_eq!(lookup(&entries, &s("Key")), Some(&vec![2]));
    assert_eq!(lookup(&entries, &s("")), Some(&vec![3]));
    assert_eq!(lookup(&entries, &s("ke")), None);
}

fn sample() -> MultiSection<String> {
    let mut inner: MultiSection<String> = MultiSection::new();
    record(&mut inner.keys, s("x"), s("333"));
    let mut second: MultiSection<String> = MultiSection::new();
    record(&mut second.keys, s("y"), s(""));
    let mut root: MultiSection<String> = MultiSection::new();
    record(&mut root.keys, s("a"), s("1"));
    record(&mut root.keys, s("a"), s("22"));
    record(&mut root.keys, s("c"), s("4444"));
    record(&mut root.sec, s("b"), inner);
    record(&mut root.sec, s("b"), second);
    root
}

#[test]
fn map_keeps_keys_order_and_nesting() {
    let mapped: MultiSection<usize> = sample().map(&|v: String| v.len());
    let fields = mapped.get_kv();
    assert_eq!(fields.len(), 2);
    assert_eq!(fields[0].key, "a");
    assert_eq!(fields[0].values, vec![1, 2]);
    assert_eq!(fields[1].key, "c");
    assert_eq!(fields[1].values, vec![4]);
    let subsections = mapped.get_subsections();
    assert_eq!(subsections.len(), 1);
    assert_eq!(subsections[0].key, "b");
    assert_eq!(subsections[0].values.len(), 2);
    let inner = &subsections[0].values[0];
    assert_eq!(lookup(inner.get_kv(), &s("x")), Some(&vec![3]));
    assert!(inner.get_subsections().is_empty());
    let second = &subsections[0].values[1];
    assert_eq!(lookup(second.get_kv(), &s("y")), Some(&vec![0]));
    assert!(second.get_subsections().is_empty());
}

#[test]
fn map_of_an_empty_section_is_empty() {
    let empty: MultiSection<String> = MultiSection::new();
    let mapped: MultiSection<bool> = empty.map(&|v: String| v.is_empty());
    assert!(mapped.get_kv().is_empty());
    assert!(mapped.get_subsections().is_empty());
}

#[test]
fn map_can_change_the_value_type_twice() {
    let lengths = sample().map(&|v: String| v.len());
    let parity = lengths.map(&|n: usize| n % 2 == 0);
    assert_eq!(lookup(parity.get_kv(), &s("a")), Some(&vec![false, true]));
    assert_eq!(lookup(parity.get_kv(), &s("c")), Some(&vec![true]));
}

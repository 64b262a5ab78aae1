use rari_doc::ids::{uniquify_id, IdSet};

#[test]
fn uniquify_id_counts_up() {
    let mut ids = IdSet::new();
    assert_eq!(uniquify_id(&mut ids, "foo"), "foo");
    assert_eq!(uniquify_id(&mut ids, "foo"), "foo_2");
    assert_eq!(uniquify_id(&mut ids, "foo"), "foo_3");
    assert_eq!(uniquify_id(&mut ids, "foo_2"), "foo_4");
    assert!(ids.contains("foo_4"));
}

#[test]
fn uniquify_id_edge_cases() {
    let mut ids = IdSet::new();
    assert_eq!(uniquify_id(&mut ids, "bar_"), "bar_");
    assert_eq!(uniquify_id(&mut ids, "bar_"), "bar_1");
    assert_eq!(uniquify_id(&mut ids, "a_b"), "a_b");
    assert_eq!(uniquify_id(&mut ids, "a_b"), "a_b_2");
    assert_eq!(uniquify_id(&mut ids, "x_9"), "x_9");
    assert_eq!(uniquify_id(&mut ids, "x_9"), "x_10");
}

use arborui::grapheme::{GraphemeId, GraphemeStore, GraphemeStoreError};

#[test]
fn interning_deduplicates_complete_graphemes() -> Result<(), GraphemeStoreError> {
    let mut store = GraphemeStore::new();
    let first = store.intern("👨‍👩‍👧‍👦")?;
    let second = store.intern("👨‍👩‍👧‍👦")?;

    assert_eq!(first, second);
    assert_eq!(store.len(), 1);
    assert_eq!(store.get(first)?.as_str(), "👨‍👩‍👧‍👦");
    Ok(())
}

#[test]
fn rejects_empty_and_multiple_graphemes() {
    let mut store = GraphemeStore::new();

    assert_eq!(store.intern(""), Err(GraphemeStoreError::InvalidGrapheme));
    assert_eq!(store.intern("ab"), Err(GraphemeStoreError::InvalidGrapheme));
    assert!(store.is_empty());
}

#[test]
fn cloned_stores_do_not_alias_independently_interned_ids() -> Result<(), GraphemeStoreError> {
    let mut first = GraphemeStore::new();
    let mut second = first.clone();

    let first_id = first.intern("a")?;
    let second_id = second.intern("b")?;

    assert_ne!(first_id, second_id);
    assert_eq!(first.get(first_id)?.as_str(), "a");
    assert_eq!(second.get(second_id)?.as_str(), "b");
    assert_eq!(
        first.get(second_id),
        Err(GraphemeStoreError::UnknownId(second_id))
    );
    assert_eq!(
        second.get(first_id),
        Err(GraphemeStoreError::UnknownId(first_id))
    );
    Ok(())
}

#[test]
fn retain_keeps_only_listed_identities() -> Result<(), GraphemeStoreError> {
    let mut store = GraphemeStore::default();
    let a = store.intern("a")?;
    let b = store.intern("e\u{301}")?;
    store.retain(&[b]);
    assert_eq!(store.len(), 1);
    assert_eq!(store.get(a), Err(GraphemeStoreError::UnknownId(a)));
    assert_eq!(store.get(b)?.as_str(), "e\u{301}");
    Ok(())
}

#[test]
fn grapheme_errors_describe_themselves() {
    assert_eq!(
        GraphemeStoreError::InvalidGrapheme.text(),
        "value is not one extended grapheme cluster"
    );
    assert_eq!(
        GraphemeStoreError::CapacityExceeded.text(),
        "grapheme store capacity exceeded"
    );
    assert_eq!(
        GraphemeStoreError::UnknownId(GraphemeId::from_test_value(42)).text(),
        "unknown grapheme id 42"
    );
    assert_eq!(GraphemeId::from_test_value(7).get(), 7);
}

#[test]
fn reads_give_back_what_interning_wrote_and_len_counts_distinct_graphemes(
) -> Result<(), GraphemeStoreError> {
    let mut store = GraphemeStore::new();
    assert!(store.is_empty());
    let first = store.intern("a")?;
    let accent = store.intern("e\u{301}")?;
    assert_eq!(store.intern("a")?, first);
    store.intern("z")?;
    assert_eq!(store.len(), 3);
    assert_eq!(store.get(first)?, "a");
    assert_eq!(store.get(accent)?, "e\u{301}");
    Ok(())
}

use scheme::symbol::{SymbolId, SymbolTable};

#[test]
fn intern_returns_new_ids_for_new_symbols() {
    let mut table = SymbolTable::new();

    let foo = table.intern("foo");
    let bar = table.intern("bar");

    assert_eq!(foo, SymbolId::new(0));
    assert_eq!(bar, SymbolId::new(1));
}

#[test]
fn intern_returns_existing_id_for_duplicate_symbol() {
    let mut table = SymbolTable::new();

    let first = table.intern("alpha");
    let second = table.intern("alpha");

    assert_eq!(first, second);
    assert_eq!(first, SymbolId::new(0));
    assert_eq!(table.len(), 1);
}

#[test]
fn is_empty_and_len_reflect_interned_symbols() {
    let mut table = SymbolTable::new();

    assert!(table.is_empty());
    assert_eq!(table.len(), 0);

    table.intern("x");
    assert!(!table.is_empty());
    assert_eq!(table.len(), 1);

    table.intern("x");
    assert_eq!(table.len(), 1);

    table.intern("y");
    assert_eq!(table.len(), 2);
}

#[test]
fn resolve_finds_existing_symbol_and_missing_returns_none() {
    let mut table = SymbolTable::new();
    let expected = table.intern("value");

    assert_eq!(table.resolve("value"), Some(expected));
    assert_eq!(table.resolve("missing"), None);
}

#[test]
fn iter_returns_symbols_in_intern_order() {
    let mut table = SymbolTable::new();
    table.intern("first");
    table.intern("second");
    table.intern("third");

    let entries: Vec<(SymbolId, &str)> = table.iter();
    assert_eq!(
        entries,
        vec![
            (SymbolId::new(0), "first"),
            (SymbolId::new(1), "second"),
            (SymbolId::new(2), "third"),
        ]
    );
}

#[test]
fn symbol_id_accessors() {
    let id = SymbolId::new(7);
    assert_eq!(id.as_inner(), 7);
    assert_eq!(id.as_usize(), 7usize);
    assert!(SymbolId::new(1) < SymbolId::new(2));
}

#[test]
fn default_table_is_empty() {
    let table = SymbolTable::default();
    assert!(table.is_empty());
    assert_eq!(table.resolve("a"), None);
}

#[test]
fn intern_after_many_keeps_earlier_ids() {
    let mut table = SymbolTable::new();
    let a = table.intern("a");
    let b = table.intern("b");
    assert_eq!(table.intern("a"), a);
    assert_eq!(table.intern("b"), b);
    assert_eq!(table.intern("c"), SymbolId::new(2));
    assert_eq!(table.resolve("c"), Some(SymbolId::new(2)));
}

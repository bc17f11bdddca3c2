use cargo_minify::cauterize::cauterize_file;
use cargo_minify::unused::ByteRange;
use cargo_minify::unused::UnusedItem;
use cargo_minify::kinds::UnusedDiagnosticKind;

fn item(file: &str, name: &str, start: usize, end: usize) -> UnusedItem {
    UnusedItem {
        kind: UnusedDiagnosticKind::Function,
        file: file.to_string(),
        name: name.to_string(),
        span: ByteRange { start, end },
    }
}

#[test]
fn doc_and_attribute_are_cauterized_with_the_declaration() {
    // An unused function preceded by a doc comment and an attribute,
    // followed by a used function: the deletion covers doc, attribute,
    // body and the one separating blank line, and stops strictly before
    // the next function's first non-blank line.
    let text = b"/// doc\n#[allow(dead_code)]\nfn unused() {}\n\nfn used() {}\n".to_vec();
    let file = "src/lib.rs".to_string();
    let items = vec![item("src/lib.rs", "unused", 28, 42)];
    let (change, skipped) = cauterize_file(&file, &text, &items);
    assert!(skipped.is_empty());
    let change = change.expect("one deletion expected");
    assert_eq!(change.edits.len(), 1);
    assert_eq!(change.edits[0].span.start, 0);
    assert_eq!(change.edits[0].span.end, 44);
    assert_eq!(change.new_text, b"fn used() {}\n".to_vec());
    assert_eq!(change.original_text, text);
    assert_eq!(change.file, "src/lib.rs");
}

#[test]
fn deletion_in_the_middle_preserves_preceding_code() {
    let text = b"fn used() {}\n\nfn unused() {}\n\nfn also_used() {}\n".to_vec();
    let file = "src/lib.rs".to_string();
    // "fn unused() {}" occupies bytes 14..28
    let items = vec![item("src/lib.rs", "unused", 14, 28)];
    let (change, skipped) = cauterize_file(&file, &text, &items);
    assert!(skipped.is_empty());
    let change = change.expect("one deletion expected");
    assert_eq!(change.new_text, b"fn used() {}\nfn also_used() {}\n".to_vec());
}

#[test]
fn no_facts_produce_no_change() {
    let text = b"fn used() {}\n".to_vec();
    let file = "src/lib.rs".to_string();
    let items: Vec<UnusedItem> = vec![];
    let (change, skipped) = cauterize_file(&file, &text, &items);
    assert!(change.is_none());
    assert!(skipped.is_empty());
}

#[test]
fn applying_to_own_output_with_no_remaining_facts_changes_nothing() {
    // After a full apply the build tool reports nothing, so the second
    // run's fact set is empty and the text stays byte-identical.
    let text = b"/// doc\nfn unused() {}\nfn used() {}\n".to_vec();
    let file = "src/lib.rs".to_string();
    let items = vec![item("src/lib.rs", "unused", 8, 22)];
    let (change, _) = cauterize_file(&file, &text, &items);
    let new_text = change.expect("a change").new_text;
    let (second, skipped) = cauterize_file(&file, &new_text, &vec![]);
    assert!(second.is_none());
    assert!(skipped.is_empty());
}

#[test]
fn unlocatable_span_is_skipped_not_guessed() {
    let text = b"fn used() {}\n".to_vec();
    let file = "src/lib.rs".to_string();
    // span beyond the end of the file: the file changed since collection
    let items = vec![item("src/lib.rs", "gone", 40, 60)];
    let (change, skipped) = cauterize_file(&file, &text, &items);
    assert!(change.is_none());
    assert_eq!(skipped.len(), 1);
    assert_eq!(skipped[0].name, "gone");
}

#[test]
fn nested_unused_items_merge_into_one_edit() {
    // An unused function reported inside an unused module-like span:
    // overlapping extensions merge into a single edit spanning the union.
    let text = b"fn outer() {\nfn inner() {}\n}\n\nfn used() {}\n".to_vec();
    let file = "src/lib.rs".to_string();
    let items = vec![
        item("src/lib.rs", "outer", 0, 28),
        item("src/lib.rs", "inner", 13, 26),
    ];
    let (change, skipped) = cauterize_file(&file, &text, &items);
    assert!(skipped.is_empty());
    let change = change.expect("a change");
    assert_eq!(change.edits.len(), 1);
    assert_eq!(change.new_text, b"fn used() {}\n".to_vec());
}

#[test]
fn edits_never_overlap_and_are_sorted() {
    let text =
        b"fn a() {}\nfn keep1() {}\nfn b() {}\nfn keep2() {}\nfn c() {}\n".to_vec();
    let file = "src/lib.rs".to_string();
    let items = vec![
        item("src/lib.rs", "a", 0, 9),
        item("src/lib.rs", "b", 24, 33),
        item("src/lib.rs", "c", 48, 57),
    ];
    let (change, _) = cauterize_file(&file, &text, &items);
    let change = change.expect("a change");
    for w in change.edits.windows(2) {
        assert!(w[0].span.end <= w[1].span.start);
    }
    for e in &change.edits {
        assert!(e.span.start < e.span.end);
        assert!(e.span.end <= text.len());
    }
    assert_eq!(change.new_text, b"fn keep1() {}\nfn keep2() {}\n".to_vec());
}

#[test]
fn duplicate_facts_collapse_to_one_edit() {
    let text = b"fn unused() {}\nfn used() {}\n".to_vec();
    let file = "src/lib.rs".to_string();
    let items = vec![
        item("src/lib.rs", "unused", 0, 14),
        item("src/lib.rs", "unused", 0, 14),
    ];
    let (change, _) = cauterize_file(&file, &text, &items);
    let change = change.expect("a change");
    assert_eq!(change.edits.len(), 1);
    assert_eq!(change.new_text, b"fn used() {}\n".to_vec());
}

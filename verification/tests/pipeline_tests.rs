use cargo_minify::FileResolutionOptions;
use cargo_minify::cauterize::cauterize_file;
use cargo_minify::kinds::UnusedDiagnosticKind;
use cargo_minify::unused::ByteRange;
use cargo_minify::unused::RawDiagnostic;
use cargo_minify::unused::UnusedItem;
use cargo_minify::unused::files_of;
use cargo_minify::unused::items_for_file;
use cargo_minify::unused::normalize;

fn diag(lint: &str, name: &str, file: &str, start: usize, end: usize) -> RawDiagnostic {
    RawDiagnostic {
        lint: lint.to_string(),
        name: name.to_string(),
        file: file.to_string(),
        span: ByteRange { start, end },
    }
}

fn all_files() -> FileResolutionOptions {
    FileResolutionOptions::AllBut(vec![])
}

#[test]
fn repeated_reports_collapse_to_one_fact() {
    // The same declaration reported once per compilation target.
    let diags = vec![
        diag("function", "dead", "src/lib.rs", 10, 24),
        diag("function", "dead", "src/lib.rs", 10, 24),
        diag("function", "dead", "src/lib.rs", 10, 24),
    ];
    let out = normalize(&diags, &vec![], &all_files());
    assert_eq!(out.len(), 1);
    assert_eq!(out[0].name, "dead");
    assert_eq!(out[0].kind, UnusedDiagnosticKind::Function);
}

#[test]
fn overlapping_reports_of_one_name_collapse() {
    let diags = vec![
        diag("function", "dead", "src/lib.rs", 10, 24),
        diag("function", "dead", "src/lib.rs", 12, 30),
    ];
    let out = normalize(&diags, &vec![], &all_files());
    assert_eq!(out.len(), 1);
    assert_eq!(out[0].span, ByteRange { start: 10, end: 24 });
}

#[test]
fn distinct_declarations_stay_distinct() {
    let diags = vec![
        diag("function", "a", "src/lib.rs", 0, 9),
        diag("const", "B", "src/lib.rs", 20, 30),
        diag("function", "a", "src/other.rs", 0, 9),
    ];
    let out = normalize(&diags, &vec![], &all_files());
    assert_eq!(out.len(), 3);
}

#[test]
fn unrecognized_lint_is_discarded() {
    let diags = vec![
        diag("unused_variable", "x", "src/lib.rs", 0, 5),
        diag("function", "a", "src/lib.rs", 10, 19),
    ];
    let out = normalize(&diags, &vec![], &all_files());
    assert_eq!(out.len(), 1);
    assert_eq!(out[0].name, "a");
}

#[test]
fn kind_filter_restricts_facts() {
    let diags = vec![
        diag("function", "a", "src/lib.rs", 0, 9),
        diag("const", "B", "src/lib.rs", 20, 30),
    ];
    let only_consts = vec![UnusedDiagnosticKind::Const];
    let out = normalize(&diags, &only_consts, &all_files());
    assert_eq!(out.len(), 1);
    assert_eq!(out[0].kind, UnusedDiagnosticKind::Const);
}

#[test]
fn allow_list_excludes_other_files() {
    // Allow-list ["src/*.rs"]: a fact in tests/foo.rs is excluded.
    let filter = FileResolutionOptions::Only(vec!["src/*.rs".to_string()]);
    let diags = vec![
        diag("function", "a", "src/lib.rs", 0, 9),
        diag("function", "b", "tests/foo.rs", 0, 9),
    ];
    let out = normalize(&diags, &vec![], &filter);
    assert_eq!(out.len(), 1);
    assert_eq!(out[0].file, "src/lib.rs");
}

#[test]
fn deny_list_excludes_matching_files() {
    // Deny-list ["generated/**"]: anything under generated/ is excluded.
    let filter = FileResolutionOptions::AllBut(vec!["generated/**".to_string()]);
    let diags = vec![
        diag("function", "a", "generated/code.rs", 0, 9),
        diag("function", "a", "generated/deep/code.rs", 0, 9),
        diag("function", "b", "src/lib.rs", 0, 9),
    ];
    let out = normalize(&diags, &vec![], &filter);
    assert_eq!(out.len(), 1);
    assert_eq!(out[0].file, "src/lib.rs");
}

#[test]
fn is_included_matches_globs() {
    let only = FileResolutionOptions::Only(vec!["src/*.rs".to_string()]);
    assert!(only.is_included("src/lib.rs"));
    assert!(!only.is_included("tests/foo.rs"));
    let all_but = FileResolutionOptions::AllBut(vec!["generated/**".to_string()]);
    assert!(all_but.is_included("src/lib.rs"));
    assert!(!all_but.is_included("generated/code.rs"));
}

#[test]
fn facts_are_grouped_by_file_and_ordered_by_span() {
    let diags = vec![
        diag("function", "late", "src/a.rs", 50, 60),
        diag("function", "b", "src/b.rs", 5, 15),
        diag("function", "early", "src/a.rs", 0, 10),
    ];
    let out = normalize(&diags, &vec![], &all_files());
    let files = files_of(&out);
    assert_eq!(files, vec!["src/a.rs".to_string(), "src/b.rs".to_string()]);
    let a_items = items_for_file(&out, &"src/a.rs".to_string());
    assert_eq!(a_items.len(), 2);
    assert_eq!(a_items[0].name, "early");
    assert_eq!(a_items[1].name, "late");
}

fn run_pipeline(diags: Vec<RawDiagnostic>, text: &[u8]) -> Vec<u8> {
    let out = normalize(&diags, &vec![], &all_files());
    let files = files_of(&out);
    assert_eq!(files.len(), 1);
    let items = items_for_file(&out, &files[0]);
    let (change, _) = cauterize_file(&files[0], &text.to_vec(), &items);
    change.expect("a change").new_text
}

#[test]
fn arrival_order_does_not_affect_the_rewritten_text() {
    // The same duplicate/overlapping fact set, in two arrival orders,
    // synthesizes byte-identical text.
    let text = b"fn a() {}\nfn keep() {}\nfn b() {}\n".to_vec();
    let forward = vec![
        diag("function", "a", "src/lib.rs", 0, 9),
        diag("function", "b", "src/lib.rs", 23, 32),
        diag("function", "a", "src/lib.rs", 0, 9),
    ];
    let backward = vec![
        diag("function", "b", "src/lib.rs", 23, 32),
        diag("function", "a", "src/lib.rs", 0, 9),
        diag("function", "b", "src/lib.rs", 23, 32),
    ];
    let n1 = run_pipeline(forward, &text);
    let n2 = run_pipeline(backward, &text);
    assert_eq!(n1, n2);
    assert_eq!(n1, b"fn keep() {}\n".to_vec());
}

#[test]
fn normalized_item_keeps_the_diagnostic_span() {
    let diags = vec![diag("static", "S", "src/lib.rs", 7, 20)];
    let out = normalize(&diags, &vec![], &all_files());
    assert_eq!(out.len(), 1);
    let it: &UnusedItem = &out[0];
    assert_eq!(it.kind, UnusedDiagnosticKind::Static);
    assert_eq!(it.span, ByteRange { start: 7, end: 20 });
    assert_eq!(it.file, "src/lib.rs");
    assert_eq!(it.name, "S");
}

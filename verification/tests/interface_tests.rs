use cargo_minify::CrateResolutionOptions;
use cargo_minify::FileResolutionOptions;
use cargo_minify::MinifyOptions;
use cargo_minify::cauterize::cauterize_file;
use cargo_minify::diff_format::ColorMode;
use cargo_minify::diff_format::render;
use cargo_minify::diff_format::should_color;
use cargo_minify::error::Error;
use cargo_minify::kinds::UnusedDiagnosticKind;
use cargo_minify::unused::ByteRange;
use cargo_minify::unused::UnusedItem;
use cargo_minify::vcs::ApplyGate;
use cargo_minify::vcs::Status;
use cargo_minify::vcs::check_preconditions;

fn base_options() -> MinifyOptions {
    MinifyOptions {
        quiet: false,
        package: vec![],
        workspace: false,
        exclude: vec![],
        file: vec![],
        ignore: vec![],
        kinds: vec![],
        apply: false,
        help: false,
        color: ColorMode::Auto,
        manifest_path: None,
        allow_dirty: false,
        allow_staged: false,
        allow_no_vcs: false,
    }
}

#[test]
fn crate_resolution_accepts_the_valid_combinations() {
    let opts = base_options();
    assert!(matches!(
        CrateResolutionOptions::from_options(&opts),
        Ok(CrateResolutionOptions::Root)
    ));

    let mut ws = base_options();
    ws.workspace = true;
    assert!(matches!(
        CrateResolutionOptions::from_options(&ws),
        Ok(CrateResolutionOptions::Workspace { .. })
    ));

    let mut ws_ex = base_options();
    ws_ex.workspace = true;
    ws_ex.exclude = vec!["helper".to_string()];
    match CrateResolutionOptions::from_options(&ws_ex) {
        Ok(CrateResolutionOptions::Workspace { exclude }) => {
            assert_eq!(exclude, vec!["helper".to_string()]);
        }
        _ => panic!("workspace with exclusions must be accepted"),
    }

    let mut pkg = base_options();
    pkg.package = vec!["core".to_string()];
    match CrateResolutionOptions::from_options(&pkg) {
        Ok(CrateResolutionOptions::Package { packages }) => {
            assert_eq!(packages, vec!["core".to_string()]);
        }
        _ => panic!("a package list must be accepted"),
    }
}

#[test]
fn crate_resolution_rejects_contradictory_flags() {
    let mut both = base_options();
    both.workspace = true;
    both.package = vec!["core".to_string()];
    assert!(matches!(
        CrateResolutionOptions::from_options(&both),
        Err(Error::Args(_))
    ));

    let mut excl_only = base_options();
    excl_only.exclude = vec!["helper".to_string()];
    assert!(matches!(
        CrateResolutionOptions::from_options(&excl_only),
        Err(Error::Args(_))
    ));
}

#[test]
fn file_resolution_rejects_allow_and_deny_together() {
    let mut both = base_options();
    both.file = vec!["src/*.rs".to_string()];
    both.ignore = vec!["tests/*.rs".to_string()];
    assert!(matches!(
        FileResolutionOptions::from_options(&both),
        Err(Error::Args(_))
    ));

    let mut allow = base_options();
    allow.file = vec!["src/*.rs".to_string()];
    assert!(matches!(
        FileResolutionOptions::from_options(&allow),
        Ok(FileResolutionOptions::Only(_))
    ));

    let neither = base_options();
    assert!(matches!(
        FileResolutionOptions::from_options(&neither),
        Ok(FileResolutionOptions::AllBut(_))
    ));
}

#[test]
fn lint_identifiers_map_to_their_kinds() {
    let cases = [
        ("function", UnusedDiagnosticKind::Function),
        ("const", UnusedDiagnosticKind::Const),
        ("static", UnusedDiagnosticKind::Static),
        ("struct", UnusedDiagnosticKind::Struct),
        ("enum", UnusedDiagnosticKind::Enum),
        ("union", UnusedDiagnosticKind::Union),
        ("type_alias", UnusedDiagnosticKind::TypeAlias),
        ("associated_function", UnusedDiagnosticKind::AssociatedFunction),
        ("macro_definition", UnusedDiagnosticKind::MacroDefinition),
    ];
    for (lint, kind) in cases {
        assert_eq!(UnusedDiagnosticKind::from_lint(&lint.to_string()), Some(kind));
    }
    assert_eq!(UnusedDiagnosticKind::from_lint(&"dead_beef".to_string()), None);
}

#[test]
fn kind_filter_spellings_parse() {
    assert_eq!(
        UnusedDiagnosticKind::parse(&"FUNCTION".to_string()),
        Some(UnusedDiagnosticKind::Function)
    );
    assert_eq!(
        UnusedDiagnosticKind::parse(&"MACRO_DEFINITION".to_string()),
        Some(UnusedDiagnosticKind::MacroDefinition)
    );
    assert_eq!(UnusedDiagnosticKind::parse(&"function".to_string()), None);
}

#[test]
fn dirty_tree_without_override_refuses_with_the_files() {
    let status = Status::Unclean {
        dirty: vec!["src/lib.rs".to_string()],
        staged: vec![],
    };
    match check_preconditions(status, false, false, false) {
        ApplyGate::RefuseUnclean { dirty, staged } => {
            assert_eq!(dirty, vec!["src/lib.rs".to_string()]);
            assert!(staged.is_empty());
        }
        _ => panic!("a dirty tree without --allow-dirty must refuse"),
    }
}

#[test]
fn allow_dirty_lets_a_dirty_tree_proceed() {
    let status = Status::Unclean {
        dirty: vec!["src/lib.rs".to_string()],
        staged: vec![],
    };
    assert!(matches!(
        check_preconditions(status, true, false, false),
        ApplyGate::Proceed
    ));
}

#[test]
fn staged_files_need_their_own_override() {
    let status = Status::Unclean {
        dirty: vec![],
        staged: vec!["src/lib.rs".to_string()],
    };
    assert!(matches!(
        check_preconditions(status, true, false, false),
        ApplyGate::RefuseUnclean { .. }
    ));
    let status = Status::Unclean {
        dirty: vec![],
        staged: vec!["src/lib.rs".to_string()],
    };
    assert!(matches!(
        check_preconditions(status, false, true, false),
        ApplyGate::Proceed
    ));
}

#[test]
fn missing_repository_is_gated_by_allow_no_vcs() {
    assert!(matches!(
        check_preconditions(Status::NoRepository, false, false, false),
        ApplyGate::RefuseNoVcs
    ));
    assert!(matches!(
        check_preconditions(Status::NoRepository, false, false, true),
        ApplyGate::Proceed
    ));
}

#[test]
fn clean_tree_proceeds_and_query_errors_refuse() {
    assert!(matches!(
        check_preconditions(Status::Clean, false, false, false),
        ApplyGate::Proceed
    ));
    match check_preconditions(Status::QueryError("broken".to_string()), true, true, true) {
        ApplyGate::RefuseQueryError(m) => assert_eq!(m, "broken"),
        _ => panic!("a failed query must refuse"),
    }
}

#[test]
fn error_categories_have_distinct_exit_codes() {
    assert_eq!(Error::Io("x".to_string()).exit_code(), 3);
    assert_eq!(Error::Utf8("x".to_string()).exit_code(), 2);
    assert_eq!(Error::Args("x".to_string()).exit_code(), 1);
    assert_eq!(Error::CommandLine("x".to_string()).exit_code(), 1);
    assert_eq!(Error::Io("boom".to_string()).message(), "boom");
}

#[test]
fn color_mode_resolves_against_the_stream() {
    assert!(should_color(ColorMode::Always, false));
    assert!(!should_color(ColorMode::Never, true));
    assert!(should_color(ColorMode::Auto, true));
    assert!(!should_color(ColorMode::Auto, false));
    assert_eq!(ColorMode::default(), ColorMode::Auto);
}

fn one_change() -> cargo_minify::cauterize::Change {
    let text = b"fn a() {}\nfn keep() {}\n".to_vec();
    let file = "lib.rs".to_string();
    let items = vec![UnusedItem {
        kind: UnusedDiagnosticKind::Function,
        file: "lib.rs".to_string(),
        name: "a".to_string(),
        span: ByteRange { start: 0, end: 9 },
    }];
    let (change, _) = cauterize_file(&file, &text, &items);
    change.expect("a change")
}

#[test]
fn plain_diff_output_is_byte_exact() {
    let change = one_change();
    let rendered = render(&change, false);
    let expected = b"--- lib.rs\n+++ lib.rs\n@@ -1,1 @@\n-fn a() {}\n".to_vec();
    assert_eq!(rendered, expected);
}

#[test]
fn colored_diff_wraps_deleted_lines_in_red() {
    let change = one_change();
    let rendered = render(&change, true);
    let expected =
        b"--- lib.rs\n+++ lib.rs\n@@ -1,1 @@\n\x1b[31m-fn a() {}\n\x1b[0m".to_vec();
    assert_eq!(rendered, expected);
}

#[test]
fn multi_line_deletions_render_each_line_dashed() {
    let text = b"fn keep() {}\nfn gone() {\n    1;\n}\n".to_vec();
    let file = "lib.rs".to_string();
    let items = vec![UnusedItem {
        kind: UnusedDiagnosticKind::Function,
        file: "lib.rs".to_string(),
        name: "gone".to_string(),
        span: ByteRange { start: 13, end: 33 },
    }];
    let (change, _) = cauterize_file(&file, &text, &items);
    let change = change.expect("a change");
    let rendered = render(&change, false);
    let expected =
        b"--- lib.rs\n+++ lib.rs\n@@ -2,3 @@\n-fn gone() {\n-    1;\n-}\n".to_vec();
    assert_eq!(rendered, expected);
}

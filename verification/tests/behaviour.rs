use std::cmp::Ordering;

use lort::cli::{
    default_log_level, exit_code, file_action, has_py_extension, is_excluded, is_hidden_name,
    sort_source,
    stdin_output, FileAction, LogLevel, StdinOutput,
};
use lort::diff::render_diff;
use lort::paths::path_sort_order;
use lort::error::LortError;
use lort::parser::{
    parse_file, reconstruct_import, FileSegment, ImportKind, ImportStatement, ImportedName,
};
use lort::sorter::{compare_imported_name, compare_module_path, sort_and_reconstruct};

fn sorted(source: &str) -> String {
    sort_source(source, "test.py").expect("should not error")
}

fn error_message(source: &str) -> String {
    sort_source(source, "pkg/mod.py").unwrap_err().to_message()
}

#[test]
fn message_multi_name_import() {
    assert_eq!(
        error_message("x = 1\nimport os, sys  # both\n"),
        "pkg/mod.py:2: Multi-name import statement found (`import os, sys`).\n  Run 'ruff format' to split multi-name imports."
    );
}

#[test]
fn message_backslash_continuation() {
    assert_eq!(
        error_message("import os\nimport sys \\\n"),
        "pkg/mod.py:2: Backslash continuation in import statement.\n  Run 'ruff format' to convert to parenthesized form."
    );
}

#[test]
fn message_backslash_inside_parentheses() {
    assert_eq!(
        error_message("from a import (\n    b, \\\n)\n"),
        "pkg/mod.py:2: Backslash continuation in import statement.\n  Run 'ruff format' to convert to parenthesized form."
    );
}

#[test]
fn message_future_mixed_reports_first_future_line() {
    assert_eq!(
        error_message("import os\nfrom __future__ import annotations\nfrom __future__ import x\n"),
        "pkg/mod.py:2: __future__ imports must appear in their own block before other imports."
    );
}

#[test]
fn message_parse_error_without_import_keyword() {
    assert_eq!(
        error_message("from os\n"),
        "pkg/mod.py:1: Failed to parse import: expected 'import' keyword after module path"
    );
}

#[test]
fn message_io_error() {
    let e = LortError::Io {
        path: "a.py".to_string(),
        message: "denied".to_string(),
    };
    assert_eq!(e.to_message(), "I/O error on a.py: denied");
}

#[test]
fn message_line_number_with_several_digits() {
    let mut source = String::new();
    for _ in 0..122 {
        source.push_str("x = 1\n");
    }
    source.push_str("import a, b\n");
    assert!(error_message(&source).starts_with("pkg/mod.py:123: "));
}

#[test]
fn future_block_alone_is_accepted() {
    assert_eq!(
        sorted("from __future__ import annotations\n\nimport os\n"),
        "from __future__ import annotations\n\nimport os\n"
    );
}

#[test]
fn crlf_lines_are_read_as_lines() {
    assert_eq!(sorted("import csv\r\nimport os\r\n"), "import os\nimport csv\n");
}

#[test]
fn no_trailing_newline_gets_one() {
    assert_eq!(sorted("import csv\nimport os"), "import os\nimport csv\n");
}

#[test]
fn blank_line_at_end_is_kept() {
    assert_eq!(sorted("x = 1\n\n"), "x = 1\n\n");
    assert_eq!(sorted("import os\n\n"), "import os\n\n");
}

#[test]
fn only_newline_stays_a_newline() {
    assert_eq!(sorted("\n"), "\n");
}

#[test]
fn unterminated_parenthesized_import_at_end() {
    assert_eq!(
        sorted("from a import (\n    cc,\n    b,\n"),
        "from a import (\n    b,\n    cc,\n)\n"
    );
}

#[test]
fn comment_after_closing_parenthesis_is_kept() {
    assert_eq!(
        sorted("from a import (\n    cc,\n    b,\n)  # note\n"),
        "from a import (\n    b,\n    cc,\n)  # note\n"
    );
}

#[test]
fn names_that_tie_keep_their_order() {
    assert_eq!(
        sorted("from m import x as b, x as a, y\n"),
        "from m import x as b, x as a, y\n"
    );
}

#[test]
fn unicode_segment_length_counts_bytes() {
    // "é" takes two bytes, "ab" two as well: the alphabet decides ('a' < 'é').
    assert_eq!(sorted("import é\nimport ab\n"), "import ab\nimport é\n");
    // "é" (2 bytes) is longer than "z" (1 byte).
    assert_eq!(sorted("import é\nimport z\n"), "import z\nimport é\n");
}

#[test]
fn sorting_twice_changes_nothing() {
    let once = sorted(
        "from typing import Optional, Any\nimport collections\nfrom . import b\nimport os\nfrom .a import c\n",
    );
    assert_eq!(once, sorted(&once));
}

#[test]
fn module_order_is_antisymmetric_and_transitive() {
    let paths = ["os", "abc", "a.b", "a.b.c", "a.bc", "xml.sax", "xml.parsers", "é"];
    for a in paths {
        for b in paths {
            assert_eq!(compare_module_path(a, b), compare_module_path(b, a).reverse());
            assert_eq!(compare_module_path(a, b) == Ordering::Equal, a == b);
            for c in paths {
                if compare_module_path(a, b) != Ordering::Greater
                    && compare_module_path(b, c) != Ordering::Greater
                {
                    assert_ne!(compare_module_path(a, c), Ordering::Greater);
                }
            }
        }
    }
}

#[test]
fn parent_module_before_child() {
    assert_eq!(compare_module_path("pkg", "pkg.sub"), Ordering::Less);
    assert_eq!(compare_module_path("", "."), Ordering::Less);
}

#[test]
fn imported_name_order_length_then_alphabet() {
    assert_eq!(compare_imported_name("*", "ab"), Ordering::Less);
    assert_eq!(compare_imported_name("ba", "ab"), Ordering::Greater);
    assert_eq!(compare_imported_name("ab", "ab"), Ordering::Equal);
}

#[test]
fn plain_import_alias_round_trips() {
    let segments = parse_file("import numpy as np  # arrays\n", "t.py").unwrap();
    match &segments[0] {
        FileSegment::Import(stmt) => {
            assert_eq!(stmt.kind, ImportKind::Import);
            assert_eq!(stmt.module, "numpy");
            assert_eq!(stmt.alias.as_deref(), Some("np"));
            assert_eq!(reconstruct_import(stmt), "import numpy as np  # arrays");
        }
        _ => panic!("expected Import segment"),
    }
}

#[test]
fn empty_segments_reconstruct_to_empty_text() {
    assert_eq!(sort_and_reconstruct(Vec::new(), "t.py").unwrap(), "");
}

#[test]
fn exclude_patterns() {
    let pats = vec!["*_pb2.py".to_string()];
    assert!(is_excluded("src/gen/a_pb2.py", &pats));
    assert!(!is_excluded("src/gen/a_pb2.pyi", &pats));
    let pats = vec!["migrations/*".to_string()];
    assert!(is_excluded("app/migrations/0001.py", &pats));
    assert!(!is_excluded("app/migration.py", &pats));
    let pats = vec!["vendor".to_string()];
    assert!(is_excluded("x/vendor/y.py", &pats));
    assert!(!is_excluded("x/y.py", &pats));
    assert!(!is_excluded("x/y.py", &[]));
}

#[test]
fn hidden_names() {
    assert!(is_hidden_name(".git"));
    assert!(!is_hidden_name("."));
    assert!(!is_hidden_name("src"));
}

#[test]
fn actions_for_files() {
    assert_eq!(file_action("a", "a", true, true, false), FileAction::AlreadySorted);
    assert_eq!(file_action("a", "b", false, true, false), FileAction::ShowDiff);
    assert_eq!(file_action("a", "b", true, false, false), FileAction::ReportUnsorted);
    assert_eq!(file_action("a", "b", true, false, true), FileAction::CountUnsorted);
    assert_eq!(
        file_action("a", "b", false, false, false),
        FileAction::Write { announce: true }
    );
    assert_eq!(
        file_action("a", "b", false, false, true),
        FileAction::Write { announce: false }
    );
}

#[test]
fn stdin_outputs() {
    assert_eq!(stdin_output("a", "a", true, true), StdinOutput::Source);
    assert_eq!(stdin_output("a", "b", false, true), StdinOutput::Diff);
    assert_eq!(stdin_output("a", "b", true, false), StdinOutput::Sorted);
    assert_eq!(stdin_output("a", "b", false, false), StdinOutput::Sorted);
}

#[test]
fn exit_codes() {
    assert_eq!(exit_code(true, true, true, true), 2);
    assert_eq!(exit_code(false, true, true, false), 1);
    assert_eq!(exit_code(false, true, false, true), 1);
    assert_eq!(exit_code(false, true, false, false), 0);
    assert_eq!(exit_code(false, false, true, true), 0);
}

#[test]
fn log_levels() {
    assert_eq!(default_log_level(true, true), LogLevel::Info);
    assert_eq!(default_log_level(false, true), LogLevel::Error);
    assert_eq!(default_log_level(false, false), LogLevel::Warn);
}

#[test]
fn diff_without_color() {
    let text = render_diff("a.py", "import csv\nimport os\n", "import os\nimport csv\n", false);
    assert_eq!(
        text,
        "--- a.py\n+++ a.py\n@@ -1,2 +1,2 @@\n+import os\n import csv\n-import os\n"
    );
}

#[test]
fn diff_with_color() {
    let text = render_diff("a.py", "import csv\nimport os\n", "import os\nimport csv\n", true);
    assert_eq!(
        text,
        "\u{1b}[1m--- a.py\u{1b}[0m\n\u{1b}[1m+++ a.py\u{1b}[0m\n\u{1b}[36m@@ -1,2 +1,2 @@\u{1b}[39m\n\u{1b}[32m+import os\n\u{1b}[39m import csv\n\u{1b}[31m-import os\n\u{1b}[39m"
    );
}

#[test]
fn diff_line_without_newline_gets_one() {
    let text = render_diff("a.py", "import csv\nimport os", "import os\nimport csv\n", false);
    assert!(text.ends_with("-import os\n"), "got: {text}");
    assert!(!text.contains("\n\n"), "got: {text}");
}

#[test]
fn comment_after_one_line_parenthesized_import_is_kept() {
    assert_eq!(
        sorted("from x import (bb, a)  # noqa\n"),
        "from x import a, bb  # noqa\n"
    );
}

#[test]
fn comments_on_name_lines_move_with_their_names() {
    let source = "from x import (\n    bb,  # second\n    a,  # first\n)\n";
    let expected = "from x import (\n    a,  # first\n    bb,  # second\n)\n";
    assert_eq!(sorted(source), expected);
    assert_eq!(sorted(expected), expected);
}

#[test]
fn comment_only_line_in_parentheses_joins_the_name_before_it() {
    let source = "from x import (\n    bb,\n    # about bb\n    a,\n)\n";
    assert_eq!(sorted(source), "from x import (\n    a,\n    bb,  # about bb\n)\n");
}

#[test]
fn comment_on_opening_line_goes_after_closing_parenthesis() {
    let source = "from x import (  # group\n    bb,\n    a,\n)\n";
    let expected = "from x import (\n    a,\n    bb,\n)  # group\n";
    assert_eq!(sorted(source), expected);
    assert_eq!(sorted(expected), expected);
}

#[test]
fn multi_line_import_after_other_lines_takes_its_own_lines() {
    let source = "import os\nfrom a import (b,\n    cc,\n    d)\nx = 1\n";
    let segments = parse_file(source, "test.py").unwrap();
    assert_eq!(segments.len(), 3);
    match &segments[1] {
        FileSegment::Import(stmt) => {
            assert_eq!(stmt.module, "a");
            assert_eq!(stmt.line_number, 2);
            assert!(stmt.is_multiline);
            let names: Vec<&str> = stmt.names.iter().map(|n| n.name.as_str()).collect();
            assert_eq!(names, vec!["b", "cc", "d"]);
        }
        other => panic!("expected an import, got {other:?}"),
    }
    assert_eq!(segments[2], FileSegment::NonImport("x = 1".to_string()));
}

#[test]
fn python_extension() {
    assert!(has_py_extension("a.py"));
    assert!(has_py_extension("..py"));
    assert!(!has_py_extension(".py"));
    assert!(!has_py_extension("a.pyc"));
    assert!(!has_py_extension("py"));
    assert!(!has_py_extension("a.py.txt"));
}

fn name(text: &str, alias: Option<&str>, comment: Option<&str>) -> ImportedName {
    ImportedName {
        name: text.to_string(),
        alias: alias.map(String::from),
        comment: comment.map(String::from),
    }
}

fn reads_back(stmt: ImportStatement) {
    let text = reconstruct_import(&stmt) + "\n";
    let segments = parse_file(&text, "test.py").unwrap();
    let expected = ImportStatement { line_number: 1, ..stmt };
    assert_eq!(segments, vec![FileSegment::Import(expected)], "text: {text}");
}

#[test]
fn reconstructed_statements_read_back() {
    reads_back(ImportStatement {
        kind: ImportKind::Import,
        module: "numpy".to_string(),
        alias: Some("np".to_string()),
        names: vec![],
        inline_comment: Some("# noqa".to_string()),
        line_number: 7,
        is_relative: false,
        is_future: false,
        is_multiline: false,
    });
    reads_back(ImportStatement {
        kind: ImportKind::FromImport,
        module: "..pkg".to_string(),
        alias: None,
        names: vec![name("join", Some("j"), None), name("x", None, None)],
        inline_comment: None,
        line_number: 3,
        is_relative: true,
        is_future: false,
        is_multiline: false,
    });
    reads_back(ImportStatement {
        kind: ImportKind::FromImport,
        module: "os.path".to_string(),
        alias: None,
        names: vec![name("a", None, Some("# first")), name("bb", Some("b"), None)],
        inline_comment: Some("# block".to_string()),
        line_number: 12,
        is_relative: false,
        is_future: false,
        is_multiline: true,
    });
}

#[test]
fn sorting_sorted_output_changes_nothing() {
    let source = "from __future__ import annotations\n\nimport sys\nimport os\nfrom typing import (\n    Optional,  # maybe\n    Any,\n)  # types\nfrom . import b, a\n\nx = 1\nimport csv  # data\nimport abc\n";
    let once = sorted(source);
    assert_eq!(sorted(&once), once);
}

fn strings(v: &[&str]) -> Vec<String> {
    v.iter().map(|s| s.to_string()).collect()
}

#[test]
fn paths_are_ordered_component_by_component() {
    let paths = strings(&["b.py", "a/b.py", "a.py", "./c.py", "/z.py", "a/../x.py"]);
    assert_eq!(path_sort_order(&paths), vec![4, 3, 5, 1, 2, 0]);
}

#[test]
fn paths_with_equal_components_keep_their_order() {
    assert_eq!(path_sort_order(&strings(&["a/b", "a//b", "a/./b"])), vec![0, 1, 2]);
    assert_eq!(path_sort_order(&strings(&["a/./b", "a//b", "a/b"])), vec![0, 1, 2]);
}

#[test]
fn path_order_agrees_with_std() {
    let paths = strings(&[
        "src/z.py", "src/a/b.py", "src/a.py", "src-x/a.py", "./m.py", "/abs/q.py", "s/../t.py",
        "src/a/b.py", "é.py", "e.py",
    ]);
    let order = path_sort_order(&paths);
    let ours: Vec<std::path::PathBuf> =
        order.iter().map(|&i| std::path::PathBuf::from(&paths[i])).collect();
    let mut theirs: Vec<std::path::PathBuf> = paths.iter().map(std::path::PathBuf::from).collect();
    theirs.sort();
    assert_eq!(ours, theirs);
}

#[test]
fn sorting_sorted_crlf_output_changes_nothing() {
    let source = "import sys\r\nimport os\r\nfrom x import (\r\n    bb,  # two\r\n    a,\r\n)\r\n\r\ny = 1\r\n";
    let once = sorted(source);
    assert_eq!(
        once,
        "import os\nimport sys\nfrom x import (\n    a,\n    bb,  # two\n)\n\ny = 1\n"
    );
    assert_eq!(sorted(&once), once);
}

#[test]
fn carriage_return_ending_the_last_line_is_read_once_more() {
    let once = sorted("x = 1\r");
    assert_eq!(once, "x = 1\r\n");
    assert_eq!(sorted(&once), "x = 1\n");
}

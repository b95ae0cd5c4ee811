use lort::parser::{
    parse_file, reconstruct_import, FileSegment, ImportKind, ImportStatement, ImportedName,
};

#[test]
fn test_parse_simple_import() {
    let source = "import os\n";
    let segments = parse_file(source, "test.py").unwrap();
    assert_eq!(segments.len(), 1);
    match &segments[0] {
        FileSegment::Import(stmt) => {
            assert_eq!(stmt.kind, ImportKind::Import);
            assert_eq!(stmt.module, "os");
            assert!(!stmt.is_relative);
            assert!(!stmt.is_future);
        }
        _ => panic!("expected Import segment"),
    }
}

#[test]
fn test_parse_from_import() {
    let source = "from os.path import join, exists\n";
    let segments = parse_file(source, "test.py").unwrap();
    assert_eq!(segments.len(), 1);
    match &segments[0] {
        FileSegment::Import(stmt) => {
            assert_eq!(stmt.kind, ImportKind::FromImport);
            assert_eq!(stmt.module, "os.path");
            assert_eq!(stmt.names.len(), 2);
            assert_eq!(stmt.names[0].name, "join");
            assert_eq!(stmt.names[1].name, "exists");
        }
        _ => panic!("expected Import segment"),
    }
}

#[test]
fn test_parse_from_import_with_alias() {
    let source = "from os.path import join as j\n";
    let segments = parse_file(source, "test.py").unwrap();
    match &segments[0] {
        FileSegment::Import(stmt) => {
            assert_eq!(stmt.names[0].name, "join");
            assert_eq!(stmt.names[0].alias.as_deref(), Some("j"));
        }
        _ => panic!("expected Import segment"),
    }
}

#[test]
fn test_parse_multiline_parenthesized() {
    let source = "from typing import (\n    Any,\n    Dict,\n    List,\n)\n";
    let segments = parse_file(source, "test.py").unwrap();
    assert_eq!(segments.len(), 1);
    match &segments[0] {
        FileSegment::Import(stmt) => {
            assert_eq!(stmt.module, "typing");
            assert_eq!(stmt.names.len(), 3);
            assert_eq!(stmt.names[0].name, "Any");
            assert_eq!(stmt.names[1].name, "Dict");
            assert_eq!(stmt.names[2].name, "List");
        }
        _ => panic!("expected Import segment"),
    }
}

#[test]
fn test_reject_multi_name_import() {
    let source = "import os, sys\n";
    let result = parse_file(source, "test.py");
    assert!(result.is_err());
    let err = result.unwrap_err();
    assert!(err.to_message().contains("Multi-name import"), "got: {}", err.to_message());
}

#[test]
fn test_reject_backslash_continuation() {
    let source = "from os.path import \\\n    join\n";
    let result = parse_file(source, "test.py");
    assert!(result.is_err());
    let err = result.unwrap_err();
    assert!(
        err.to_message().contains("Backslash continuation"),
        "got: {}", err.to_message()
    );
}

#[test]
fn test_relative_import() {
    let source = "from . import foo\n";
    let segments = parse_file(source, "test.py").unwrap();
    match &segments[0] {
        FileSegment::Import(stmt) => {
            assert!(stmt.is_relative);
            assert_eq!(stmt.module, ".");
        }
        _ => panic!("expected Import segment"),
    }
}

#[test]
fn test_future_import() {
    let source = "from __future__ import annotations\n";
    let segments = parse_file(source, "test.py").unwrap();
    match &segments[0] {
        FileSegment::Import(stmt) => {
            assert!(stmt.is_future);
            assert_eq!(stmt.module, "__future__");
        }
        _ => panic!("expected Import segment"),
    }
}

#[test]
fn test_inline_comment_preserved() {
    let source = "import os  # needed\n";
    let segments = parse_file(source, "test.py").unwrap();
    match &segments[0] {
        FileSegment::Import(stmt) => {
            assert_eq!(stmt.inline_comment.as_deref(), Some("# needed"));
        }
        _ => panic!("expected Import segment"),
    }
}

#[test]
fn test_indented_imports_are_non_import() {
    let source = "if True:\n    import os\n";
    let segments = parse_file(source, "test.py").unwrap();
    assert!(matches!(segments[0], FileSegment::NonImport(_)));
    assert!(matches!(segments[1], FileSegment::NonImport(_)));
}

#[test]
fn test_reconstruct_simple_import() {
    let stmt = ImportStatement {
        kind: ImportKind::Import,
        module: "os".to_string(),
        alias: None,
        names: Vec::new(),
        inline_comment: None,
        line_number: 1,
        is_relative: false,
        is_future: false,
        is_multiline: false,
    };
    assert_eq!(reconstruct_import(&stmt), "import os");
}

#[test]
fn test_reconstruct_from_import_with_comment() {
    let stmt = ImportStatement {
        kind: ImportKind::FromImport,
        module: "os.path".to_string(),
        alias: None,
        names: vec![
            ImportedName {
                name: "join".to_string(),
                alias: Some("j".to_string()),
                comment: None,
            },
            ImportedName {
                name: "exists".to_string(),
                alias: None,
                comment: None,
            },
        ],
        inline_comment: Some("# utils".to_string()),
        line_number: 1,
        is_relative: false,
        is_future: false,
        is_multiline: false,
    };
    assert_eq!(
        reconstruct_import(&stmt),
        "from os.path import join as j, exists  # utils"
    );
}

#[test]
fn test_reconstruct_multiline_import() {
    let stmt = ImportStatement {
        kind: ImportKind::FromImport,
        module: "sync_tools.sync".to_string(),
        alias: None,
        names: vec![
            ImportedName {
                name: "build_copy_plan".to_string(),
                alias: None,
                comment: None,
            },
            ImportedName {
                name: "display_sync_plan".to_string(),
                alias: None,
                comment: None,
            },
            ImportedName {
                name: "execute_sync_plan".to_string(),
                alias: None,
                comment: None,
            },
        ],
        inline_comment: None,
        line_number: 1,
        is_relative: false,
        is_future: false,
        is_multiline: true,
    };
    assert_eq!(
        reconstruct_import(&stmt),
        "from sync_tools.sync import (\n\
         \x20   build_copy_plan,\n\
         \x20   display_sync_plan,\n\
         \x20   execute_sync_plan,\n\
         )"
    );
}

#[test]
fn test_roundtrip_multiline_parenthesized() {
    let source = "from typing import (\n    Any,\n    Dict,\n    List,\n)\n";
    let segments = parse_file(source, "test.py").unwrap();
    match &segments[0] {
        FileSegment::Import(stmt) => {
            assert!(stmt.is_multiline);
            let reconstructed = reconstruct_import(stmt);
            assert_eq!(
                reconstructed,
                "from typing import (\n    Any,\n    Dict,\n    List,\n)"
            );
        }
        _ => panic!("expected Import segment"),
    }
}

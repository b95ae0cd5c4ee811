use std::cmp::Ordering;

use lort::parser::{ImportKind, ImportStatement, ImportedName};
use lort::sorter::{
    compare_module_path, sort_import_block, sort_imported_names, validate_future_imports,
};

#[test]
fn test_compare_module_path_length_first() {
    assert_eq!(compare_module_path("os", "abc"), Ordering::Less);
    assert_eq!(compare_module_path("os", "collections"), Ordering::Less);
    assert_eq!(compare_module_path("re", "csv"), Ordering::Less);
}

#[test]
fn test_compare_module_path_alpha_tiebreak() {
    assert_eq!(compare_module_path("abc", "ast"), Ordering::Less);
    assert_eq!(compare_module_path("csv", "sys"), Ordering::Less);
}

#[test]
fn test_compare_module_path_parent_before_child() {
    assert_eq!(compare_module_path("a.b", "a.b.c"), Ordering::Less);
    assert_eq!(compare_module_path("a.b.c", "a.b"), Ordering::Greater);
}

#[test]
fn test_compare_module_path_segment_by_segment() {
    // xml.sax (seg2: 3) < xml.parsers (seg2: 7)
    assert_eq!(
        compare_module_path("xml.sax.handler", "xml.parsers.expat"),
        Ordering::Less
    );
}

#[test]
fn test_compare_module_path_equal() {
    assert_eq!(compare_module_path("os.path", "os.path"), Ordering::Equal);
}

#[test]
fn test_sort_imported_names() {
    let mut stmt = ImportStatement {
        kind: ImportKind::FromImport,
        module: "typing".to_string(),
        alias: None,
        names: vec![
            ImportedName {
                name: "Optional".to_string(),
                alias: None,
                comment: None,
            },
            ImportedName {
                name: "Any".to_string(),
                alias: None,
                comment: None,
            },
            ImportedName {
                name: "List".to_string(),
                alias: None,
                comment: None,
            },
            ImportedName {
                name: "Dict".to_string(),
                alias: None,
                comment: None,
            },
        ],
        inline_comment: None,
        line_number: 1,
        is_relative: false,
        is_future: false,
        is_multiline: false,
    };
    sort_imported_names(&mut stmt);
    let names: Vec<&str> = stmt.names.iter().map(|n| n.name.as_str()).collect();
    assert_eq!(names, vec!["Any", "Dict", "List", "Optional"]);
}

#[test]
fn test_sort_block_import_before_from() {
    let mut block = vec![
        ImportStatement {
            kind: ImportKind::FromImport,
            module: "os.path".to_string(),
            alias: None,
            names: vec![ImportedName {
                name: "join".to_string(),
                alias: None,
                comment: None,
            }],
            inline_comment: None,
            line_number: 1,
            is_relative: false,
            is_future: false,
            is_multiline: false,
        },
        ImportStatement {
            kind: ImportKind::Import,
            module: "os".to_string(),
            alias: None,
            names: Vec::new(),
            inline_comment: None,
            line_number: 2,
            is_relative: false,
            is_future: false,
            is_multiline: false,
        },
    ];
    sort_import_block(&mut block);
    assert_eq!(block[0].kind, ImportKind::Import);
    assert_eq!(block[1].kind, ImportKind::FromImport);
}

#[test]
fn test_sort_block_typing_at_bottom() {
    let mut block = vec![
        ImportStatement {
            kind: ImportKind::FromImport,
            module: "typing".to_string(),
            alias: None,
            names: vec![ImportedName {
                name: "Any".to_string(),
                alias: None,
                comment: None,
            }],
            inline_comment: None,
            line_number: 1,
            is_relative: false,
            is_future: false,
            is_multiline: false,
        },
        ImportStatement {
            kind: ImportKind::Import,
            module: "os".to_string(),
            alias: None,
            names: Vec::new(),
            inline_comment: None,
            line_number: 2,
            is_relative: false,
            is_future: false,
            is_multiline: false,
        },
        ImportStatement {
            kind: ImportKind::FromImport,
            module: "collections".to_string(),
            alias: None,
            names: vec![ImportedName {
                name: "defaultdict".to_string(),
                alias: None,
                comment: None,
            }],
            inline_comment: None,
            line_number: 3,
            is_relative: false,
            is_future: false,
            is_multiline: false,
        },
    ];
    sort_import_block(&mut block);
    assert_eq!(block[0].module, "os");
    assert_eq!(block[1].module, "collections");
    assert_eq!(block[2].module, "typing");
}

#[test]
fn test_future_mixed_with_other_is_error() {
    let block = vec![
        ImportStatement {
            kind: ImportKind::FromImport,
            module: "__future__".to_string(),
            alias: None,
            names: vec![ImportedName {
                name: "annotations".to_string(),
                alias: None,
                comment: None,
            }],
            inline_comment: None,
            line_number: 1,
            is_relative: false,
            is_future: true,
            is_multiline: false,
        },
        ImportStatement {
            kind: ImportKind::Import,
            module: "os".to_string(),
            alias: None,
            names: Vec::new(),
            inline_comment: None,
            line_number: 2,
            is_relative: false,
            is_future: false,
            is_multiline: false,
        },
    ];
    let result = validate_future_imports(&block, "test.py");
    assert!(result.is_err());
}

use codemut::cst::{excluded_kind, find_type_except_comment, get_splice_parts, harvest,
    records_wf_exec, SpanRecord};

fn node(kind: &str, start: usize, end: usize) -> SpanRecord {
    SpanRecord {
        kind: kind.to_string(),
        start,
        end,
        start_row: 0,
        start_col: start,
        end_row: 0,
        end_col: end,
    }
}

fn excluded_kinds() -> Vec<&'static str> {
    vec![
        "block_comment",
        "line_comment",
        "{",
        "}",
        "(",
        ")",
        "<",
        ">",
        "//",
        "/*",
        "*/",
        "[",
        "]",
        "=",
    ]
}

#[test]
fn harvest_yields_byte_exact_spans() {
    let src = b"fn f(x: i32) {}".to_vec();
    let records = get_splice_parts(&src).unwrap();
    assert!(records_wf_exec(&src, &records));
    assert!(!records.is_empty());
    let mut identifiers: Vec<&[u8]> = Vec::new();
    let mut saw_i32 = false;
    for r in &records {
        assert!(r.start <= r.end && r.end <= src.len());
        let text = &src[r.start..r.end];
        if r.kind == "identifier" {
            identifiers.push(text);
        }
        if text == b"i32" {
            saw_i32 = true;
        }
    }
    assert_eq!(identifiers, vec![b"f" as &[u8], b"x" as &[u8]]);
    assert!(saw_i32);
}

#[test]
fn harvest_never_yields_excluded_kinds() {
    let src = b"// a comment\n/* block */\nfn f(a: [u8; 1]) -> u8 { a[0] }\nconst X: u8 = <u8>::MAX;\n"
        .to_vec();
    let records = get_splice_parts(&src).unwrap();
    assert!(!records.is_empty());
    for r in &records {
        for k in excluded_kinds() {
            assert_ne!(r.kind, k, "excluded kind {:?} was recorded", k);
        }
    }
}

#[test]
fn excluded_kind_matches_the_policy() {
    for k in excluded_kinds() {
        assert!(excluded_kind(&k.to_string()));
    }
    for k in ["identifier", "type_identifier", "fn", "block", "source_file"] {
        assert!(!excluded_kind(&k.to_string()));
    }
}

#[test]
fn recording_skips_excluded_kinds_and_guarded_offsets() {
    // 16 bytes, 15 characters: the accented letter takes two bytes.
    let src = "let s = \"caf\u{e9}\";".as_bytes().to_vec();
    assert_eq!(src.len(), 16);
    let mut acc = Vec::new();
    find_type_except_comment(&src, &node("line_comment", 0, 3), &mut acc);
    assert!(acc.is_empty());
    find_type_except_comment(&src, &node("identifier", 0, 16), &mut acc);
    assert!(acc.is_empty(), "end offset past the character count must be dropped");
    find_type_except_comment(&src, &node("identifier", 0, 0), &mut acc);
    assert!(acc.is_empty(), "a zero end offset fails the guard");
    find_type_except_comment(&src, &node("identifier", 4, 5), &mut acc);
    assert_eq!(acc.len(), 1);
    assert_eq!(acc[0].kind, "identifier");
    assert_eq!(&src[acc[0].start..acc[0].end], b"s");
}

#[test]
fn harvest_skips_the_root_node() {
    let src = b"ab".to_vec();
    let nodes = vec![
        node("source_file", 0, 2),
        node("identifier", 0, 1),
        node("identifier", 1, 2),
    ];
    let recs = harvest(&src, &nodes);
    assert_eq!(recs.len(), 2);
    assert_eq!((recs[0].start, recs[0].end), (0, 1));
    assert_eq!((recs[1].start, recs[1].end), (1, 2));
}

#[test]
fn harvesting_equal_text_yields_equal_records() {
    let a = b"fn f(x: i32) { x; }".to_vec();
    let b = a.clone();
    let r1 = get_splice_parts(&a).unwrap();
    let r2 = get_splice_parts(&b).unwrap();
    assert_eq!(r1, r2);
}

#[test]
fn records_wf_exec_rejects_foreign_spans() {
    let long_src = b"fn ident_with_length() {}".to_vec();
    let short_src = b"fn f() {}".to_vec();
    let records = get_splice_parts(&long_src).unwrap();
    assert!(records_wf_exec(&long_src, &records));
    assert!(!records_wf_exec(&short_src, &records));
}

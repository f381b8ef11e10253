use codemut::output::mutant_file_name;
use codemut::text::{bytes_eq, bytes_range, char_count, line_count, splice};

#[test]
fn splice_replaces_exactly_the_span() {
    let src = b"hello world".to_vec();
    let repl = b"bye".to_vec();
    let out = splice(&src, 0, 5, &repl);
    assert_eq!(out, b"bye world".to_vec());
}

#[test]
fn splice_with_empty_replacement_deletes_the_span() {
    let src = b"fn f(x: i32) {}".to_vec();
    let out = splice(&src, 8, 11, &Vec::new());
    assert_eq!(out, b"fn f(x: ) {}".to_vec());
}

#[test]
fn splice_on_empty_span_is_a_noop() {
    let src = b"fn f() {}".to_vec();
    let out = splice(&src, 3, 3, &Vec::new());
    assert_eq!(out, src);
}

#[test]
fn splice_at_the_ends() {
    let src = b"abc".to_vec();
    assert_eq!(splice(&src, 0, 3, &b"xy".to_vec()), b"xy".to_vec());
    assert_eq!(splice(&src, 3, 3, &b"d".to_vec()), b"abcd".to_vec());
    assert_eq!(splice(&src, 0, 0, &b"z".to_vec()), b"zabc".to_vec());
}

#[test]
fn bytes_helpers_are_exact() {
    let a = b"snippet".to_vec();
    let b = b"snippet".to_vec();
    let c = b"snippe".to_vec();
    assert!(bytes_eq(&a, &b));
    assert!(!bytes_eq(&a, &c));
    assert_eq!(bytes_range(&a, 1, 4), b"nip".to_vec());
}

#[test]
fn char_count_counts_characters_not_bytes() {
    let ascii = b"abc".to_vec();
    assert_eq!(char_count(&ascii), 3);
    let accented = "caf\u{e9}".as_bytes().to_vec();
    assert_eq!(accented.len(), 5);
    assert_eq!(char_count(&accented), 4);
    assert_eq!(char_count(&Vec::new()), 0);
}

#[test]
fn line_count_matches_standard_line_splitting() {
    for text in ["", "a", "a\n", "a\nb", "a\nb\n", "\n", "\n\n", "x\r\ny"] {
        let bytes = text.as_bytes().to_vec();
        assert_eq!(line_count(&bytes), text.lines().count(), "text {:?}", text);
    }
}

#[test]
fn mutant_file_names_are_deterministic() {
    let name = b"foo.rs".to_vec();
    assert_eq!(mutant_file_name(&name, 1), b"mut_foo.rs_1.rs".to_vec());
    assert_eq!(mutant_file_name(&name, 210), b"mut_foo.rs_210.rs".to_vec());
    assert_eq!(mutant_file_name(&name, 10), b"mut_foo.rs_10.rs".to_vec());
}

#[test]
fn mutant_file_names_do_not_collide() {
    let name = b"seed.rs".to_vec();
    let mut seen = Vec::new();
    for i in 1..50usize {
        let n = mutant_file_name(&name, i);
        assert!(!seen.contains(&n));
        seen.push(n);
    }
}

use codemut::corpus::Corpus;
use codemut::cst::{get_splice_parts, SpanRecord};
use codemut::mutate::{
    get_struct_crushed_sources, mutate_delete_only, mutate_self, mutate_splice,
    mutate_splice_randtype,
};
use codemut::MutationError;

fn record(kind: &str, start: usize, end: usize) -> SpanRecord {
    SpanRecord {
        kind: kind.to_string(),
        start,
        end,
        start_row: 0,
        start_col: start,
        end_row: 0,
        end_col: end,
    }
}

#[test]
fn delete_only_count_zero_emits_one_variant_per_span() {
    let src = b"fn f(x: i32) {}".to_vec();
    let records = get_splice_parts(&src).unwrap();
    let ms = get_struct_crushed_sources(&src, 0, 0).unwrap();
    assert_eq!(ms.len(), records.len());
    assert!(ms.iter().any(|m| m.text == b"fn f(x: ) {}".to_vec()));
    for m in &ms {
        assert!(m.replacement.is_empty());
        assert_eq!(m.original, src[m.start..m.end].to_vec());
    }
}

#[test]
fn delete_only_bounded_respects_the_count() {
    let src = b"fn f(x: i32) {}".to_vec();
    let records = get_splice_parts(&src).unwrap();
    assert!(records.len() > 2);
    let ms = mutate_delete_only(&src, &records, 2);
    assert_eq!(ms.len(), 2);
    let all = mutate_delete_only(&src, &records, records.len() + 100);
    assert_eq!(all.len(), records.len());
}

#[test]
fn self_splice_exhaustive_swaps_same_kind_snippets() {
    let src = b"fn f(x: i32) {}".to_vec();
    let records = get_splice_parts(&src).unwrap();
    let ms = mutate_self(&src, &records, 0);
    assert!(ms.iter().any(|m| m.text == b"fn x(x: i32) {}".to_vec()));
    assert!(ms.iter().any(|m| m.text == b"fn f(f: i32) {}".to_vec()));
    for m in &ms {
        assert!(!m.replacement.is_empty());
        assert_ne!(m.replacement, m.original);
        assert_eq!(m.replacement_kind, m.kind);
    }
}

#[test]
fn self_splice_bounded_respects_the_count() {
    let src = b"fn foo(bar: i32) { let baz = bar; }".to_vec();
    let records = get_splice_parts(&src).unwrap();
    let ms = mutate_self(&src, &records, 3);
    assert!(ms.len() <= 3);
    for m in &ms {
        assert!(!m.replacement.is_empty());
        assert_ne!(m.replacement, m.original);
    }
}

#[test]
fn cross_file_splice_draws_only_aggregated_same_kind_candidates() {
    let a = b"fn foo() {}".to_vec();
    let b = b"fn bar() {}".to_vec();
    let mut corpus = Corpus::new();
    corpus.add_records(&a, &get_splice_parts(&a).unwrap());
    corpus.add_records(&b, &get_splice_parts(&b).unwrap());
    let foo_span = record("identifier", 3, 6);
    let records = vec![foo_span];
    let r = mutate_splice(&a, &corpus, &records, 1).unwrap();
    assert!(r.len() <= 1);
    assert_eq!(r.len(), 1);
    assert_eq!(r[0].original, b"foo".to_vec());
    assert_eq!(r[0].replacement, b"bar".to_vec());
    assert_eq!(r[0].text, b"fn bar() {}".to_vec());
}

#[test]
fn splice_rejects_zero_count() {
    let src = b"fn f() {}".to_vec();
    let records = get_splice_parts(&src).unwrap();
    let corpus = Corpus::new();
    assert_eq!(
        mutate_splice(&src, &corpus, &records, 0).unwrap_err(),
        MutationError::ZeroMutationCount
    );
    assert_eq!(
        mutate_splice_randtype(&src, &corpus, &records, 0).unwrap_err(),
        MutationError::ZeroMutationCount
    );
}

#[test]
fn invalid_mode_is_reported() {
    let src = b"fn f() {}".to_vec();
    assert_eq!(
        get_struct_crushed_sources(&src, 7, 1).unwrap_err(),
        MutationError::InvalidMode
    );
    assert_eq!(
        get_struct_crushed_sources(&src, -1, 0).unwrap_err(),
        MutationError::InvalidMode
    );
}

#[test]
fn stalled_splice_terminates_with_zero_mutations() {
    let src = b"fn f() {}".to_vec();
    let records = vec![record("identifier", 3, 4)];
    let mut corpus = Corpus::new();
    corpus.add_snippet(&"identifier".to_string(), &b"f".to_vec());
    let r = mutate_splice(&src, &corpus, &records, 5).unwrap();
    assert_eq!(r.len(), 0);
}

#[test]
fn stalled_splice_on_an_empty_corpus_yields_nothing() {
    let src = b"fn f() {}".to_vec();
    let records = get_splice_parts(&src).unwrap();
    let corpus = Corpus::new();
    let r = mutate_splice(&src, &corpus, &records, 5).unwrap();
    assert_eq!(r.len(), 0);
    let r = mutate_splice_randtype(&src, &corpus, &records, 5).unwrap();
    assert_eq!(r.len(), 0);
}

#[test]
fn random_kind_splice_may_cross_kinds() {
    let src = b"x".to_vec();
    let records = vec![record("identifier", 0, 1)];
    let mut corpus = Corpus::new();
    corpus.add_snippet(&"identifier".to_string(), &b"x".to_vec());
    corpus.add_snippet(&"type_identifier".to_string(), &b"i32".to_vec());
    let same_kind = mutate_splice(&src, &corpus, &records, 1).unwrap();
    assert_eq!(same_kind.len(), 0);
    let crossed = mutate_splice_randtype(&src, &corpus, &records, 1).unwrap();
    assert_eq!(crossed.len(), 1);
    assert_eq!(crossed[0].replacement, b"i32".to_vec());
    assert_eq!(crossed[0].text, b"i32".to_vec());
    assert_eq!(crossed[0].kind, "identifier".to_string());
    assert_eq!(crossed[0].replacement_kind, "type_identifier".to_string());
}

#[test]
fn splice_never_emits_a_noop_or_empty_replacement() {
    let src = b"fn foo(bar: i32) -> i32 { bar }".to_vec();
    let records = get_splice_parts(&src).unwrap();
    let mut corpus = Corpus::new();
    corpus.add_records(&src, &records);
    let other = b"fn baz(qux: u64) -> u64 { qux }".to_vec();
    corpus.add_records(&other, &get_splice_parts(&other).unwrap());
    let r = mutate_splice(&src, &corpus, &records, 10).unwrap();
    assert!(r.len() <= 10);
    for m in &r {
        assert!(!m.replacement.is_empty());
        assert_ne!(m.replacement, m.original);
        assert_ne!(m.text, src);
        assert_eq!(m.original, src[m.start..m.end].to_vec());
    }
    let r = mutate_splice_randtype(&src, &corpus, &records, 10).unwrap();
    for m in &r {
        assert!(!m.replacement.is_empty());
        assert_ne!(m.replacement, m.original);
        assert_eq!(m.original, src[m.start..m.end].to_vec());
    }
}

#[test]
fn deleting_a_zero_length_span_is_a_noop_and_does_not_crash() {
    let src = b"fn f() {}".to_vec();
    let records = vec![record("identifier", 3, 3), record("identifier", 3, 4)];
    let ms = mutate_delete_only(&src, &records, 0);
    assert_eq!(ms.len(), 2);
    assert_eq!(ms[0].text, src);
    assert_eq!(ms[1].text, b"fn () {}".to_vec());
}

#[test]
fn driver_runs_delete_only_over_the_harvested_records() {
    let src = b"fn f(x: i32) {}".to_vec();
    let ms = get_struct_crushed_sources(&src, 0, 0).unwrap();
    let direct = mutate_delete_only(&src, &get_splice_parts(&src).unwrap(), 0);
    assert_eq!(ms.len(), direct.len());
    for (a, b) in ms.iter().zip(direct.iter()) {
        assert_eq!(a.text, b.text);
        assert_eq!((a.start, a.end), (b.start, b.end));
        assert_eq!(a.kind, b.kind);
    }
}

#[test]
fn driver_runs_self_splice_exhaustively() {
    let src = b"fn f(x: i32) {}".to_vec();
    let ms = get_struct_crushed_sources(&src, 1, 0).unwrap();
    let direct = mutate_self(&src, &get_splice_parts(&src).unwrap(), 0);
    assert_eq!(ms.len(), direct.len());
    for (a, b) in ms.iter().zip(direct.iter()) {
        assert_eq!(a.text, b.text);
        assert_eq!(a.replacement, b.replacement);
    }
}

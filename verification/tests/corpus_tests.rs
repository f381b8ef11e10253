use codemut::corpus::Corpus;
use codemut::cst::get_splice_parts;

#[test]
fn corpus_never_holds_duplicate_snippets() {
    let mut c = Corpus::new();
    let kind = "identifier".to_string();
    c.add_snippet(&kind, &b"x".to_vec());
    c.add_snippet(&kind, &b"x".to_vec());
    c.add_snippet(&kind, &b"y".to_vec());
    c.add_snippet(&kind, &b"x".to_vec());
    assert_eq!(c.entries.len(), 1);
    let cands = &c.entries[0].cands;
    assert_eq!(*cands, vec![b"".to_vec(), b"x".to_vec(), b"y".to_vec()]);
    for i in 0..cands.len() {
        for j in 0..i {
            assert_ne!(cands[i], cands[j]);
        }
    }
}

#[test]
fn fresh_kind_starts_with_the_empty_snippet() {
    let mut c = Corpus::new();
    c.add_snippet(&"type_identifier".to_string(), &b"i32".to_vec());
    assert_eq!(c.entries[0].cands, vec![b"".to_vec(), b"i32".to_vec()]);
}

#[test]
fn empty_snippet_on_a_fresh_kind_is_not_doubled() {
    let mut c = Corpus::new();
    c.add_snippet(&"identifier".to_string(), &Vec::new());
    assert_eq!(c.entries.len(), 1);
    assert_eq!(c.entries[0].cands, vec![b"".to_vec()]);
}

#[test]
fn kinds_are_kept_apart() {
    let mut c = Corpus::new();
    c.add_snippet(&"identifier".to_string(), &b"x".to_vec());
    c.add_snippet(&"type_identifier".to_string(), &b"x".to_vec());
    assert_eq!(c.entries.len(), 2);
    assert_eq!(c.find_kind(&"identifier".to_string()), Some(0));
    assert_eq!(c.find_kind(&"type_identifier".to_string()), Some(1));
    assert_eq!(c.find_kind(&"block".to_string()), None);
}

#[test]
fn add_records_aggregates_across_files_with_dedup() {
    let a = b"fn foo() {}".to_vec();
    let b = b"fn bar() {}\nfn foo() {}".to_vec();
    let mut c = Corpus::new();
    let recs_a = get_splice_parts(&a).unwrap();
    c.add_records(&a, &recs_a);
    let recs_b = get_splice_parts(&b).unwrap();
    c.add_records(&b, &recs_b);
    let i = c.find_kind(&"identifier".to_string()).unwrap();
    let cands = &c.entries[i].cands;
    assert!(cands.contains(&b"foo".to_vec()));
    assert!(cands.contains(&b"bar".to_vec()));
    assert_eq!(cands[0], b"".to_vec());
    for p in 0..cands.len() {
        for q in 0..p {
            assert_ne!(cands[p], cands[q]);
        }
    }
}

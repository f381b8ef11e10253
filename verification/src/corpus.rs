//! The corpus: a mapping from node kind to the distinct snippets observed
//! for that kind, aggregated across one file or across a whole directory.
//! Every kind's candidate set carries the empty snippet as an implicit
//! deletion candidate, and never holds two textually identical entries.
use crate::cst::{records_wf, SpanRecord};
use crate::text::{bytes_copy, bytes_eq, bytes_range};
use vstd::prelude::*;

verus! {

/// The candidates recorded for one node kind.
#[derive(Debug)]
pub struct CorpusEntry {
    pub kind: String,
    pub cands: Vec<Vec<u8>>,
}

/// A corpus: candidate replacement snippets, keyed by node kind.
#[derive(Debug)]
pub struct Corpus {
    pub entries: Vec<CorpusEntry>,
}

/// The mathematical shape of a corpus: kinds paired with their candidate
/// snippets, in insertion order.
pub type CorpusModel = Seq<(Seq<char>, Seq<Seq<u8>>)>;

/// The snippets of one entry, as byte sequences.
pub open spec fn cands_model(cs: Seq<Vec<u8>>) -> Seq<Seq<u8>> {
    cs.map_values(|v: Vec<u8>| v@)
}

/// One entry, as a kind paired with its snippets.
pub open spec fn entry_model(e: CorpusEntry) -> (Seq<char>, Seq<Seq<u8>>) {
    (e.kind@, cands_model(e.cands@))
}

impl View for Corpus {
    type V = CorpusModel;

    open spec fn view(&self) -> CorpusModel {
        self.entries@.map_values(|e: CorpusEntry| entry_model(e))
    }
}

/// One kind's candidates are well formed: at least the empty snippet,
/// standing first, and no two textually identical candidates.
pub open spec fn entry_wf(e: (Seq<char>, Seq<Seq<u8>>)) -> bool {
    &&& e.1.len() >= 1
    &&& e.1[0] == Seq::<u8>::empty()
    &&& forall|p: int, q: int| 0 <= p < q < e.1.len() ==> e.1[p] != e.1[q]
}

/// A corpus is well formed: kinds are distinct and every kind's candidate
/// set is deduplicated and holds the empty snippet.
pub open spec fn corpus_model_wf(m: CorpusModel) -> bool {
    &&& forall|i: int, j: int| 0 <= i < j < m.len() ==> (#[trigger] m[i]).0 != (#[trigger] m[j]).0
    &&& forall|i: int| 0 <= i < m.len() ==> entry_wf(#[trigger] m[i])
}

/// The candidates a corpus holds for a kind, or `None` for an unseen kind.
pub open spec fn lookup_model(m: CorpusModel, k: Seq<char>) -> Option<Seq<Seq<u8>>>
    decreases m.len(),
{
    if m.len() == 0 {
        None
    } else if m[0].0 == k {
        Some(m[0].1)
    } else {
        lookup_model(m.skip(1), k)
    }
}

/// The entry a fresh kind starts with: the empty snippet, then the
/// observed snippet unless it is itself empty.
pub open spec fn new_entry_model(k: Seq<char>, s: Seq<u8>) -> (Seq<char>, Seq<Seq<u8>>) {
    if s == Seq::<u8>::empty() {
        (k, seq![Seq::<u8>::empty()])
    } else {
        (k, seq![Seq::<u8>::empty(), s])
    }
}

/// A corpus after observing snippet `s` for kind `k`: an unseen kind gets
/// a fresh entry, a seen kind gains the snippet unless it is already
/// present, exact string equality deciding presence.
pub open spec fn insert_model(m: CorpusModel, k: Seq<char>, s: Seq<u8>) -> CorpusModel
    decreases m.len(),
{
    if m.len() == 0 {
        seq![new_entry_model(k, s)]
    } else if m[0].0 == k {
        seq![(m[0].0, if m[0].1.contains(s) { m[0].1 } else { m[0].1.push(s) })] + m.skip(1)
    } else {
        seq![m[0]] + insert_model(m.skip(1), k, s)
    }
}

/// A corpus after observing every record of one source text, in order,
/// each contributing the exact text of its span.
pub open spec fn add_records_model(m: CorpusModel, src: Seq<u8>, recs: Seq<SpanRecord>) -> CorpusModel
    decreases recs.len(),
{
    if recs.len() == 0 {
        m
    } else {
        insert_model(
            add_records_model(m, src, recs.drop_last()),
            recs.last().kind@,
            src.subrange(recs.last().start as int, recs.last().end as int),
        )
    }
}

/// Every kind of a corpus after an insertion is the inserted kind or a
/// kind the corpus already had.
proof fn lemma_insert_kinds(m: CorpusModel, k: Seq<char>, s: Seq<u8>)
    ensures
        forall|i: int|
            0 <= i < insert_model(m, k, s).len() ==> (#[trigger] insert_model(m, k, s)[i]).0 == k
                || exists|j: int| 0 <= j < m.len() && (#[trigger] m[j]).0 == insert_model(m, k, s)[i].0,
    decreases m.len(),
{
    if m.len() == 0 {
    } else if m[0].0 == k {
    } else {
        lemma_insert_kinds(m.skip(1), k, s);
        assert forall|i: int| 0 <= i < insert_model(m, k, s).len() implies (#[trigger] insert_model(
            m,
            k,
            s,
        )[i]).0 == k || exists|j: int|
            0 <= j < m.len() && (#[trigger] m[j]).0 == insert_model(m, k, s)[i].0 by {
            if i == 0 {
                assert(m[0].0 == insert_model(m, k, s)[0].0);
            } else {
                let rest = insert_model(m.skip(1), k, s);
                assert(insert_model(m, k, s)[i] == rest[i - 1]);
                if rest[i - 1].0 != k {
                    let j = choose|j: int| 0 <= j < m.skip(1).len() && m.skip(1)[j].0 == rest[i - 1].0;
                    assert(m[j + 1].0 == rest[i - 1].0);
                }
            }
        }
    }
}

/// Inserting a snippet preserves well-formedness: in particular, no kind's
/// candidate set ever gains a duplicate.
pub proof fn lemma_insert_preserves_wf(m: CorpusModel, k: Seq<char>, s: Seq<u8>)
    requires
        corpus_model_wf(m),
    ensures
        corpus_model_wf(insert_model(m, k, s)),
    decreases m.len(),
{
    let r = insert_model(m, k, s);
    if m.len() == 0 {
        assert(entry_wf(new_entry_model(k, s)));
        assert(forall|i: int| 0 <= i < r.len() ==> entry_wf(#[trigger] r[i]));
    } else if m[0].0 == k {
        assert(entry_wf(m[0]));
        if !m[0].1.contains(s) {
            assert forall|p: int, q: int| 0 <= p < q < m[0].1.push(s).len() implies m[0].1.push(
                s,
            )[p] != m[0].1.push(s)[q] by {
                if q == m[0].1.len() {
                    assert(m[0].1.push(s)[p] == m[0].1[p]);
                    assert(!m[0].1.contains(s));
                }
            }
            assert(entry_wf(r[0]));
        }
        assert forall|i: int, j: int| 0 <= i < j < r.len() implies (#[trigger] r[i]).0
            != (#[trigger] r[j]).0 by {
            assert(r[i].0 == m[i].0);
            assert(r[j].0 == m[j].0);
        }
        assert(forall|i: int| 0 <= i < r.len() ==> entry_wf(#[trigger] r[i]));
    } else {
        assert forall|i: int, j: int| 0 <= i < j < m.skip(1).len() implies (#[trigger] m.skip(1)[i]).0
            != (#[trigger] m.skip(1)[j]).0 by {
            assert(m.skip(1)[i] == m[i + 1]);
            assert(m.skip(1)[j] == m[j + 1]);
        }
        assert(forall|i: int| 0 <= i < m.skip(1).len() ==> entry_wf(#[trigger] m.skip(1)[i]));
        lemma_insert_preserves_wf(m.skip(1), k, s);
        lemma_insert_kinds(m.skip(1), k, s);
        let rest = insert_model(m.skip(1), k, s);
        assert forall|i: int, j: int| 0 <= i < j < r.len() implies (#[trigger] r[i]).0
            != (#[trigger] r[j]).0 by {
            if i == 0 {
                assert(r[0] == m[0]);
                assert(r[j] == rest[j - 1]);
                if rest[j - 1].0 == m[0].0 {
                    assert(m[0].0 != k);
                    let w = choose|w: int|
                        0 <= w < m.skip(1).len() && (#[trigger] m.skip(1)[w]).0 == rest[j - 1].0;
                    assert(m[w + 1].0 == m[0].0);
                    assert(false);
                }
            } else {
                assert(r[i] == rest[i - 1]);
                assert(r[j] == rest[j - 1]);
            }
        }
        assert forall|i: int| 0 <= i < r.len() implies entry_wf(#[trigger] r[i]) by {
            if i == 0 {
                assert(r[0] == m[0]);
            } else {
                assert(r[i] == rest[i - 1]);
            }
        }
    }
}

/// Observing every record of a well-formed span set keeps the corpus well
/// formed.
pub proof fn lemma_add_records_preserves_wf(m: CorpusModel, src: Seq<u8>, recs: Seq<SpanRecord>)
    requires
        corpus_model_wf(m),
    ensures
        corpus_model_wf(add_records_model(m, src, recs)),
    decreases recs.len(),
{
    if recs.len() > 0 {
        lemma_add_records_preserves_wf(m, src, recs.drop_last());
        lemma_insert_preserves_wf(
            add_records_model(m, src, recs.drop_last()),
            recs.last().kind@,
            src.subrange(recs.last().start as int, recs.last().end as int),
        );
    }
}

/// When the first occurrence of kind `k` stands at index `i`, inserting a
/// snippet for `k` touches only entry `i`.
proof fn lemma_insert_at(m: CorpusModel, k: Seq<char>, s: Seq<u8>, i: int)
    requires
        0 <= i < m.len(),
        m[i].0 == k,
        forall|j: int| 0 <= j < i ==> (#[trigger] m[j]).0 != k,
    ensures
        insert_model(m, k, s) == m.update(
            i,
            (m[i].0, if m[i].1.contains(s) { m[i].1 } else { m[i].1.push(s) }),
        ),
    decreases m.len(),
{
    if i == 0 {
        assert(insert_model(m, k, s) =~= m.update(
            0,
            (m[0].0, if m[0].1.contains(s) { m[0].1 } else { m[0].1.push(s) }),
        ));
    } else {
        assert(m[0].0 != k);
        assert forall|j: int| 0 <= j < i - 1 implies (#[trigger] m.skip(1)[j]).0 != k by {
            assert(m.skip(1)[j] == m[j + 1]);
        }
        assert(m.skip(1)[i - 1] == m[i]);
        lemma_insert_at(m.skip(1), k, s, i - 1);
        assert(insert_model(m, k, s) =~= m.update(
            i,
            (m[i].0, if m[i].1.contains(s) { m[i].1 } else { m[i].1.push(s) }),
        ));
    }
}

/// When no entry has kind `k`, inserting a snippet for `k` appends a fresh
/// entry.
proof fn lemma_insert_absent(m: CorpusModel, k: Seq<char>, s: Seq<u8>)
    requires
        forall|j: int| 0 <= j < m.len() ==> (#[trigger] m[j]).0 != k,
    ensures
        insert_model(m, k, s) == m.push(new_entry_model(k, s)),
    decreases m.len(),
{
    if m.len() == 0 {
        assert(insert_model(m, k, s) =~= m.push(new_entry_model(k, s)));
    } else {
        assert forall|j: int| 0 <= j < m.skip(1).len() implies (#[trigger] m.skip(1)[j]).0 != k by {
            assert(m.skip(1)[j] == m[j + 1]);
        }
        lemma_insert_absent(m.skip(1), k, s);
        assert(insert_model(m, k, s) =~= m.push(new_entry_model(k, s)));
    }
}

/// When entry `i` has kind `k` and no earlier entry does, looking `k` up
/// finds exactly entry `i`'s candidates.
pub proof fn lemma_lookup_at(m: CorpusModel, k: Seq<char>, i: int)
    requires
        0 <= i < m.len(),
        m[i].0 == k,
        forall|j: int| 0 <= j < i ==> (#[trigger] m[j]).0 != k,
    ensures
        lookup_model(m, k) == Some(m[i].1),
    decreases m.len(),
{
    if i > 0 {
        assert forall|j: int| 0 <= j < i - 1 implies (#[trigger] m.skip(1)[j]).0 != k by {
            assert(m.skip(1)[j] == m[j + 1]);
        }
        assert(m.skip(1)[i - 1] == m[i]);
        lemma_lookup_at(m.skip(1), k, i - 1);
    }
}

/// When no entry has kind `k`, looking `k` up finds nothing.
pub proof fn lemma_lookup_absent(m: CorpusModel, k: Seq<char>)
    requires
        forall|j: int| 0 <= j < m.len() ==> (#[trigger] m[j]).0 != k,
    ensures
        lookup_model(m, k) is None,
    decreases m.len(),
{
    if m.len() > 0 {
        assert forall|j: int| 0 <= j < m.skip(1).len() implies (#[trigger] m.skip(1)[j]).0 != k by {
            assert(m.skip(1)[j] == m[j + 1]);
        }
        lemma_lookup_absent(m.skip(1), k);
    }
}

/// Whether a snippet is already among the candidates, by exact equality.
fn contains_snippet(cands: &Vec<Vec<u8>>, s: &Vec<u8>) -> (r: bool)
    ensures
        r == cands_model(cands@).contains(s@),
{
    let mut i: usize = 0;
    while i < cands.len()
        invariant
            i <= cands@.len(),
            forall|j: int| 0 <= j < i ==> cands_model(cands@)[j] != s@,
        decreases cands@.len() - i,
    {
        if bytes_eq(&cands[i], s) {
            assert(cands_model(cands@)[i as int] == s@);
            return true;
        }
        i += 1;
    }
    assert(forall|j: int| 0 <= j < cands_model(cands@).len() ==> cands_model(cands@)[j] != s@);
    false
}

impl Corpus {
    /// An empty corpus.
    pub fn new() -> (c: Corpus)
        ensures
            c@ == Seq::<(Seq<char>, Seq<Seq<u8>>)>::empty(),
            corpus_model_wf(c@),
    {
        let c = Corpus { entries: Vec::new() };
        proof {
            assert(c@ =~= Seq::<(Seq<char>, Seq<Seq<u8>>)>::empty());
        }
        c
    }

    /// The index of the entry for a kind, if the corpus has seen it.
    pub fn find_kind(&self, kind: &String) -> (r: Option<usize>)
        ensures
            r matches Some(i) ==> i < self@.len() && self@[i as int].0 == kind@ && forall|j: int|
                0 <= j < i ==> (#[trigger] self@[j]).0 != kind@,
            r is None ==> forall|j: int| 0 <= j < self@.len() ==> (#[trigger] self@[j]).0 != kind@,
    {
        let mut i: usize = 0;
        while i < self.entries.len()
            invariant
                i <= self@.len(),
                self@.len() == self.entries@.len(),
                forall|j: int| 0 <= j < i ==> (#[trigger] self@[j]).0 != kind@,
            decreases self.entries@.len() - i,
        {
            if self.entries[i].kind == *kind {
                assert(self@[i as int].0 == kind@);
                return Some(i);
            }
            assert(self@[i as int].0 != kind@);
            i += 1;
        }
        None
    }

    /// Observe one snippet for one kind: record it unless that kind has
    /// already seen this exact text. A fresh kind starts with the empty
    /// snippet as its implicit deletion candidate.
    pub fn add_snippet(&mut self, kind: &String, snippet: &Vec<u8>)
        ensures
            final(self)@ == insert_model(old(self)@, kind@, snippet@),
            corpus_model_wf(old(self)@) ==> corpus_model_wf(final(self)@),
    {
        proof {
            if corpus_model_wf(old(self)@) {
                lemma_insert_preserves_wf(old(self)@, kind@, snippet@);
            }
        }
        let found = self.find_kind(kind);
        match found {
            Some(i) => {
                let ghost m = self@;
                let mut e = self.entries.remove(i);
                if !contains_snippet(&e.cands, snippet) {
                    let copy = bytes_copy(snippet);
                    e.cands.push(copy);
                    proof {
                        assert(cands_model(e.cands@) =~= m[i as int].1.push(snippet@));
                    }
                } else {
                    proof {
                        assert(cands_model(e.cands@) =~= m[i as int].1);
                    }
                }
                self.entries.insert(i, e);
                proof {
                    lemma_insert_at(m, kind@, snippet@, i as int);
                    assert(self@ =~= insert_model(m, kind@, snippet@));
                }
            },
            None => {
                let ghost m = self@;
                let mut cands: Vec<Vec<u8>> = Vec::new();
                cands.push(Vec::new());
                if snippet.len() > 0 {
                    let copy = bytes_copy(snippet);
                    cands.push(copy);
                }
                let entry = CorpusEntry { kind: kind.clone(), cands };
                proof {
                    if snippet@.len() == 0 {
                        assert(snippet@ =~= Seq::<u8>::empty());
                    }
                    assert(entry.kind@ == kind@);
                    assert(cands_model(entry.cands@) =~= new_entry_model(kind@, snippet@).1);
                    assert(entry_model(entry) == new_entry_model(kind@, snippet@));
                }
                self.entries.push(entry);
                proof {
                    lemma_insert_absent(m, kind@, snippet@);
                    assert(self@ =~= insert_model(m, kind@, snippet@));
                }
            },
        }
    }

    /// Observe every record of one source text, in order: the aggregation
    /// step that builds a corpus from a file's span set.
    pub fn add_records(&mut self, source: &Vec<u8>, records: &Vec<SpanRecord>)
        requires
            records_wf(records@, source@),
        ensures
            final(self)@ == add_records_model(old(self)@, source@, records@),
            corpus_model_wf(old(self)@) ==> corpus_model_wf(final(self)@),
    {
        let mut i: usize = 0;
        while i < records.len()
            invariant
                i <= records@.len(),
                records_wf(records@, source@),
                self@ == add_records_model(old(self)@, source@, records@.subrange(0, i as int)),
            decreases records@.len() - i,
        {
            let snippet = bytes_range(source, records[i].start, records[i].end);
            self.add_snippet(&records[i].kind, &snippet);
            proof {
                assert(records@.subrange(0, i + 1).drop_last() == records@.subrange(0, i as int));
                assert(records@.subrange(0, i + 1).last() == records@[i as int]);
            }
            i += 1;
        }
        proof {
            assert(records@.subrange(0, records@.len() as int) == records@);
            if corpus_model_wf(old(self)@) {
                lemma_add_records_preserves_wf(old(self)@, source@, records@);
            }
        }
    }
}

} // verus!

//! The four mutation strategies: delete-only, self-splice, cross-file
//! splice and cross-file random-kind splice. Each consumes a source text
//! with its harvested span records (and, for the splice strategies, a
//! corpus) and produces full-text variants, one substitution per variant.
use crate::corpus::{
    add_records_model, cands_model, lemma_lookup_at, lookup_model, Corpus, CorpusModel,
};
use crate::cst::{
    excluded_kind_spec, get_splice_parts, harvested_records, parses, record_wf, records_wf,
    SpanRecord,
};
use crate::random::{rand_below, sample_indices};
use crate::text::{bytes_copy, bytes_eq, bytes_range, splice, splice_seq};
use crate::MutationError;
use vstd::prelude::*;

verus! {

/// One accepted mutation: the full mutated text, together with where the
/// substitution happened, what stood there, and what replaced it — the
/// data a driver reports and writes out.
#[derive(Debug)]
pub struct Mutation {
    /// The full mutated text.
    pub text: Vec<u8>,
    /// The kind of the mutated span.
    pub kind: String,
    /// The kind the replacement was drawn from; equal to `kind` except
    /// under the random-kind strategy.
    pub replacement_kind: String,
    /// The exact original text of the span.
    pub original: Vec<u8>,
    /// The text spliced in over the span.
    pub replacement: Vec<u8>,
    pub start: usize,
    pub end: usize,
    pub start_row: usize,
    pub start_col: usize,
    pub end_row: usize,
    pub end_col: usize,
}

/// The mutation sits on exactly the span this record describes.
pub open spec fn matches_record(m: Mutation, r: SpanRecord) -> bool {
    &&& m.kind@ == r.kind@
    &&& m.start == r.start
    &&& m.end == r.end
    &&& m.start_row == r.start_row
    &&& m.start_col == r.start_col
    &&& m.end_row == r.end_row
    &&& m.end_col == r.end_col
}

/// The mutation sits on one of the harvested records.
pub open spec fn from_some_record(m: Mutation, recs: Seq<SpanRecord>) -> bool {
    exists|j: int| 0 <= j < recs.len() && matches_record(m, #[trigger] recs[j])
}

/// A mutation is internally exact: its span lies within the source, its
/// `original` is the text the span covers, and its `text` is the source
/// with exactly that span replaced by `replacement`.
pub open spec fn mutation_wf(m: Mutation, src: Seq<u8>) -> bool {
    &&& m.start <= m.end <= src.len()
    &&& m.original@ == src.subrange(m.start as int, m.end as int)
    &&& m.text@ == splice_seq(src, m.start as int, m.end as int, m.replacement@)
}

/// A candidate is an eligible splice replacement when it differs from the
/// span's original text and is not the empty snippet.
pub open spec fn eligible(cand: Seq<u8>, orig: Seq<u8>) -> bool {
    cand != orig && cand != Seq::<u8>::empty()
}

/// The mutation deletes this record's span: replacement empty, everything
/// else byte-exact.
pub open spec fn deletion_of(m: Mutation, r: SpanRecord, src: Seq<u8>) -> bool {
    &&& matches_record(m, r)
    &&& m.replacement@ == Seq::<u8>::empty()
    &&& m.replacement_kind@ == r.kind@
    &&& mutation_wf(m, src)
}

/// The mutation deletes the span of one of the harvested records.
pub open spec fn deletion_from(m: Mutation, recs: Seq<SpanRecord>, src: Seq<u8>) -> bool {
    exists|j: int| 0 <= j < recs.len() && deletion_of(m, #[trigger] recs[j], src)
}

/// The mutations delete the spans of pairwise distinct records, chosen by
/// the selection `sel`: a sample without replacement.
pub open spec fn distinct_deletions(
    ms: Seq<Mutation>,
    sel: Seq<int>,
    recs: Seq<SpanRecord>,
    src: Seq<u8>,
) -> bool {
    &&& sel.len() == ms.len()
    &&& forall|k: int| 0 <= k < sel.len() ==> 0 <= #[trigger] sel[k] < recs.len()
    &&& forall|k1: int, k2: int|
        0 <= k1 < k2 < sel.len() ==> #[trigger] sel[k1] != #[trigger] sel[k2]
    &&& forall|k: int| 0 <= k < sel.len() ==> deletion_of(#[trigger] ms[k], recs[sel[k]], src)
}

/// Build the mutation that replaces `rec`'s span in `source` with
/// `replacement`, recording the span's data for reporting.
fn make_mutation(
    source: &Vec<u8>,
    rec: &SpanRecord,
    replacement: &Vec<u8>,
    replacement_kind: &String,
) -> (m: Mutation)
    requires
        record_wf(*rec, source@),
    ensures
        matches_record(m, *rec),
        mutation_wf(m, source@),
        m.replacement@ == replacement@,
        m.replacement_kind@ == replacement_kind@,
{
    Mutation {
        text: splice(source, rec.start, rec.end, replacement),
        kind: rec.kind.clone(),
        replacement_kind: replacement_kind.clone(),
        original: bytes_range(source, rec.start, rec.end),
        replacement: bytes_copy(replacement),
        start: rec.start,
        end: rec.end,
        start_row: rec.start_row,
        start_col: rec.start_col,
        end_row: rec.end_row,
        end_col: rec.end_col,
    }
}

/// Delete-only mutation: with count zero, one deletion variant per record,
/// in record order; with a positive count, one deletion variant for each
/// of `min(count, records.len())` records sampled without replacement.
pub fn mutate_delete_only(source: &Vec<u8>, records: &Vec<SpanRecord>, count: usize) -> (ms: Vec<
    Mutation,
>)
    requires
        records_wf(records@, source@),
    ensures
        count == 0 ==> ms@.len() == records@.len(),
        count == 0 ==> forall|i: int|
            0 <= i < ms@.len() ==> deletion_of(#[trigger] ms@[i], records@[i], source@),
        count > 0 ==> ms@.len() == vstd::math::min(count as int, records@.len() as int),
        count > 0 ==> exists|sel: Seq<int>| distinct_deletions(ms@, sel, records@, source@),
        forall|i: int|
            0 <= i < ms@.len() ==> deletion_from(#[trigger] ms@[i], records@, source@),
        forall|i: int|
            0 <= i < ms@.len() ==> mutation_wf(#[trigger] ms@[i], source@) && from_some_record(
                ms@[i],
                records@,
            ) && ms@[i].replacement@ == Seq::<u8>::empty(),
{
    let mut ms: Vec<Mutation> = Vec::new();
    let empty: Vec<u8> = Vec::new();
    if count == 0 {
        let mut i: usize = 0;
        while i < records.len()
            invariant
                i <= records@.len(),
                ms@.len() == i,
                records_wf(records@, source@),
                empty@ == Seq::<u8>::empty(),
                forall|k: int|
                    0 <= k < i ==> deletion_of(#[trigger] ms@[k], records@[k], source@),
            decreases records@.len() - i,
        {
            let m = make_mutation(source, &records[i], &empty, &records[i].kind);
            ms.push(m);
            i += 1;
        }
    } else {
        let take = if count < records.len() {
            count
        } else {
            records.len()
        };
        let idxs = sample_indices(records.len(), take);
        let mut t: usize = 0;
        while t < idxs.len()
            invariant
                t <= idxs@.len(),
                ms@.len() == t,
                records_wf(records@, source@),
                empty@ == Seq::<u8>::empty(),
                forall|i: int| 0 <= i < idxs@.len() ==> idxs@[i] < records@.len(),
                forall|i1: int, i2: int| 0 <= i1 < i2 < idxs@.len() ==> idxs@[i1] != idxs@[i2],
                forall|k: int| 0 <= k < t ==> deletion_from(#[trigger] ms@[k], records@, source@),
                forall|k: int|
                    0 <= k < t ==> deletion_of(#[trigger] ms@[k], records@[idxs@[k] as int], source@),
            decreases idxs@.len() - t,
        {
            let j = idxs[t];
            let m = make_mutation(source, &records[j], &empty, &records[j].kind);
            ms.push(m);
            proof {
                assert(deletion_of(ms@[t as int], records@[j as int], source@));
                assert(deletion_from(ms@[t as int], records@, source@));
            }
            t += 1;
        }
        proof {
            let sel = Seq::new(idxs@.len(), |k: int| idxs@[k] as int);
            assert forall|k: int| 0 <= k < sel.len() implies deletion_of(
                #[trigger] ms@[k],
                records@[sel[k]],
                source@,
            ) by {
                assert(sel[k] == idxs@[k] as int);
            }
            assert forall|k1: int, k2: int| 0 <= k1 < k2 < sel.len() implies #[trigger] sel[k1]
                != #[trigger] sel[k2] by {
                assert(idxs@[k1] != idxs@[k2]);
            }
            assert(distinct_deletions(ms@, sel, records@, source@));
        }
    }
    proof {
        assert forall|i: int| 0 <= i < ms@.len() implies deletion_from(
            #[trigger] ms@[i],
            records@,
            source@,
        ) by {
            if count == 0 {
                assert(deletion_of(ms@[i], records@[i], source@));
            }
        }
        assert forall|i: int| 0 <= i < ms@.len() implies mutation_wf(#[trigger] ms@[i], source@)
            && from_some_record(ms@[i], records@) && ms@[i].replacement@ == Seq::<u8>::empty() by {
            let j = choose|j: int|
                0 <= j < records@.len() && deletion_of(ms@[i], #[trigger] records@[j], source@);
        }
    }
    ms
}

/// The corpus the self-splice strategy builds from a file's own records.
pub open spec fn self_corpus(src: Seq<u8>, recs: Seq<SpanRecord>) -> CorpusModel {
    add_records_model(Seq::empty(), src, recs)
}

/// The (record index, candidate) pairs the exhaustive self-splice pass
/// emits for one record: one per eligible candidate, in candidate order.
pub open spec fn pairs_for_record(
    src: Seq<u8>,
    r: SpanRecord,
    cands: Seq<Seq<u8>>,
    j: int,
) -> Seq<(int, Seq<u8>)>
    decreases cands.len(),
{
    if cands.len() == 0 {
        Seq::empty()
    } else {
        pairs_for_record(src, r, cands.drop_last(), j) + if eligible(
            cands.last(),
            src.subrange(r.start as int, r.end as int),
        ) {
            seq![(j, cands.last())]
        } else {
            Seq::empty()
        }
    }
}

/// Every pair the exhaustive self-splice pass emits: record by record in
/// harvest order, candidates in corpus order, no-op and empty candidates
/// rejected.
pub open spec fn exhaustive_pairs(
    src: Seq<u8>,
    recs: Seq<SpanRecord>,
    cm: CorpusModel,
) -> Seq<(int, Seq<u8>)>
    decreases recs.len(),
{
    if recs.len() == 0 {
        Seq::empty()
    } else {
        exhaustive_pairs(src, recs.drop_last(), cm) + (match lookup_model(
            cm,
            recs.last().kind@,
        ) {
            Some(cands) => pairs_for_record(src, recs.last(), cands, recs.len() - 1),
            None => Seq::empty(),
        })
    }
}

/// The mutation realizes this pair: it sits on the pair's record and
/// splices in exactly the pair's candidate.
pub open spec fn realizes_pair(
    m: Mutation,
    p: (int, Seq<u8>),
    recs: Seq<SpanRecord>,
    src: Seq<u8>,
) -> bool {
    &&& 0 <= p.0 < recs.len()
    &&& matches_record(m, recs[p.0])
    &&& m.replacement@ == p.1
    &&& m.replacement_kind@ == m.kind@
    &&& mutation_wf(m, src)
}

/// The mutations realize these pairs, one for one and in order.
pub open spec fn realizes_pairs(
    ms: Seq<Mutation>,
    ps: Seq<(int, Seq<u8>)>,
    recs: Seq<SpanRecord>,
    src: Seq<u8>,
) -> bool {
    &&& ms.len() == ps.len()
    &&& forall|i: int| 0 <= i < ms.len() ==> realizes_pair(#[trigger] ms[i], ps[i], recs, src)
}

/// What holds of every mutation a same-kind splice strategy emits: exact
/// surgery on one harvested span, a replacement that is neither the
/// original text nor empty, drawn from the corpus under the span's own
/// kind.
pub open spec fn emitted_splice_wf(
    m: Mutation,
    src: Seq<u8>,
    recs: Seq<SpanRecord>,
    cm: CorpusModel,
) -> bool {
    &&& mutation_wf(m, src)
    &&& from_some_record(m, recs)
    &&& eligible(m.replacement@, m.original@)
    &&& m.replacement_kind@ == m.kind@
    &&& (lookup_model(cm, m.kind@) matches Some(cands) && cands.contains(m.replacement@))
}

/// The record has an eligible candidate under its own kind.
pub open spec fn has_eligible(src: Seq<u8>, r: SpanRecord, cm: CorpusModel) -> bool {
    match lookup_model(cm, r.kind@) {
        Some(cands) => exists|p: int|
            0 <= p < cands.len() && eligible(
                #[trigger] cands[p],
                src.subrange(r.start as int, r.end as int),
            ),
        None => false,
    }
}

/// No record has any eligible same-kind candidate: every bounded-random
/// same-kind draw must fail.
pub open spec fn stalled(src: Seq<u8>, recs: Seq<SpanRecord>, cm: CorpusModel) -> bool {
    forall|j: int| 0 <= j < recs.len() ==> !has_eligible(src, #[trigger] recs[j], cm)
}

/// Every pair emitted for one record carries that record's index and an
/// eligible candidate from the given set.
proof fn lemma_pairs_for_record_props(src: Seq<u8>, r: SpanRecord, cands: Seq<Seq<u8>>, j: int)
    ensures
        forall|q: int|
            0 <= q < pairs_for_record(src, r, cands, j).len() ==> {
                let p = #[trigger] pairs_for_record(src, r, cands, j)[q];
                p.0 == j && eligible(p.1, src.subrange(r.start as int, r.end as int))
                    && cands.contains(p.1)
            },
    decreases cands.len(),
{
    if cands.len() > 0 {
        lemma_pairs_for_record_props(src, r, cands.drop_last(), j);
        assert forall|q: int| 0 <= q < pairs_for_record(src, r, cands, j).len() implies {
            let p = #[trigger] pairs_for_record(src, r, cands, j)[q];
            p.0 == j && eligible(p.1, src.subrange(r.start as int, r.end as int))
                && cands.contains(p.1)
        } by {
            let prefix = pairs_for_record(src, r, cands.drop_last(), j);
            if q < prefix.len() {
                assert(pairs_for_record(src, r, cands, j)[q] == prefix[q]);
                let p = prefix[q];
                assert(cands.drop_last().contains(p.1));
                let w = choose|w: int| 0 <= w < cands.drop_last().len() && cands.drop_last()[w] == p.1;
                assert(cands[w] == p.1);
            } else {
                assert(cands[cands.len() - 1] == cands.last());
            }
        }
    }
}

/// Every exhaustively emitted pair points at a record and carries an
/// eligible candidate that the corpus lists under that record's kind.
proof fn lemma_exhaustive_pairs_props(src: Seq<u8>, recs: Seq<SpanRecord>, cm: CorpusModel)
    ensures
        forall|q: int|
            0 <= q < exhaustive_pairs(src, recs, cm).len() ==> {
                let p = #[trigger] exhaustive_pairs(src, recs, cm)[q];
                &&& 0 <= p.0 < recs.len()
                &&& eligible(
                    p.1,
                    src.subrange(recs[p.0].start as int, recs[p.0].end as int),
                )
                &&& (lookup_model(cm, recs[p.0].kind@) matches Some(cands) && cands.contains(p.1))
            },
    decreases recs.len(),
{
    if recs.len() > 0 {
        lemma_exhaustive_pairs_props(src, recs.drop_last(), cm);
        assert forall|q: int| 0 <= q < exhaustive_pairs(src, recs, cm).len() implies {
            let p = #[trigger] exhaustive_pairs(src, recs, cm)[q];
            &&& 0 <= p.0 < recs.len()
            &&& eligible(p.1, src.subrange(recs[p.0].start as int, recs[p.0].end as int))
            &&& (lookup_model(cm, recs[p.0].kind@) matches Some(cands) && cands.contains(p.1))
        } by {
            let prefix = exhaustive_pairs(src, recs.drop_last(), cm);
            if q < prefix.len() {
                assert(exhaustive_pairs(src, recs, cm)[q] == prefix[q]);
                let p = prefix[q];
                assert(recs.drop_last()[p.0] == recs[p.0]);
            } else {
                match lookup_model(cm, recs.last().kind@) {
                    Some(cands) => {
                        let tail = pairs_for_record(src, recs.last(), cands, recs.len() - 1);
                        assert(exhaustive_pairs(src, recs, cm)[q] == tail[q - prefix.len()]);
                        lemma_pairs_for_record_props(src, recs.last(), cands, recs.len() - 1);
                        assert(recs[recs.len() - 1] == recs.last());
                    },
                    None => {},
                }
            }
        }
    }
}

/// The bounded-random same-kind splice rounds: draw a record, draw a
/// candidate of its kind, accept unless the candidate is the span's
/// original text or empty; stop at `count` accepted mutations, or once
/// 100 consecutive draws were unproductive.
fn splice_rounds(
    source: &Vec<u8>,
    records: &Vec<SpanRecord>,
    corpus: &Corpus,
    count: usize,
) -> (ms: Vec<Mutation>)
    requires
        count > 0,
        records_wf(records@, source@),
    ensures
        ms@.len() <= count,
        stalled(source@, records@, corpus@) ==> ms@.len() == 0,
        forall|i: int|
            0 <= i < ms@.len() ==> emitted_splice_wf(#[trigger] ms@[i], source@, records@, corpus@),
{
    let mut ms: Vec<Mutation> = Vec::new();
    if records.len() == 0 {
        return ms;
    }
    let mut stall: usize = 0;
    while ms.len() < count && stall < 100
        invariant
            count > 0,
            1 <= records@.len(),
            records_wf(records@, source@),
            ms@.len() <= count,
            stall <= 100,
            stalled(source@, records@, corpus@) ==> ms@.len() == 0,
            forall|i: int|
                0 <= i < ms@.len() ==> emitted_splice_wf(
                    #[trigger] ms@[i],
                    source@,
                    records@,
                    corpus@,
                ),
        decreases count - ms@.len(), 100 - stall,
    {
        let j = rand_below(records.len());
        let rec = &records[j];
        let found = corpus.find_kind(&rec.kind);
        let mut accepted = false;
        match found {
            Some(ie) => {
                proof {
                    lemma_lookup_at(corpus@, rec.kind@, ie as int);
                }
                let clen = corpus.entries[ie].cands.len();
                if clen > 0 {
                    let p = rand_below(clen);
                    let cand = &corpus.entries[ie].cands[p];
                    let orig = bytes_range(source, rec.start, rec.end);
                    if cand.len() > 0 && !bytes_eq(cand, &orig) {
                        let m = make_mutation(source, rec, cand, &rec.kind);
                        ms.push(m);
                        accepted = true;
                        proof {
                            let cm = corpus@;
                            let cands = cands_model(corpus.entries@[ie as int].cands@);
                            assert(cm[ie as int].1 == cands);
                            assert(cands[p as int] == cand@);
                            if cand@.len() == 0 {
                                assert(cand@ =~= Seq::<u8>::empty());
                            }
                            assert(eligible(cand@, orig@));
                            assert(cands.contains(cand@));
                            assert(emitted_splice_wf(
                                ms@[ms@.len() - 1],
                                source@,
                                records@,
                                corpus@,
                            ));
                            assert(eligible(
                                cands[p as int],
                                source@.subrange(rec.start as int, rec.end as int),
                            ));
                            assert(has_eligible(source@, records@[j as int], corpus@));
                        }
                    }
                }
            },
            None => {},
        }
        if accepted {
            stall = 0;
        } else {
            stall += 1;
        }
    }
    ms
}

/// Self-splice mutation: build a corpus from the file's own records, then
/// with count zero emit one variant per (record, distinct same-kind
/// candidate) pair, rejecting candidates equal to the span's original
/// text or empty; with a positive count run bounded-random rounds.
pub fn mutate_self(source: &Vec<u8>, records: &Vec<SpanRecord>, count: usize) -> (ms: Vec<Mutation>)
    requires
        records_wf(records@, source@),
    ensures
        count == 0 ==> realizes_pairs(
            ms@,
            exhaustive_pairs(source@, records@, self_corpus(source@, records@)),
            records@,
            source@,
        ),
        count > 0 ==> ms@.len() <= count,
        count > 0 && stalled(source@, records@, self_corpus(source@, records@)) ==> ms@.len() == 0,
        forall|i: int|
            0 <= i < ms@.len() ==> emitted_splice_wf(
                #[trigger] ms@[i],
                source@,
                records@,
                self_corpus(source@, records@),
            ),
{
    let mut corpus = Corpus::new();
    corpus.add_records(source, records);
    proof {
        assert(corpus@ == self_corpus(source@, records@));
    }
    if count > 0 {
        let ms = splice_rounds(source, records, &corpus, count);
        return ms;
    }
    let ghost cm = corpus@;
    let mut ms: Vec<Mutation> = Vec::new();
    let mut j: usize = 0;
    while j < records.len()
        invariant
            j <= records@.len(),
            records_wf(records@, source@),
            corpus@ == cm,
            cm == self_corpus(source@, records@),
            realizes_pairs(
                ms@,
                exhaustive_pairs(source@, records@.subrange(0, j as int), cm),
                records@,
                source@,
            ),
        decreases records@.len() - j,
    {
        let ghost prev_pairs = exhaustive_pairs(source@, records@.subrange(0, j as int), cm);
        let rec = &records[j];
        let found = corpus.find_kind(&rec.kind);
        match found {
            Some(ie) => {
                proof {
                    lemma_lookup_at(cm, rec.kind@, ie as int);
                }
                let ghost cands = cands_model(corpus.entries@[ie as int].cands@);
                let orig = bytes_range(source, rec.start, rec.end);
                let clen = corpus.entries[ie].cands.len();
                let mut p: usize = 0;
                while p < clen
                    invariant
                        p <= clen,
                        j < records@.len(),
                        records_wf(records@, source@),
                        corpus@ == cm,
                        (ie as int) < corpus.entries@.len(),
                        clen == corpus.entries@[ie as int].cands@.len(),
                        cands == cands_model(corpus.entries@[ie as int].cands@),
                        orig@ == source@.subrange(
                            records@[j as int].start as int,
                            records@[j as int].end as int,
                        ),
                        rec == &records[j as int],
                        realizes_pairs(
                            ms@,
                            prev_pairs + pairs_for_record(
                                source@,
                                records@[j as int],
                                cands.subrange(0, p as int),
                                j as int,
                            ),
                            records@,
                            source@,
                        ),
                    decreases clen - p,
                {
                    proof {
                        assert(cands.subrange(0, p + 1).drop_last() == cands.subrange(0, p as int));
                        assert(cands.subrange(0, p + 1).last() == cands[p as int]);
                    }
                    let cand = &corpus.entries[ie].cands[p];
                    proof {
                        assert(cands[p as int] == cand@);
                    }
                    if cand.len() > 0 && !bytes_eq(cand, &orig) {
                        let m = make_mutation(source, rec, cand, &rec.kind);
                        ms.push(m);
                        proof {
                            if cand@.len() == 0 {
                                assert(cand@ =~= Seq::<u8>::empty());
                            }
                            assert(eligible(cands[p as int], orig@));
                            assert(realizes_pair(
                                ms@[ms@.len() - 1],
                                (j as int, cands[p as int]),
                                records@,
                                source@,
                            ));
                            assert(prev_pairs + pairs_for_record(
                                source@,
                                records@[j as int],
                                cands.subrange(0, p + 1),
                                j as int,
                            ) =~= (prev_pairs + pairs_for_record(
                                source@,
                                records@[j as int],
                                cands.subrange(0, p as int),
                                j as int,
                            )).push((j as int, cands[p as int])));
                        }
                    } else {
                        proof {
                            if cand@.len() == 0 {
                                assert(cand@ =~= Seq::<u8>::empty());
                            }
                            assert(!eligible(cands[p as int], orig@));
                            assert(prev_pairs + pairs_for_record(
                                source@,
                                records@[j as int],
                                cands.subrange(0, p + 1),
                                j as int,
                            ) =~= prev_pairs + pairs_for_record(
                                source@,
                                records@[j as int],
                                cands.subrange(0, p as int),
                                j as int,
                            ));
                        }
                    }
                    p += 1;
                }
                proof {
                    assert(cands.subrange(0, clen as int) == cands);
                    assert(records@.subrange(0, j + 1).drop_last() == records@.subrange(
                        0,
                        j as int,
                    ));
                    assert(records@.subrange(0, j + 1).last() == records@[j as int]);
                    assert(records@.subrange(0, j + 1).len() - 1 == j as int);
                    assert(exhaustive_pairs(source@, records@.subrange(0, j + 1), cm)
                        == prev_pairs + pairs_for_record(
                        source@,
                        records@[j as int],
                        cands,
                        j as int,
                    ));
                }
            },
            None => {
                proof {
                    crate::corpus::lemma_lookup_absent(cm, records@[j as int].kind@);
                    assert(records@.subrange(0, j + 1).drop_last() == records@.subrange(
                        0,
                        j as int,
                    ));
                    assert(records@.subrange(0, j + 1).last() == records@[j as int]);
                    assert(exhaustive_pairs(source@, records@.subrange(0, j + 1), cm) =~= prev_pairs);
                }
            },
        }
        j += 1;
    }
    proof {
        assert(records@.subrange(0, records@.len() as int) == records@);
        lemma_exhaustive_pairs_props(source@, records@, cm);
        let pairs = exhaustive_pairs(source@, records@, cm);
        assert forall|i: int| 0 <= i < ms@.len() implies emitted_splice_wf(
            #[trigger] ms@[i],
            source@,
            records@,
            cm,
        ) by {
            assert(realizes_pair(ms@[i], pairs[i], records@, source@));
            let p = pairs[i];
            assert(matches_record(ms@[i], records@[p.0]));
        }
    }
    ms
}

/// Cross-file splice mutation: bounded-random rounds drawing same-kind
/// candidates from an externally built corpus. A zero count is a fatal
/// misuse: only delete-only and self-splice support exhaustive
/// generation.
pub fn mutate_splice(
    source: &Vec<u8>,
    new_expressions: &Corpus,
    records: &Vec<SpanRecord>,
    count: usize,
) -> (r: Result<Vec<Mutation>, MutationError>)
    requires
        records_wf(records@, source@),
    ensures
        count == 0 ==> (r matches Err(e) && e == MutationError::ZeroMutationCount),
        count > 0 ==> r is Ok,
        r matches Ok(ms) ==> {
            &&& ms@.len() <= count
            &&& (stalled(source@, records@, new_expressions@) ==> ms@.len() == 0)
            &&& forall|i: int|
                0 <= i < ms@.len() ==> emitted_splice_wf(
                    #[trigger] ms@[i],
                    source@,
                    records@,
                    new_expressions@,
                )
        },
{
    if count == 0 {
        return Err(MutationError::ZeroMutationCount);
    }
    Ok(splice_rounds(source, records, new_expressions, count))
}

/// The replacement stands in the corpus under some kind, the kind the
/// mutation names as the replacement's own.
pub open spec fn replacement_in_some_kind(m: Mutation, cm: CorpusModel) -> bool {
    exists|t: int|
        0 <= t < cm.len() && (#[trigger] cm[t]).0 == m.replacement_kind@ && cm[t].1.contains(
            m.replacement@,
        )
}

/// What holds of every mutation the random-kind splice emits: exact
/// surgery on one harvested span, a replacement that is neither the
/// original text nor empty, drawn from the corpus under an independently
/// chosen kind.
pub open spec fn emitted_randsplice_wf(
    m: Mutation,
    src: Seq<u8>,
    recs: Seq<SpanRecord>,
    cm: CorpusModel,
) -> bool {
    &&& mutation_wf(m, src)
    &&& from_some_record(m, recs)
    &&& eligible(m.replacement@, m.original@)
    &&& replacement_in_some_kind(m, cm)
}

/// The record has an eligible candidate under any kind of the corpus.
pub open spec fn has_eligible_any_kind(src: Seq<u8>, r: SpanRecord, cm: CorpusModel) -> bool {
    exists|t: int, p: int|
        0 <= t < cm.len() && 0 <= p < cm[t].1.len() && eligible(
            #[trigger] cm[t].1[p],
            src.subrange(r.start as int, r.end as int),
        )
}

/// No record has an eligible candidate under any kind: every bounded
/// random-kind draw must fail.
pub open spec fn stalled_rand(src: Seq<u8>, recs: Seq<SpanRecord>, cm: CorpusModel) -> bool {
    forall|j: int| 0 <= j < recs.len() ==> !has_eligible_any_kind(src, #[trigger] recs[j], cm)
}

/// Cross-file random-kind splice mutation: bounded-random rounds drawing
/// a record, then a corpus kind independent of the record's own kind,
/// then a candidate of that kind. A zero count is a fatal misuse.
pub fn mutate_splice_randtype(
    source: &Vec<u8>,
    new_expressions: &Corpus,
    records: &Vec<SpanRecord>,
    count: usize,
) -> (r: Result<Vec<Mutation>, MutationError>)
    requires
        records_wf(records@, source@),
    ensures
        count == 0 ==> (r matches Err(e) && e == MutationError::ZeroMutationCount),
        count > 0 ==> r is Ok,
        r matches Ok(ms) ==> {
            &&& ms@.len() <= count
            &&& (stalled_rand(source@, records@, new_expressions@) ==> ms@.len() == 0)
            &&& forall|i: int|
                0 <= i < ms@.len() ==> emitted_randsplice_wf(
                    #[trigger] ms@[i],
                    source@,
                    records@,
                    new_expressions@,
                )
        },
{
    if count == 0 {
        return Err(MutationError::ZeroMutationCount);
    }
    let corpus = new_expressions;
    let mut ms: Vec<Mutation> = Vec::new();
    if records.len() == 0 {
        return Ok(ms);
    }
    let mut stall: usize = 0;
    while ms.len() < count && stall < 100
        invariant
            count > 0,
            1 <= records@.len(),
            records_wf(records@, source@),
            ms@.len() <= count,
            stall <= 100,
            stalled_rand(source@, records@, corpus@) ==> ms@.len() == 0,
            forall|i: int|
                0 <= i < ms@.len() ==> emitted_randsplice_wf(
                    #[trigger] ms@[i],
                    source@,
                    records@,
                    corpus@,
                ),
        decreases count - ms@.len(), 100 - stall,
    {
        let j = rand_below(records.len());
        let rec = &records[j];
        let mut accepted = false;
        if corpus.entries.len() > 0 {
            let t = rand_below(corpus.entries.len());
            let clen = corpus.entries[t].cands.len();
            if clen > 0 {
                let p = rand_below(clen);
                let cand = &corpus.entries[t].cands[p];
                let orig = bytes_range(source, rec.start, rec.end);
                if cand.len() > 0 && !bytes_eq(cand, &orig) {
                    let m = make_mutation(source, rec, cand, &corpus.entries[t].kind);
                    ms.push(m);
                    accepted = true;
                    proof {
                        let cm = corpus@;
                        let cands = cands_model(corpus.entries@[t as int].cands@);
                        assert(cm[t as int].1 == cands);
                        assert(cands[p as int] == cand@);
                        if cand@.len() == 0 {
                            assert(cand@ =~= Seq::<u8>::empty());
                        }
                        assert(eligible(cand@, orig@));
                        assert(cands.contains(cand@));
                        assert(cm[t as int].0 == corpus.entries@[t as int].kind@);
                        assert(replacement_in_some_kind(ms@[ms@.len() - 1], cm));
                        assert(emitted_randsplice_wf(
                            ms@[ms@.len() - 1],
                            source@,
                            records@,
                            corpus@,
                        ));
                        assert(eligible(
                            cm[t as int].1[p as int],
                            source@.subrange(rec.start as int, rec.end as int),
                        ));
                        assert(has_eligible_any_kind(source@, records@[j as int], corpus@));
                    }
                }
            }
        }
        if accepted {
            stall = 0;
        } else {
            stall += 1;
        }
    }
    Ok(ms)
}

/// Parse one source text, harvest its spans, and run the strategy the
/// mode selects: 0 is delete-only, 1 is self-splice; any other mode is an
/// invalid configuration. The cross-file strategies take an external
/// corpus and are driven separately.
pub fn get_struct_crushed_sources(
    source: &Vec<u8>,
    mutation_mode: i32,
    mutation_count: usize,
) -> (r: Result<Vec<Mutation>, MutationError>)
    ensures
        r is Ok <==> parses(source@) && (mutation_mode == 0 || mutation_mode == 1),
        !parses(source@) ==> (r matches Err(e) && e == MutationError::ParseFailed),
        parses(source@) && !(mutation_mode == 0 || mutation_mode == 1) ==> (r matches Err(e)
            && e == MutationError::InvalidMode),
        mutation_mode == 0 && mutation_count == 0 ==> (r matches Ok(ms) ==> {
            &&& ms@.len() == harvested_records(source@).len()
            &&& forall|i: int|
                0 <= i < ms@.len() ==> deletion_of(
                    #[trigger] ms@[i],
                    harvested_records(source@)[i],
                    source@,
                )
        }),
        mutation_mode == 0 && mutation_count > 0 ==> (r matches Ok(ms) ==> {
            &&& ms@.len() == vstd::math::min(
                mutation_count as int,
                harvested_records(source@).len() as int,
            )
            &&& exists|sel: Seq<int>|
                distinct_deletions(ms@, sel, harvested_records(source@), source@)
        }),
        mutation_mode == 1 && mutation_count == 0 ==> (r matches Ok(ms) ==> realizes_pairs(
            ms@,
            exhaustive_pairs(
                source@,
                harvested_records(source@),
                self_corpus(source@, harvested_records(source@)),
            ),
            harvested_records(source@),
            source@,
        )),
        mutation_mode == 1 && mutation_count > 0 ==> (r matches Ok(ms) ==> {
            &&& ms@.len() <= mutation_count
            &&& (stalled(
                source@,
                harvested_records(source@),
                self_corpus(source@, harvested_records(source@)),
            ) ==> ms@.len() == 0)
        }),
        mutation_mode == 1 ==> (r matches Ok(ms) ==> forall|i: int|
            0 <= i < ms@.len() ==> emitted_splice_wf(
                #[trigger] ms@[i],
                source@,
                harvested_records(source@),
                self_corpus(source@, harvested_records(source@)),
            )),
        r matches Ok(ms) ==> {
            &&& mutation_count > 0 ==> ms@.len() <= mutation_count
            &&& forall|i: int|
                0 <= i < ms@.len() ==> mutation_wf(#[trigger] ms@[i], source@)
                    && !excluded_kind_spec(ms@[i].kind@)
            &&& mutation_mode == 0 ==> forall|i: int|
                0 <= i < ms@.len() ==> (#[trigger] ms@[i]).replacement@ == Seq::<u8>::empty()
        },
{
    let records = match get_splice_parts(source) {
        Err(e) => {
            return Err(e);
        },
        Ok(recs) => recs,
    };
    let ms = if mutation_mode == 0 {
        mutate_delete_only(source, &records, mutation_count)
    } else if mutation_mode == 1 {
        mutate_self(source, &records, mutation_count)
    } else {
        return Err(MutationError::InvalidMode);
    };
    proof {
        assert(records@ == harvested_records(source@));
        assert forall|i: int| 0 <= i < ms@.len() implies !excluded_kind_spec(
            (#[trigger] ms@[i]).kind@,
        ) by {
            let j = choose|j: int|
                0 <= j < records@.len() && matches_record(ms@[i], #[trigger] records@[j]);
            assert(!excluded_kind_spec(records@[j].kind@));
        }
    }
    Ok(ms)
}

} // verus!

//! Span records and the harvester: walking the concrete syntax tree of a
//! source text and recording the byte span, grammar kind and position of
//! every node that carries mutation value, while skipping comment and
//! bare-punctuation kinds.
use crate::text::{char_count, char_count_seq, lemma_char_count_le_len};
use crate::MutationError;
use vstd::prelude::*;

verus! {

/// One node of the concrete syntax tree: its grammar kind, the byte range
/// `source[start..end]` holding its exact text, and its line/column
/// positions, kept for diagnostic reporting only.
#[derive(Debug, PartialEq)]
pub struct SpanRecord {
    pub kind: String,
    pub start: usize,
    pub end: usize,
    pub start_row: usize,
    pub start_col: usize,
    pub end_row: usize,
    pub end_col: usize,
}

impl Clone for SpanRecord {
    fn clone(&self) -> (r: Self)
        ensures
            r == *self,
    {
        SpanRecord {
            kind: self.kind.clone(),
            start: self.start,
            end: self.end,
            start_row: self.start_row,
            start_col: self.start_col,
            end_row: self.end_row,
            end_col: self.end_col,
        }
    }
}

/// A record's offsets lie within the source: `start <= end <= len`.
pub open spec fn record_wf(r: SpanRecord, src: Seq<u8>) -> bool {
    r.start <= r.end <= src.len()
}

/// Every record's offsets lie within the source.
pub open spec fn records_wf(rs: Seq<SpanRecord>, src: Seq<u8>) -> bool {
    forall|i: int| 0 <= i < rs.len() ==> record_wf(#[trigger] rs[i], src)
}

/// The node kinds that are walked for their children but never recorded:
/// comments and single-character structural tokens carry no independent
/// mutation value.
pub open spec fn excluded_kind_spec(k: Seq<char>) -> bool {
    ||| k == "block_comment"@
    ||| k == "line_comment"@
    ||| k == "{"@
    ||| k == "}"@
    ||| k == "("@
    ||| k == ")"@
    ||| k == "<"@
    ||| k == ">"@
    ||| k == "//"@
    ||| k == "/*"@
    ||| k == "*/"@
    ||| k == "["@
    ||| k == "]"@
    ||| k == "="@
}

/// Whether a node kind is excluded from harvesting.
pub fn excluded_kind(kind: &String) -> (r: bool)
    ensures
        r == excluded_kind_spec(kind@),
{
    *kind == "block_comment".to_owned() || *kind == "line_comment".to_owned() || *kind
        == "{".to_owned() || *kind == "}".to_owned() || *kind == "(".to_owned() || *kind
        == ")".to_owned() || *kind == "<".to_owned() || *kind == ">".to_owned() || *kind
        == "//".to_owned() || *kind == "/*".to_owned() || *kind == "*/".to_owned() || *kind
        == "[".to_owned() || *kind == "]".to_owned() || *kind == "=".to_owned()
}

/// A node is recorded when its kind is not excluded, its offsets are
/// consistent, and its end offset does not index past the text's character
/// count (the guard against a unicode/byte-length mismatch; a node whose
/// end offset is zero fails the guard as well).
pub open spec fn should_record(src: Seq<u8>, n: SpanRecord) -> bool {
    &&& !excluded_kind_spec(n.kind@)
    &&& n.start <= n.end
    &&& 1 <= n.end
    &&& n.end <= char_count_seq(src)
}

/// What one node contributes to the harvest: itself when recorded,
/// nothing otherwise.
pub open spec fn harvest_step(src: Seq<u8>, n: SpanRecord) -> Seq<SpanRecord> {
    if should_record(src, n) {
        seq![n]
    } else {
        Seq::empty()
    }
}

/// The harvest of a node sequence: each node's contribution, in order.
pub open spec fn harvest_all(src: Seq<u8>, nodes: Seq<SpanRecord>) -> Seq<SpanRecord>
    decreases nodes.len(),
{
    if nodes.len() == 0 {
        Seq::empty()
    } else {
        harvest_all(src, nodes.drop_last()) + harvest_step(src, nodes.last())
    }
}

/// The harvest of a walked tree: every node in pre-order except the root,
/// which stands first and is never recorded.
pub open spec fn harvest_of_walk(src: Seq<u8>, nodes: Seq<SpanRecord>) -> Seq<SpanRecord> {
    if nodes.len() == 0 {
        Seq::empty()
    } else {
        harvest_all(src, nodes.skip(1))
    }
}

/// Every harvested record is recorded by the policy and is one of the
/// walked nodes, byte-exact: harvesting invents no span.
pub proof fn lemma_harvest_members(src: Seq<u8>, nodes: Seq<SpanRecord>)
    ensures
        forall|i: int|
            0 <= i < harvest_all(src, nodes).len() ==> should_record(
                src,
                #[trigger] harvest_all(src, nodes)[i],
            ),
        forall|i: int|
            0 <= i < harvest_all(src, nodes).len() ==> exists|j: int|
                0 <= j < nodes.len() && #[trigger] harvest_all(src, nodes)[i] == nodes[j],
    decreases nodes.len(),
{
    if nodes.len() > 0 {
        lemma_harvest_members(src, nodes.drop_last());
        assert forall|i: int| 0 <= i < harvest_all(src, nodes).len() implies should_record(
            src,
            #[trigger] harvest_all(src, nodes)[i],
        ) && exists|j: int|
            0 <= j < nodes.len() && harvest_all(src, nodes)[i] == nodes[j] by {
            let prefix = harvest_all(src, nodes.drop_last());
            if i < prefix.len() {
                assert(harvest_all(src, nodes)[i] == prefix[i]);
                let j = choose|j: int|
                    0 <= j < nodes.drop_last().len() && prefix[i] == nodes.drop_last()[j];
                assert(nodes.drop_last()[j] == nodes[j]);
            } else {
                assert(harvest_all(src, nodes)[i] == nodes.last());
                assert(nodes[nodes.len() - 1] == nodes.last());
            }
        }
    }
}

/// A recorded span lies within the source text.
pub proof fn lemma_should_record_wf(src: Seq<u8>, n: SpanRecord)
    requires
        should_record(src, n),
    ensures
        record_wf(n, src),
{
    lemma_char_count_le_len(src);
}

/// Record one node into the accumulator unless the exclusion policy or
/// the offset guard drops it.
pub fn find_type_except_comment(source: &Vec<u8>, node: &SpanRecord, acc: &mut Vec<SpanRecord>)
    ensures
        final(acc)@ == old(acc)@ + harvest_step(source@, *node),
{
    if excluded_kind(&node.kind) {
        proof {
            assert(old(acc)@ + harvest_step(source@, *node) =~= old(acc)@);
        }
        return ;
    }
    let cc = char_count(source);
    if node.end < 1 || node.end > cc || node.start > node.end {
        proof {
            assert(old(acc)@ + harvest_step(source@, *node) =~= old(acc)@);
        }
        return ;
    }
    acc.push(node.clone());
    proof {
        assert(old(acc)@ + harvest_step(source@, *node) =~= old(acc)@.push(*node));
    }
}

/// Whether the outside parser accepts this source text. The outcome is a
/// function of the bytes alone (the grammar is fixed and the parse draws
/// on nothing else), so it bears a name; only the trusted parse call
/// below says what it is.
pub uninterp spec fn parses(src: Seq<u8>) -> bool;

/// The node records of the source's concrete syntax tree, in pre-order
/// with the root first, as the cursor walk of the trusted parse call
/// yields them. Like the parse outcome, a function of the bytes alone.
pub uninterp spec fn walked_nodes(src: Seq<u8>) -> Seq<SpanRecord>;

/// Relies on tree_sitter::Parser::parse with the grammar of
/// tree_sitter_rust, and on tree_sitter::TreeCursor reaching every node
/// of the resulting tree: parses the bytes as Rust source and flattens
/// the tree into its nodes in pre-order, the root first, each carrying
/// its grammar kind, byte range and line/column positions; `None` exactly
/// when the parser fails. Parsing and walking are deterministic, so the
/// outcome and the node list are the two named functions of the bytes
/// above; beyond that nothing is assumed: the harvester checks every
/// offset before it is used.
#[verifier::external_body]
fn parse_nodes(source: &Vec<u8>) -> (r: Option<Vec<SpanRecord>>)
    ensures
        r is Some <==> parses(source@),
        r matches Some(ns) ==> ns@ == walked_nodes(source@),
{
    let mut parser = tree_sitter::Parser::new();
    parser.set_language(&tree_sitter_rust::LANGUAGE.into()).ok()?;
    let tree = parser.parse(source, None)?;
    let mut cur = tree.walk();
    let mut out = Vec::new();
    loop {
        let n = cur.node();
        let sp = n.start_position();
        let ep = n.end_position();
        out.push(SpanRecord { kind: n.kind().to_string(), start: n.start_byte(), end: n.end_byte(), start_row: sp.row, start_col: sp.column, end_row: ep.row, end_col: ep.column });
        if cur.goto_first_child() { continue; }
        while !cur.goto_next_sibling() {
            if !cur.goto_parent() { return Some(out); }
        }
    }
}

/// The span records harvesting yields for a source text the parser
/// accepts: the recorded nodes of its walked tree. A function of the
/// bytes alone, so two harvests of equal text agree.
pub open spec fn harvested_records(src: Seq<u8>) -> Seq<SpanRecord> {
    harvest_of_walk(src, walked_nodes(src))
}

/// Harvest the span records of a walked node sequence whose first element
/// is the tree's root: the root itself is never recorded, every other
/// node is recorded unless excluded or dropped by the offset guard.
pub fn harvest(source: &Vec<u8>, nodes: &Vec<SpanRecord>) -> (recs: Vec<SpanRecord>)
    ensures
        recs@ == harvest_of_walk(source@, nodes@),
        records_wf(recs@, source@),
        forall|i: int| 0 <= i < recs@.len() ==> !excluded_kind_spec(#[trigger] recs@[i].kind@),
{
    let mut recs: Vec<SpanRecord> = Vec::new();
    if nodes.len() == 0 {
        return recs;
    }
    let mut i: usize = 1;
    while i < nodes.len()
        invariant
            1 <= i <= nodes@.len(),
            recs@ == harvest_all(source@, nodes@.subrange(1, i as int)),
        decreases nodes@.len() - i,
    {
        find_type_except_comment(source, &nodes[i], &mut recs);
        proof {
            assert(nodes@.subrange(1, i + 1).drop_last() == nodes@.subrange(1, i as int));
            assert(nodes@.subrange(1, i + 1).last() == nodes@[i as int]);
        }
        i += 1;
    }
    proof {
        assert(nodes@.subrange(1, nodes@.len() as int) == nodes@.skip(1));
        lemma_harvest_members(source@, nodes@.skip(1));
        assert forall|k: int| 0 <= k < recs@.len() implies record_wf(#[trigger] recs@[k], source@)
            && !excluded_kind_spec(recs@[k].kind@) by {
            lemma_should_record_wf(source@, recs@[k]);
        }
    }
    recs
}

/// Parse a source text and harvest its span records: the spans a mutation
/// pass works on. Succeeds exactly when the parser accepts the text, and
/// then returns exactly the harvest of the text's walked tree.
pub fn get_splice_parts(source: &Vec<u8>) -> (r: Result<Vec<SpanRecord>, MutationError>)
    ensures
        r is Ok <==> parses(source@),
        r matches Ok(recs) ==> recs@ == harvested_records(source@),
        r matches Ok(recs) ==> records_wf(recs@, source@),
        r matches Ok(recs) ==> forall|i: int|
            0 <= i < recs@.len() ==> !excluded_kind_spec(#[trigger] recs@[i].kind@),
        r matches Err(e) ==> e == MutationError::ParseFailed,
{
    match parse_nodes(source) {
        None => Err(MutationError::ParseFailed),
        Some(nodes) => Ok(harvest(source, &nodes)),
    }
}

/// Whether every record's offsets lie within the source text: the runtime
/// gate a caller applies before mutating with records it did not harvest
/// from this very text.
pub fn records_wf_exec(source: &Vec<u8>, records: &Vec<SpanRecord>) -> (r: bool)
    ensures
        r == records_wf(records@, source@),
{
    let mut i: usize = 0;
    while i < records.len()
        invariant
            i <= records@.len(),
            forall|k: int| 0 <= k < i ==> record_wf(#[trigger] records@[k], source@),
        decreases records@.len() - i,
    {
        if records[i].start > records[i].end || records[i].end > source.len() {
            return false;
        }
        i += 1;
    }
    true
}

} // verus!

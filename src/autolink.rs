//! Autolinking: from rule matches in text nodes to the pieces that replace them.
use vstd::prelude::*;
use vstd::string::StringSliceAdditionalSpecFns;
use vstd::utf8::*;
use crate::rule::{capture_ok, captures_of, span_ok, Capture, LinkRule};
use crate::template::{groups_view, marker, replace_all, substitute_url, substituted};
use crate::text::{byte_slice, byte_span_ok};

verus! {

broadcast use vstd::utf8::group_utf8_lib;

/// One match of a rule in a text node: its byte span, the rule's URL template and the
/// text of each group (index 0 is the whole match; `None` for a group that did not take part).
pub struct MatchRecord {
    pub start: usize,
    pub end: usize,
    pub url: String,
    pub groups: Vec<Option<String>>,
}

pub open spec fn span_lo(span: (usize, usize)) -> int {
    let (lo, _) = span;
    lo as int
}

pub open spec fn span_hi(span: (usize, usize)) -> int {
    let (_, hi) = span;
    hi as int
}

/// `r` is the record of the match `c` of a rule with template `template` in text `bytes`:
/// its span runs from the earliest start to the latest end of the groups that took part.
pub open spec fn record_of(r: MatchRecord, c: Seq<Option<(usize, usize)>>, bytes: Seq<u8>, template: Seq<char>) -> bool {
    &&& r.url@ == template
    &&& r.groups@.len() == c.len()
    &&& forall|j: int| 0 <= j < c.len() ==> ((#[trigger] r.groups@[j]) is Some) == (c[j] is Some)
    &&& forall|j: int|
        0 <= j < c.len() && (#[trigger] c[j]) is Some ==> encode_utf8(r.groups@[j]->0@)
            == bytes.subrange(span_lo(c[j]->0), span_hi(c[j]->0))
    &&& exists|j: int| 0 <= j < c.len() && (#[trigger] c[j]) is Some && span_lo(c[j]->0) == r.start
    &&& forall|j: int| 0 <= j < c.len() && (#[trigger] c[j]) is Some ==> r.start <= span_lo(c[j]->0)
    &&& exists|j: int| 0 <= j < c.len() && (#[trigger] c[j]) is Some && span_hi(c[j]->0) == r.end
    &&& forall|j: int| 0 <= j < c.len() && (#[trigger] c[j]) is Some ==> span_hi(c[j]->0) <= r.end
}

/// The record's span lies in `bytes` on character boundaries.
pub open spec fn record_ok(r: MatchRecord, bytes: Seq<u8>) -> bool {
    byte_span_ok(bytes, r.start as int, r.end as int)
}

/// The record of one match.
pub fn record_from_capture(text: &str, template: &String, c: &Capture) -> (r: MatchRecord)
    requires
        capture_ok(c@, text.spec_bytes()),
    ensures
        record_of(r, c@, text.spec_bytes(), template@),
        record_ok(r, text.spec_bytes()),
{
    let ghost bytes = text.spec_bytes();
    let first = c[0];
    let (mut start, mut end) = match first {
        Some(span) => span,
        None => (0, 0),
    };
    assert(span_ok(c@[0]->0, bytes));
    let mut groups: Vec<Option<String>> = Vec::new();
    let mut j: usize = 0;
    while j < c.len()
        invariant
            capture_ok(c@, bytes),
            bytes == text.spec_bytes(),
            j <= c@.len(),
            groups@.len() == j,
            c@[0] == Some((start, end)) || exists|i: int| 0 <= i < j && (#[trigger] c@[i]) is Some && span_lo(c@[i]->0) == start,
            c@[0] == Some((start, end)) || exists|i: int| 0 <= i < j && (#[trigger] c@[i]) is Some && span_hi(c@[i]->0) == end,
            byte_span_ok(bytes, start as int, end as int),
            start <= span_lo(c@[0]->0),
            span_hi(c@[0]->0) <= end,
            forall|i: int| 0 <= i < j && (#[trigger] c@[i]) is Some ==> start <= span_lo(c@[i]->0),
            forall|i: int| 0 <= i < j && (#[trigger] c@[i]) is Some ==> span_hi(c@[i]->0) <= end,
            forall|i: int| 0 <= i < j ==> ((#[trigger] groups@[i]) is Some) == (c@[i] is Some),
            forall|i: int|
                0 <= i < j && (#[trigger] c@[i]) is Some ==> encode_utf8(groups@[i]->0@)
                    == bytes.subrange(span_lo(c@[i]->0), span_hi(c@[i]->0)),
        decreases c@.len() - j,
    {
        let g = c[j];
        match g {
            Some((lo, hi)) => {
                assert(span_ok(c@[j as int]->0, bytes));
                let s = byte_slice(text, lo, hi);
                groups.push(Some(s));
                if lo < start {
                    start = lo;
                }
                if hi > end {
                    end = hi;
                }
            },
            None => {
                groups.push(None);
            },
        }
        j += 1;
    }
    let r = MatchRecord { start, end, url: template.clone(), groups };
    assert(c@[0] is Some);
    r
}

/// The records of successive matches of one rule, in the order they were found.
pub fn records_from_captures(text: &str, template: &String, caps: &Vec<Capture>) -> (r: Vec<MatchRecord>)
    requires
        forall|i: int| 0 <= i < caps@.len() ==> capture_ok(#[trigger] caps@[i]@, text.spec_bytes()),
    ensures
        r@.len() == caps@.len(),
        forall|i: int| 0 <= i < r@.len() ==> record_of(#[trigger] r@[i], caps@[i]@, text.spec_bytes(), template@),
        forall|i: int| 0 <= i < r@.len() ==> record_ok(#[trigger] r@[i], text.spec_bytes()),
{
    let mut r: Vec<MatchRecord> = Vec::new();
    let mut i: usize = 0;
    while i < caps.len()
        invariant
            i <= caps@.len(),
            r@.len() == i,
            forall|k: int| 0 <= k < caps@.len() ==> capture_ok(#[trigger] caps@[k]@, text.spec_bytes()),
            forall|k: int| 0 <= k < i ==> record_of(#[trigger] r@[k], caps@[k]@, text.spec_bytes(), template@),
            forall|k: int| 0 <= k < i ==> record_ok(#[trigger] r@[k], text.spec_bytes()),
        decreases caps@.len() - i,
    {
        let rec = record_from_capture(text, template, &caps[i]);
        r.push(rec);
        i += 1;
    }
    r
}

/// The record carries the template of one of `rules`.
pub open spec fn from_some_rule(r: MatchRecord, rules: Seq<LinkRule>) -> bool {
    exists|q: int| 0 <= q < rules.len() && r.url@ == (#[trigger] rules[q]).template()
}

/// `r` holds the records of every match of the first `k` rules in the text `t`: the matches
/// of the first rule first, each rule's in the order regex-lite finds them.
pub open spec fn matches_in_order(r: Seq<MatchRecord>, rules: Seq<LinkRule>, t: Seq<char>, k: nat) -> bool
    decreases k,
{
    if k == 0 {
        r.len() == 0
    } else {
        let rule = rules[k - 1];
        let c = captures_of(rule.pattern(), t);
        let n = r.len() - c.len();
        &&& n >= 0
        &&& matches_in_order(r.subrange(0, n), rules, t, (k - 1) as nat)
        &&& forall|q: int| 0 <= q < c.len() ==> record_of(#[trigger] r[n + q], c[q], encode_utf8(t), rule.template())
    }
}

/// Every match of every rule in `text`: the matches of the first rule first, each rule's in
/// the order they were found.
pub fn find_matches(rules: &[LinkRule], text: &str) -> (r: Vec<MatchRecord>)
    ensures
        matches_in_order(r@, rules@, text@, rules@.len()),
        forall|i: int| 0 <= i < r@.len() ==> record_ok(#[trigger] r@[i], text.spec_bytes()),
        forall|i: int| 0 <= i < r@.len() ==> from_some_rule(#[trigger] r@[i], rules@),
{
    let mut r: Vec<MatchRecord> = Vec::new();
    let mut k: usize = 0;
    while k < rules.len()
        invariant
            k <= rules@.len(),
            matches_in_order(r@, rules@, text@, k as nat),
            forall|i: int| 0 <= i < r@.len() ==> record_ok(#[trigger] r@[i], text.spec_bytes()),
            forall|i: int| 0 <= i < r@.len() ==> from_some_rule(#[trigger] r@[i], rules@),
        decreases rules@.len() - k,
    {
        let rule = &rules[k];
        let caps = rule.captures(text);
        let mut recs = records_from_captures(text, rule.url(), &caps);
        let ghost before = r@;
        let ghost added = recs@;
        let ghost c = captures_of(rules@[k as int].pattern(), text@);
        assert forall|i: int| 0 <= i < added.len() implies from_some_rule(#[trigger] added[i], rules@) by {
            assert(record_of(added[i], caps@[i]@, text.spec_bytes(), rules@[k as int].template()));
        }
        assert forall|q: int| 0 <= q < c.len() implies record_of(#[trigger] added[q], c[q], encode_utf8(text@), rules@[k as int].template()) by {
            assert(caps@.map_values(|x: Capture| x@)[q] == caps@[q]@);
        }
        r.append(&mut recs);
        assert(r@ =~= before + added);
        assert(r@.subrange(0, before.len() as int) =~= before);
        assert forall|q: int| 0 <= q < c.len() implies record_of(#[trigger] r@[before.len() + q], c[q], encode_utf8(text@), rules@[k as int].template()) by {
            assert(r@[before.len() + q] == added[q]);
        }
        assert forall|i: int| 0 <= i < r@.len() implies from_some_rule(#[trigger] r@[i], rules@) by {
            if i >= before.len() {
                assert(r@[i] == added[i - before.len()]);
            }
        }
        k += 1;
    }
    r
}

/// What replaces a matched text node, piece by piece.
pub enum Piece {
    /// Unmatched text.
    Text(String),
    /// A link to `url` whose title and text are the matched text.
    Link { url: String, title: String },
}

/// A piece, with each text given by its UTF-8 bytes.
pub enum PieceModel {
    Text(Seq<u8>),
    Link(Seq<char>, Seq<u8>),
}

impl Piece {
    pub open spec fn model(self) -> PieceModel {
        match self {
            Piece::Text(t) => PieceModel::Text(encode_utf8(t@)),
            Piece::Link { url, title } => PieceModel::Link(url@, encode_utf8(title@)),
        }
    }
}

pub open spec fn models(pieces: Seq<Piece>) -> Seq<PieceModel> {
    pieces.map_values(|p: Piece| p.model())
}

/// The URL that a match links to.
pub open spec fn link_url(r: MatchRecord) -> Seq<char> {
    substituted(r.url@, groups_view(r.groups@))
}

/// The text between the end of one match and the start of the next; nothing where they overlap.
pub open spec fn gap(bytes: Seq<u8>, lo: int, hi: int) -> Seq<u8> {
    if lo <= hi {
        bytes.subrange(lo, hi)
    } else {
        Seq::empty()
    }
}

/// Where the text before match `k` starts: the end of the match before it.
pub open spec fn prev_end(recs: Seq<MatchRecord>, k: int) -> int {
    if k == 0 {
        0
    } else {
        recs[k - 1].end as int
    }
}

/// The pieces for the first `k` matches: for each, the text before it and its link.
pub open spec fn pieces_upto(bytes: Seq<u8>, recs: Seq<MatchRecord>, k: nat) -> Seq<PieceModel>
    decreases k,
{
    if k == 0 {
        Seq::empty()
    } else {
        let r = recs[k - 1];
        pieces_upto(bytes, recs, (k - 1) as nat) + seq![
            PieceModel::Text(gap(bytes, prev_end(recs, k - 1), r.start as int)),
            PieceModel::Link(link_url(r), bytes.subrange(r.start as int, r.end as int)),
        ]
    }
}

/// Where the trailing text starts: the end of the last match.
pub open spec fn tail_start(recs: Seq<MatchRecord>) -> int {
    prev_end(recs, recs.len() as int)
}

/// The pieces that replace a text node with matches `recs`, taken in the order given;
/// text after the last match is kept unless the last match reaches the end.
pub open spec fn planned(bytes: Seq<u8>, recs: Seq<MatchRecord>) -> Seq<PieceModel> {
    pieces_upto(bytes, recs, recs.len()) + if tail_start(recs) != bytes.len() {
        seq![PieceModel::Text(bytes.subrange(tail_start(recs), bytes.len() as int))]
    } else {
        Seq::empty()
    }
}

proof fn lemma_empty_encoding()
    ensures
        encode_utf8(Seq::<char>::empty()) == Seq::<u8>::empty(),
{
    assert(encode_utf8(Seq::<char>::empty()) =~= Seq::<u8>::empty());
}

/// Splits `text` around its matches `recs` into text and link pieces.
pub fn plan_pieces(text: &str, recs: &Vec<MatchRecord>) -> (r: Vec<Piece>)
    requires
        forall|i: int| 0 <= i < recs@.len() ==> record_ok(#[trigger] recs@[i], text.spec_bytes()),
    ensures
        models(r@) == planned(text.spec_bytes(), recs@),
{
    let ghost bytes = text.spec_bytes();
    proof {
        lemma_empty_encoding();
        encode_utf8_valid_utf8(text@);
        is_char_boundary_start_end_of_seq(bytes);
    }
    let mut out: Vec<Piece> = Vec::new();
    let mut prev: usize = 0;
    let mut k: usize = 0;
    while k < recs.len()
        invariant
            bytes == text.spec_bytes(),
            valid_utf8(bytes),
            encode_utf8(Seq::<char>::empty()) == Seq::<u8>::empty(),
            k <= recs@.len(),
            prev == prev_end(recs@, k as int),
            is_char_boundary(bytes, prev as int),
            is_char_boundary(bytes, bytes.len() as int),
            prev <= bytes.len(),
            forall|i: int| 0 <= i < recs@.len() ==> record_ok(#[trigger] recs@[i], bytes),
            models(out@) == pieces_upto(bytes, recs@, k as nat),
        decreases recs@.len() - k,
    {
        let rec = &recs[k];
        assert(record_ok(recs@[k as int], bytes));
        let before = if prev <= rec.start {
            byte_slice(text, prev, rec.start)
        } else {
            String::new()
        };
        let url = substitute_url(rec.url.as_str(), &rec.groups);
        let title = byte_slice(text, rec.start, rec.end);
        let ghost old_out = out@;
        out.push(Piece::Text(before));
        out.push(Piece::Link { url, title });
        assert(models(out@) =~= models(old_out) + seq![
            PieceModel::Text(gap(bytes, prev_end(recs@, k as int), recs@[k as int].start as int)),
            PieceModel::Link(link_url(recs@[k as int]), bytes.subrange(recs@[k as int].start as int, recs@[k as int].end as int)),
        ]);
        prev = rec.end;
        k += 1;
    }
    let len = text.as_bytes().len();
    assert(tail_start(recs@) == prev);
    if prev != len {
        let rest = byte_slice(text, prev, len);
        let ghost old_out = out@;
        out.push(Piece::Text(rest));
        assert(models(out@) =~= models(old_out) + seq![PieceModel::Text(bytes.subrange(prev as int, bytes.len() as int))]);
    } else {
        assert(models(out@) =~= models(out@) + Seq::<PieceModel>::empty());
    }
    out
}

/// A match of a pattern without groups links to its template with every `{0}` replaced by
/// the whole match, and the link's text is that match.
pub proof fn lemma_groupless_match_links_whole_match(
    r: MatchRecord,
    c: Seq<Option<(usize, usize)>>,
    bytes: Seq<u8>,
    template: Seq<char>,
)
    requires
        capture_ok(c, bytes),
        c.len() == 1,
        record_of(r, c, bytes, template),
    ensures
        r.groups@[0] is Some,
        link_url(r) == replace_all(template, marker(0), r.groups@[0]->0@),
        encode_utf8(r.groups@[0]->0@) == bytes.subrange(r.start as int, r.end as int),
{
    assert(c[0] is Some);
    assert(r.groups@[0] is Some);
    let j = choose|j: int| 0 <= j < c.len() && (#[trigger] c[j]) is Some && span_lo(c[j]->0) == r.start;
    let k = choose|j: int| 0 <= j < c.len() && (#[trigger] c[j]) is Some && span_hi(c[j]->0) == r.end;
    assert(j == 0 && k == 0);
    let g = groups_view(r.groups@);
    assert(g.len() == 1);
    assert(g[0] == Some(r.groups@[0]->0@));
    assert(g =~= seq![Some(r.groups@[0]->0@)]);
    crate::template::lemma_whole_match_only(template, r.groups@[0]->0@, 0);
    assert(template.subrange(0, template.len() as int) =~= template);
}

} // verus!

//! The autolink pass over a document given as its nodes in pre-order.
use vstd::prelude::*;
use vstd::string::StringSliceAdditionalSpecFns;
use vstd::utf8::*;
use crate::autolink::{find_matches, matches_in_order, models, plan_pieces, planned, record_ok, MatchRecord, Piece, PieceModel};
use crate::rule::LinkRule;
use crate::text::chars_of;

verus! {

/// What the autolink pass needs to know of a node.
pub enum NodeKind {
    /// A text node and its text.
    Text(String),
    /// A fragment of inline raw HTML.
    Html(String),
    /// A link node.
    Link,
    /// Any other node.
    Other,
}

/// A node of the document, in pre-order, with its depth below the root.
pub struct NodeEvent {
    pub depth: usize,
    pub kind: NodeKind,
}

/// Node `j` is node `i` or one of its ancestors: every node after `j` up to `i` lies deeper.
pub open spec fn ancestor_or_self(ev: Seq<NodeEvent>, j: int, i: int) -> bool {
    &&& 0 <= j <= i < ev.len()
    &&& forall|k: int| j < k <= i ==> (#[trigger] ev[k]).depth > ev[j].depth
}

/// Node `i` is a link or lies inside one.
pub open spec fn link_above(ev: Seq<NodeEvent>, i: int) -> bool {
    exists|j: int| ancestor_or_self(ev, j, i) && (#[trigger] ev[j]).kind is Link
}

/// Whether node `i` is a link or lies inside one; walks back from `i` towards the root.
pub fn has_link_ancestor(ev: &Vec<NodeEvent>, i: usize) -> (r: bool)
    requires
        i < ev@.len(),
    ensures
        r == link_above(ev@, i as int),
{
    let n = ev.len();
    assert(i < n);
    let mut j: usize = i + 1;
    let mut m: usize = usize::MAX;
    while j > 0
        invariant
            j <= i + 1,
            j == i + 1 ==> m == usize::MAX,
            i < ev@.len(),
            forall|k: int| j <= k <= i ==> m <= (#[trigger] ev@[k]).depth,
            j <= i ==> exists|k: int| j <= k <= i && (#[trigger] ev@[k]).depth == m,
            forall|k: int| j <= k <= i && (#[trigger] ev@[k]).kind is Link ==> !ancestor_or_self(ev@, k, i as int),
        decreases j,
    {
        let c = j - 1;
        let d = ev[c].depth;
        let up = c == i || d < m;
        proof {
            if up {
                assert(ancestor_or_self(ev@, c as int, i as int));
            } else {
                let w = choose|k: int| j <= k <= i && (#[trigger] ev@[k]).depth == m;
                assert(!ancestor_or_self(ev@, c as int, i as int)) by {
                    assert(ev@[w].depth <= d);
                }
            }
        }
        if up && matches!(ev[c].kind, NodeKind::Link) {
            return true;
        }
        let ghost old_m = m;
        if d < m {
            m = d;
        }
        proof {
            if d < old_m {
                assert(ev@[c as int].depth == m);
            } else if j <= i {
                let w = choose|k: int| j <= k <= i && (#[trigger] ev@[k]).depth == old_m;
                assert(ev@[w].depth == m);
            } else {
                assert(ev@[c as int].depth == m);
            }
        }
        j = c;
    }
    assert forall|k: int| ancestor_or_self(ev@, k, i as int) implies !((#[trigger] ev@[k]).kind is Link) by {}
    false
}

/// The nesting depth of raw HTML anchors after seeing a fragment that starts with `h`:
/// `<a ` opens one, `</a>` closes one (never below zero).
pub open spec fn next_anchor_depth(d: nat, h: Seq<char>) -> nat {
    if opens_anchor(h) {
        if d < usize::MAX { d + 1 } else { d }
    } else if closes_anchor(h) {
        if d > 0 { (d - 1) as nat } else { 0 }
    } else {
        d
    }
}

pub open spec fn opens_anchor(h: Seq<char>) -> bool {
    h.len() >= 3 && h.subrange(0, 3) == seq!['<', 'a', ' ']
}

pub open spec fn closes_anchor(h: Seq<char>) -> bool {
    h.len() >= 4 && h.subrange(0, 4) == seq!['<', '/', 'a', '>']
}

/// Tracks whether the pass is inside a raw HTML anchor.
pub struct AnchorTracker {
    depth: usize,
}

fn starts_with_chars(s: &Vec<char>, p: &Vec<char>) -> (r: bool)
    ensures
        r == (p@.len() <= s@.len() && s@.subrange(0, p@.len() as int) == p@),
{
    if p.len() > s.len() {
        false
    } else {
        crate::template::occurs_at(s, 0, p)
    }
}

impl AnchorTracker {
    pub closed spec fn depth(&self) -> nat {
        self.depth as nat
    }

    pub fn new() -> (r: AnchorTracker)
        ensures
            r.depth() == 0,
    {
        AnchorTracker { depth: 0 }
    }

    /// Whether an anchor is open.
    pub fn inside(&self) -> (r: bool)
        ensures
            r == (self.depth() > 0),
    {
        self.depth > 0
    }

    /// Takes note of a fragment of inline raw HTML.
    pub fn observe_html(&mut self, html: &str)
        ensures
            final(self).depth() == next_anchor_depth(old(self).depth(), html@),
    {
        let h = chars_of(html);
        let mut open: Vec<char> = Vec::new();
        open.push('<');
        open.push('a');
        open.push(' ');
        let mut close: Vec<char> = Vec::new();
        close.push('<');
        close.push('/');
        close.push('a');
        close.push('>');
        assert(open@ =~= seq!['<', 'a', ' ']);
        assert(close@ =~= seq!['<', '/', 'a', '>']);
        if starts_with_chars(&h, &open) {
            if self.depth < usize::MAX {
                self.depth = self.depth + 1;
            }
        } else if starts_with_chars(&h, &close) {
            if self.depth > 0 {
                self.depth = self.depth - 1;
            }
        }
    }
}

/// The anchor depth before node `k`: the effect of the HTML fragments among the first `k` nodes.
pub open spec fn anchor_depth_before(ev: Seq<NodeEvent>, k: nat) -> nat
    decreases k,
{
    if k == 0 {
        0
    } else {
        let d = anchor_depth_before(ev, (k - 1) as nat);
        match ev[k - 1].kind {
            NodeKind::Html(h) => next_anchor_depth(d, h@),
            _ => d,
        }
    }
}

/// Node `i` is a text node that the pass may link: outside raw anchors and outside links.
pub open spec fn linkable(ev: Seq<NodeEvent>, i: int) -> bool {
    &&& ev[i].kind is Text
    &&& anchor_depth_before(ev, i as nat) == 0
    &&& !link_above(ev, i)
}

pub open spec fn text_bytes(k: NodeKind) -> Seq<u8> {
    match k {
        NodeKind::Text(t) => encode_utf8(t@),
        _ => Seq::empty(),
    }
}

/// A text node to replace, by its index among the nodes, and the pieces that replace it.
pub struct Rewrite {
    pub index: usize,
    pub pieces: Vec<Piece>,
}

pub open spec fn rewrite_model(r: Rewrite) -> (int, Seq<PieceModel>) {
    (r.index as int, models(r.pieces@))
}

/// The rewrites for the first `k` nodes, given the matches `ms[i]` found in each node `i`.
pub open spec fn rewrites_upto(ev: Seq<NodeEvent>, ms: Seq<Seq<MatchRecord>>, k: nat) -> Seq<(int, Seq<PieceModel>)>
    decreases k,
{
    if k == 0 {
        Seq::empty()
    } else {
        let i = k - 1;
        let prev = rewrites_upto(ev, ms, i as nat);
        if linkable(ev, i) && ms[i].len() > 0 {
            prev.push((i, planned(text_bytes(ev[i].kind), ms[i])))
        } else {
            prev
        }
    }
}

pub open spec fn match_lists(ms: Seq<Vec<MatchRecord>>) -> Seq<Seq<MatchRecord>> {
    ms.map_values(|v: Vec<MatchRecord>| v@)
}

/// The matches of each text node lie in its text on character boundaries.
pub open spec fn matches_fit(ev: Seq<NodeEvent>, ms: Seq<Seq<MatchRecord>>) -> bool {
    &&& ms.len() == ev.len()
    &&& forall|i: int, q: int|
        0 <= i < ev.len() && 0 <= q < ms[i].len() ==> record_ok(#[trigger] ms[i][q], text_bytes(ev[i].kind))
}

/// The rewrites of the whole document, in document order, given the matches of each node.
pub fn plan_rewrites(ev: &Vec<NodeEvent>, ms: &Vec<Vec<MatchRecord>>) -> (r: Vec<Rewrite>)
    requires
        matches_fit(ev@, match_lists(ms@)),
    ensures
        r@.map_values(|w: Rewrite| rewrite_model(w)) == rewrites_upto(ev@, match_lists(ms@), ev@.len()),
{
    let ghost msl = match_lists(ms@);
    let mut out: Vec<Rewrite> = Vec::new();
    let mut tracker = AnchorTracker::new();
    let mut i: usize = 0;
    while i < ev.len()
        invariant
            i <= ev@.len(),
            msl == match_lists(ms@),
            matches_fit(ev@, msl),
            tracker.depth() == anchor_depth_before(ev@, i as nat),
            out@.map_values(|w: Rewrite| rewrite_model(w)) == rewrites_upto(ev@, msl, i as nat),
        decreases ev@.len() - i,
    {
        let ghost old_out = out@;
        match &ev[i].kind {
            NodeKind::Text(t) => {
                if !tracker.inside() && ms[i].len() > 0 && !has_link_ancestor(ev, i) {
                    assert forall|q: int| 0 <= q < ms@[i as int]@.len() implies record_ok(#[trigger] ms@[i as int]@[q], encode_utf8(t@)) by {
                        assert(record_ok(msl[i as int][q], text_bytes(ev@[i as int].kind)));
                    }
                    let pieces = plan_pieces(t.as_str(), &ms[i]);
                    out.push(Rewrite { index: i, pieces });
                    assert(out@.map_values(|w: Rewrite| rewrite_model(w)) =~= old_out.map_values(|w: Rewrite| rewrite_model(w)).push((i as int, planned(text_bytes(ev@[i as int].kind), msl[i as int]))));
                }
            },
            NodeKind::Html(h) => {
                tracker.observe_html(h.as_str());
            },
            _ => {},
        }
        i += 1;
    }
    out
}

/// `ms[i]` holds every match of `rules` in node `i` when it is a text node, in rule order
/// and then match order, and nothing for any other node.
pub open spec fn found_matches(ev: Seq<NodeEvent>, rules: Seq<LinkRule>, ms: Seq<Seq<MatchRecord>>) -> bool {
    &&& ms.len() == ev.len()
    &&& forall|i: int|
        0 <= i < ev.len() ==> match (#[trigger] ev[i]).kind {
            NodeKind::Text(t) => matches_in_order(ms[i], rules, t@, rules.len()),
            _ => ms[i].len() == 0,
        }
}

/// Finds the matches of `rules` in every text node and plans the rewrites of the document.
pub fn autolink_plan(ev: &Vec<NodeEvent>, rules: &[LinkRule]) -> (r: Vec<Rewrite>)
    ensures
        exists|ms: Seq<Seq<MatchRecord>>|
            found_matches(ev@, rules@, ms) && r@.map_values(|w: Rewrite| rewrite_model(w))
                == rewrites_upto(ev@, ms, ev@.len()),
        forall|k: int| 0 <= k < r@.len() ==> 0 <= (#[trigger] r@[k]).index < ev@.len() && linkable(ev@, r@[k].index as int),
{
    let mut ms: Vec<Vec<MatchRecord>> = Vec::new();
    let mut i: usize = 0;
    while i < ev.len()
        invariant
            i <= ev@.len(),
            ms@.len() == i,
            forall|p: int, q: int|
                0 <= p < i && 0 <= q < ms@[p]@.len() ==> record_ok(#[trigger] ms@[p]@[q], text_bytes(ev@[p].kind)),
            forall|p: int|
                0 <= p < i ==> match (#[trigger] ev@[p]).kind {
                    NodeKind::Text(t) => matches_in_order(ms@[p]@, rules@, t@, rules@.len()),
                    _ => ms@[p]@.len() == 0,
                },
        decreases ev@.len() - i,
    {
        let found = match &ev[i].kind {
            NodeKind::Text(t) => find_matches(rules, t.as_str()),
            _ => Vec::new(),
        };
        ms.push(found);
        i += 1;
    }
    assert(matches_fit(ev@, match_lists(ms@)));
    assert(found_matches(ev@, rules@, match_lists(ms@)));
    let r = plan_rewrites(ev, &ms);
    proof {
        lemma_rewrites_linkable(ev@, match_lists(ms@), ev@.len());
        assert forall|k: int| 0 <= k < r@.len() implies 0 <= (#[trigger] r@[k]).index < ev@.len() && linkable(ev@, r@[k].index as int) by {
            assert(r@.map_values(|w: Rewrite| rewrite_model(w))[k] == rewrite_model(r@[k]));
        }
    }
    r
}

/// Every rewrite among the first `k` nodes is of a linkable node before `k`.
pub proof fn lemma_rewrites_linkable(ev: Seq<NodeEvent>, ms: Seq<Seq<MatchRecord>>, k: nat)
    requires
        k <= ev.len(),
    ensures
        forall|q: int| 0 <= q < rewrites_upto(ev, ms, k).len() ==> {
            let i = (#[trigger] rewrites_upto(ev, ms, k)[q]).0;
            0 <= i < k && linkable(ev, i)
        },
    decreases k,
{
    if k > 0 {
        let i = k - 1;
        lemma_rewrites_linkable(ev, ms, i as nat);
        let prev = rewrites_upto(ev, ms, i as nat);
        let cur = rewrites_upto(ev, ms, k);
        assert forall|q: int| 0 <= q < cur.len() implies {
            let x = (#[trigger] cur[q]).0;
            0 <= x < k && linkable(ev, x)
        } by {
            if q < prev.len() {
                assert(cur[q] == prev[q]);
                let y = prev[q];
                assert(0 <= y.0 < i && linkable(ev, y.0));
            }
        }
    }
}

/// Where no rule matches in any node, the pass rewrites nothing: the document is left as parsed.
pub proof fn lemma_no_matches_no_rewrites(ev: Seq<NodeEvent>, ms: Seq<Seq<MatchRecord>>, k: nat)
    requires
        k <= ev.len(),
        ms.len() == ev.len(),
        forall|i: int| 0 <= i < ms.len() ==> (#[trigger] ms[i]).len() == 0,
    ensures
        rewrites_upto(ev, ms, k) == Seq::<(int, Seq<PieceModel>)>::empty(),
    decreases k,
{
    if k > 0 {
        lemma_no_matches_no_rewrites(ev, ms, (k - 1) as nat);
        assert(ms[k - 1].len() == 0);
    }
}

/// Text inside a link node, or after an opening raw `<a ...>` that is not closed yet, is
/// never rewritten, whatever matches it holds.
pub proof fn lemma_no_links_inside_links(ev: Seq<NodeEvent>, ms: Seq<Seq<MatchRecord>>, i: int)
    requires
        0 <= i < ev.len(),
        link_above(ev, i) || anchor_depth_before(ev, i as nat) > 0,
    ensures
        forall|q: int|
            0 <= q < rewrites_upto(ev, ms, ev.len()).len() ==> (#[trigger] rewrites_upto(ev, ms, ev.len())[q]).0 != i,
{
    lemma_rewrites_linkable(ev, ms, ev.len());
}

} // verus!

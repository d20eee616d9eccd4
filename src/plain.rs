//! The restricted renderer's own rules: list markers from a stack of counters, and the few
//! inline HTML tags it keeps.
use vstd::prelude::*;
use crate::template::{decimal, decimal_chars};
use crate::text::{chars_of, string_of};

verus! {

/// The delimiter after the number of an ordered list item.
#[derive(Clone, Copy, Debug, PartialEq, Eq)]
pub enum Delimiter {
    Period,
    Paren,
}

/// How the items of a list are marked.
#[derive(Clone, Copy, Debug, PartialEq, Eq)]
pub enum ListMarker {
    /// Each item starts with the list's bullet character.
    Bullet(char),
    /// Each item starts with its number and the delimiter.
    Ordered(Delimiter),
}

pub open spec fn spaces(n: nat) -> Seq<char> {
    Seq::new(n, |_i: int| ' ')
}

pub open spec fn delimiter_char(d: Delimiter) -> char {
    match d {
        Delimiter::Period => '.',
        Delimiter::Paren => ')',
    }
}

/// The marker of the current item: the bullet, or the innermost counter and the delimiter.
pub open spec fn marker_text(counters: Seq<usize>, m: ListMarker) -> Seq<char> {
    match m {
        ListMarker::Bullet(c) => seq![c],
        ListMarker::Ordered(d) => decimal(counters.last() as nat).push(delimiter_char(d)),
    }
}

/// What starts an item: two spaces per open list, the marker, then spaces up to `padding`.
pub open spec fn item_prefix_text(counters: Seq<usize>, m: ListMarker, padding: nat) -> Seq<char> {
    let t = marker_text(counters, m);
    spaces(2 * counters.len()) + t + spaces(if padding > t.len() { (padding - t.len()) as nat } else { 0 })
}

/// One counter per open list, innermost last: the number of its next item.
pub struct ListStack {
    counters: Vec<usize>,
}

fn push_spaces(v: &mut Vec<char>, n: usize)
    ensures
        final(v)@ == old(v)@ + spaces(n as nat),
{
    let ghost start = v@;
    let mut k: usize = 0;
    while k < n
        invariant
            k <= n,
            v@ == start + spaces(k as nat),
        decreases n - k,
    {
        v.push(' ');
        k += 1;
        assert(v@ =~= start + spaces(k as nat));
    }
}

impl ListStack {
    pub closed spec fn counters(&self) -> Seq<usize> {
        self.counters@
    }

    pub fn new() -> (r: ListStack)
        ensures
            r.counters() == Seq::<usize>::empty(),
    {
        ListStack { counters: Vec::new() }
    }

    /// The number of open lists.
    pub fn depth(&self) -> (r: usize)
        ensures
            r == self.counters().len(),
    {
        self.counters.len()
    }

    /// A list opens: its items count from 1.
    pub fn enter_list(&mut self)
        ensures
            final(self).counters() == old(self).counters().push(1),
    {
        self.counters.push(1);
    }

    /// The innermost list closes.
    pub fn leave_list(&mut self)
        ensures
            old(self).counters().len() > 0 ==> final(self).counters() == old(self).counters().drop_last(),
            old(self).counters().len() == 0 ==> final(self).counters() == old(self).counters(),
    {
        if self.counters.len() > 0 {
            self.counters.pop();
        }
    }

    /// An item of the innermost list is done: the next one takes the next number.
    pub fn finish_item(&mut self)
        ensures
            old(self).counters().len() > 0 && old(self).counters().last() < usize::MAX ==> final(self).counters()
                == old(self).counters().update(old(self).counters().len() - 1, (old(self).counters().last() + 1) as usize),
            old(self).counters().len() == 0 || old(self).counters().last() == usize::MAX ==> final(self).counters()
                == old(self).counters(),
    {
        let n = self.counters.len();
        if n > 0 {
            let v = self.counters[n - 1];
            if v < usize::MAX {
                self.counters.set(n - 1, v + 1);
            }
        }
    }

    /// The text that starts an item of the innermost list.
    pub fn item_prefix(&self, marker: ListMarker, padding: usize) -> (r: String)
        requires
            marker is Ordered ==> self.counters().len() > 0,
        ensures
            r@ == item_prefix_text(self.counters(), marker, padding as nat),
    {
        let mut out: Vec<char> = Vec::new();
        let mut k: usize = 0;
        let n = self.counters.len();
        while k < n
            invariant
                k <= n,
                n == self.counters@.len(),
                out@ == spaces(2 * k as nat),
            decreases n - k,
        {
            push_spaces(&mut out, 2);
            assert(out@ =~= spaces(2 * (k + 1) as nat));
            k += 1;
        }
        let mut t: Vec<char> = match marker {
            ListMarker::Bullet(c) => {
                let mut t: Vec<char> = Vec::new();
                t.push(c);
                t
            },
            ListMarker::Ordered(d) => {
                let mut t = decimal_chars(self.counters[n - 1]);
                t.push(match d {
                    Delimiter::Period => '.',
                    Delimiter::Paren => ')',
                });
                t
            },
        };
        assert(t@ =~= marker_text(self.counters@, marker));
        let w = t.len();
        out.append(&mut t);
        let pad = if padding > w { padding - w } else { 0 };
        push_spaces(&mut out, pad);
        string_of(&out)
    }
}

/// What the restricted renderer keeps of a fragment of inline raw HTML.
#[derive(Clone, Copy, Debug, PartialEq, Eq)]
pub enum InlineHtml {
    /// A `<br>` tag somewhere in it: a line break.
    LineBreak,
    /// Otherwise a `<p>` opening tag somewhere in it: a paragraph opens.
    ParagraphOpen,
    /// Otherwise exactly `</p>`: a paragraph closes.
    ParagraphClose,
    /// Anything else is dropped.
    Nothing,
}

/// The whitespace of the tag patterns: tab, line feed, vertical tab, form feed, carriage
/// return and space.
pub open spec fn is_ws(c: char) -> bool {
    c == ' ' || c == '\t' || c == '\n' || c == '\u{0B}' || c == '\u{0C}' || c == '\r'
}

/// The first position at or after `i` that is not whitespace.
pub open spec fn skip_ws(s: Seq<char>, i: int) -> int
    decreases s.len() - i,
{
    if 0 <= i < s.len() && is_ws(s[i]) {
        skip_ws(s, i + 1)
    } else {
        i
    }
}

/// A line-break tag starts at `i`: `<`, whitespace, `br`, whitespace, an optional `/`, `>`.
pub open spec fn br_at(s: Seq<char>, i: int) -> bool {
    0 <= i < s.len() && s[i] == '<' && {
        let j = skip_ws(s, i + 1);
        j + 1 < s.len() && s[j] == 'b' && s[j + 1] == 'r' && {
            let k = skip_ws(s, j + 2);
            k < s.len() && (s[k] == '>' || (s[k] == '/' && k + 1 < s.len() && s[k + 1] == '>'))
        }
    }
}

/// A paragraph opening tag starts at `i`: `<`, whitespace, `p`, then `>` at once or after a
/// whitespace character and any attributes.
pub open spec fn p_open_at(s: Seq<char>, i: int) -> bool {
    0 <= i < s.len() && s[i] == '<' && {
        let j = skip_ws(s, i + 1);
        j + 1 < s.len() && s[j] == 'p' && (s[j + 1] == '>' || (is_ws(s[j + 1]) && exists|m: int|
            j + 1 < m < s.len() && s[m] == '>'))
    }
}

pub open spec fn has_br(s: Seq<char>) -> bool {
    exists|i: int| br_at(s, i)
}

pub open spec fn has_p_open(s: Seq<char>) -> bool {
    exists|i: int| p_open_at(s, i)
}

/// How a lower-cased fragment is rendered.
pub open spec fn classify(h: Seq<char>) -> InlineHtml {
    if has_br(h) {
        InlineHtml::LineBreak
    } else if has_p_open(h) {
        InlineHtml::ParagraphOpen
    } else if h == seq!['<', '/', 'p', '>'] {
        InlineHtml::ParagraphClose
    } else {
        InlineHtml::Nothing
    }
}

/// The lower-case form of `s`, as `str::to_lowercase` gives it.
pub uninterp spec fn lowercase_of(s: Seq<char>) -> Seq<char>;

/// Relies on `str::to_lowercase`: the result depends on the characters of `s` alone.
#[verifier::external_body]
fn lowercase(s: &str) -> (r: String)
    ensures
        r@ == lowercase_of(s@),
{
    s.to_lowercase()
}

fn ws_char(c: char) -> (r: bool)
    ensures
        r == is_ws(c),
{
    c == ' ' || c == '\t' || c == '\n' || c == '\u{0B}' || c == '\u{0C}' || c == '\r'
}

fn skip_ws_from(s: &Vec<char>, i: usize) -> (r: usize)
    requires
        i <= s@.len(),
    ensures
        r as int == skip_ws(s@, i as int),
        i <= r <= s@.len(),
{
    let mut j = i;
    while j < s.len() && ws_char(s[j])
        invariant
            i <= j <= s@.len(),
            skip_ws(s@, j as int) == skip_ws(s@, i as int),
        decreases s@.len() - j,
    {
        j += 1;
    }
    j
}

fn br_at_exec(s: &Vec<char>, i: usize) -> (r: bool)
    requires
        i < s@.len(),
    ensures
        r == br_at(s@, i as int),
{
    if s[i] != '<' {
        return false;
    }
    let n = s.len();
    assert(i < n);
    let j = skip_ws_from(s, i + 1);
    if !(j < s.len() && s.len() - j > 1 && s[j] == 'b' && s[j + 1] == 'r') {
        return false;
    }
    let k = skip_ws_from(s, j + 2);
    k < s.len() && (s[k] == '>' || (s[k] == '/' && s.len() - k > 1 && s[k + 1] == '>'))
}

fn gt_after(s: &Vec<char>, from: usize) -> (r: bool)
    ensures
        r == exists|m: int| from <= m < s@.len() && s@[m] == '>',
{
    let mut m = from;
    while m < s.len()
        invariant
            from <= m,
            forall|q: int| from <= q < m && q < s@.len() ==> s@[q] != '>',
        decreases s@.len() - m,
    {
        if s[m] == '>' {
            return true;
        }
        m += 1;
    }
    false
}

fn p_open_at_exec(s: &Vec<char>, i: usize) -> (r: bool)
    requires
        i < s@.len(),
    ensures
        r == p_open_at(s@, i as int),
{
    if s[i] != '<' {
        return false;
    }
    let n = s.len();
    assert(i < n);
    let j = skip_ws_from(s, i + 1);
    if !(j < s.len() && s.len() - j > 1 && s[j] == 'p') {
        return false;
    }
    s[j + 1] == '>' || (ws_char(s[j + 1]) && gt_after(s, j + 2))
}

/// How the restricted renderer treats an already lower-cased fragment of inline HTML.
pub fn classify_lowered(h: &str) -> (r: InlineHtml)
    ensures
        r == classify(h@),
{
    let s = chars_of(h);
    let n = s.len();
    assert(s@ == h@);
    let mut i: usize = 0;
    while i < n
        invariant
            n == s@.len(),
            s@ == h@,
            i <= n,
            forall|q: int| 0 <= q < i ==> !br_at(s@, q),
        decreases n - i,
    {
        if br_at_exec(&s, i) {
            assert(br_at(h@, i as int));
            return InlineHtml::LineBreak;
        }
        i += 1;
    }
    assert forall|q: int| !br_at(s@, q) by {
        if 0 <= q < n {
        }
    }
    let mut i: usize = 0;
    while i < n
        invariant
            n == s@.len(),
            s@ == h@,
            i <= n,
            !has_br(s@),
            forall|q: int| 0 <= q < i ==> !p_open_at(s@, q),
        decreases n - i,
    {
        if p_open_at_exec(&s, i) {
            assert(p_open_at(h@, i as int));
            return InlineHtml::ParagraphOpen;
        }
        i += 1;
    }
    assert forall|q: int| !p_open_at(s@, q) by {
        if 0 <= q < n {
        }
    }
    let is_close = n == 4 && s[0] == '<' && s[1] == '/' && s[2] == 'p' && s[3] == '>';
    assert(is_close == (s@ == seq!['<', '/', 'p', '>'])) by {
        if is_close {
            assert(s@ =~= seq!['<', '/', 'p', '>']);
        }
    }
    if is_close {
        InlineHtml::ParagraphClose
    } else {
        InlineHtml::Nothing
    }
}

/// How the restricted renderer treats a fragment of inline HTML: it is lower-cased, then
/// recognised as a line break, a paragraph opening or closing tag, or dropped.
pub fn classify_inline_html(html: &str) -> (r: InlineHtml)
    ensures
        r == classify(lowercase_of(html@)),
{
    let h = lowercase(html);
    classify_lowered(h.as_str())
}

/// The markup written for each kind of fragment.
pub open spec fn markup_text(h: InlineHtml) -> Seq<char> {
    match h {
        InlineHtml::LineBreak => "<br />"@,
        InlineHtml::ParagraphOpen => "<p>"@,
        InlineHtml::ParagraphClose => "</p>"@,
        InlineHtml::Nothing => ""@,
    }
}

impl InlineHtml {
    /// The markup written for the fragment: `<br />`, `<p>`, `</p>` or nothing.
    pub fn markup(&self) -> (r: &'static str)
        ensures
            r@ == markup_text(*self),
    {
        match self {
            InlineHtml::LineBreak => "<br />",
            InlineHtml::ParagraphOpen => "<p>",
            InlineHtml::ParagraphClose => "</p>",
            InlineHtml::Nothing => "",
        }
    }
}

/// What the restricted renderer needs to know of a node.
pub enum PlainNode {
    /// Text, a paragraph, a soft or a hard line break: rendered as usual.
    Kept,
    /// Inline code and its literal.
    Code(String),
    /// A code block and its literal.
    CodeBlock(String),
    /// A fragment of inline raw HTML.
    Html(String),
    /// A list.
    List,
    /// A list item, with its list's marker and padding.
    Item(ListMarker, usize),
    /// Anything else: decoration or structure that is dropped while its children are kept.
    Other,
}

/// One thing the renderer does for a node.
pub enum PlainOutput {
    /// Render the node as the default renderer does.
    Default,
    /// Write this text as it is.
    Write(String),
    /// Write this text HTML-escaped.
    Escape(String),
}

pub enum PlainOutputModel {
    Default,
    Write(Seq<char>),
    Escape(Seq<char>),
}

impl PlainOutput {
    pub open spec fn model(self) -> PlainOutputModel {
        match self {
            PlainOutput::Default => PlainOutputModel::Default,
            PlainOutput::Write(s) => PlainOutputModel::Write(s@),
            PlainOutput::Escape(s) => PlainOutputModel::Escape(s@),
        }
    }
}

/// What the restricted renderer writes when it enters (or leaves) a node, given the counters
/// of the open lists.
pub open spec fn plain_outputs(counters: Seq<usize>, node: PlainNode, entering: bool) -> Seq<PlainOutputModel> {
    match node {
        PlainNode::Kept => seq![PlainOutputModel::Default],
        PlainNode::Code(lit) => if entering {
            seq![PlainOutputModel::Escape(lit@)]
        } else {
            Seq::empty()
        },
        PlainNode::CodeBlock(lit) => if entering {
            seq![PlainOutputModel::Write("\n"@), PlainOutputModel::Escape(lit@), PlainOutputModel::Write("\n"@)]
        } else {
            Seq::empty()
        },
        PlainNode::Html(h) => if entering {
            seq![PlainOutputModel::Write(markup_text(classify(lowercase_of(h@))))]
        } else {
            Seq::empty()
        },
        PlainNode::List => seq![PlainOutputModel::Write("\n"@)],
        PlainNode::Item(m, padding) => if entering {
            seq![PlainOutputModel::Write(item_prefix_text(counters, m, padding as nat))]
        } else {
            seq![PlainOutputModel::Write("\n"@)]
        },
        PlainNode::Other => Seq::empty(),
    }
}

/// The counters after the node: a list entered pushes 1 and a list left pops; an item left
/// counts one up (it stays at the largest value).
pub open spec fn plain_counters(counters: Seq<usize>, node: PlainNode, entering: bool) -> Seq<usize> {
    match node {
        PlainNode::List => if entering {
            counters.push(1)
        } else if counters.len() > 0 {
            counters.drop_last()
        } else {
            counters
        },
        PlainNode::Item(_, _) => if !entering && counters.len() > 0 && counters.last() < usize::MAX {
            counters.update(counters.len() - 1, (counters.last() + 1) as usize)
        } else {
            counters
        },
        _ => counters,
    }
}

/// The restricted renderer's step for one node: what to write, and the list counters updated.
pub fn plain_step(stack: &mut ListStack, node: &PlainNode, entering: bool) -> (r: Vec<PlainOutput>)
    requires
        node matches PlainNode::Item(ListMarker::Ordered(_), _) && entering ==> old(stack).counters().len() > 0,
    ensures
        r@.map_values(|o: PlainOutput| o.model()) == plain_outputs(old(stack).counters(), *node, entering),
        final(stack).counters() == plain_counters(old(stack).counters(), *node, entering),
{
    let mut out: Vec<PlainOutput> = Vec::new();
    match node {
        PlainNode::Kept => {
            out.push(PlainOutput::Default);
        },
        PlainNode::Code(lit) => {
            if entering {
                out.push(PlainOutput::Escape(lit.clone()));
            }
        },
        PlainNode::CodeBlock(lit) => {
            if entering {
                out.push(PlainOutput::Write("\n".to_owned()));
                out.push(PlainOutput::Escape(lit.clone()));
                out.push(PlainOutput::Write("\n".to_owned()));
            }
        },
        PlainNode::Html(h) => {
            if entering {
                out.push(PlainOutput::Write(classify_inline_html(h.as_str()).markup().to_owned()));
            }
        },
        PlainNode::List => {
            out.push(PlainOutput::Write("\n".to_owned()));
            if entering {
                stack.enter_list();
            } else {
                stack.leave_list();
            }
        },
        PlainNode::Item(m, padding) => {
            if entering {
                out.push(PlainOutput::Write(stack.item_prefix(*m, *padding)));
            } else {
                out.push(PlainOutput::Write("\n".to_owned()));
                stack.finish_item();
            }
        },
        PlainNode::Other => {},
    }
    assert(out@.map_values(|o: PlainOutput| o.model()) =~= plain_outputs(old(stack).counters(), *node, entering));
    out
}

/// The counters after leaving `j` items of the innermost list.
pub open spec fn after_items(counters: Seq<usize>, item: PlainNode, j: nat) -> Seq<usize>
    decreases j,
{
    if j == 0 {
        counters
    } else {
        plain_counters(after_items(counters, item, (j - 1) as nat), item, false)
    }
}

/// Within a list just entered, after `j` items the next ordered item is numbered `j + 1`,
/// whatever numbers the source used, and the enclosing lists' counters are untouched.
pub proof fn lemma_items_numbered_from_one(counters: Seq<usize>, item: PlainNode, j: nat, d: Delimiter, padding: nat)
    requires
        item is Item,
        j < usize::MAX,
    ensures
        ({
            let c = after_items(plain_counters(counters, PlainNode::List, true), item, j);
            &&& c.len() == counters.len() + 1
            &&& c.subrange(0, counters.len() as int) == counters
            &&& c.last() == j + 1
            &&& item_prefix_text(c, ListMarker::Ordered(d), padding).subrange(2 * c.len() as int, (2 * c.len() + decimal((j + 1) as nat).len()) as int)
                == decimal((j + 1) as nat)
        }),
    decreases j,
{
    let c0 = plain_counters(counters, PlainNode::List, true);
    let c = after_items(c0, item, j);
    if j > 0 {
        lemma_items_numbered_from_one(counters, item, (j - 1) as nat, d, padding);
        let p = after_items(c0, item, (j - 1) as nat);
        assert(c == p.update(p.len() - 1, (p.last() + 1) as usize));
        assert(c.subrange(0, counters.len() as int) =~= p.subrange(0, counters.len() as int));
    } else {
        assert(c.subrange(0, counters.len() as int) =~= counters);
    }
    let t = item_prefix_text(c, ListMarker::Ordered(d), padding);
    let m = marker_text(c, ListMarker::Ordered(d));
    assert(m == decimal((j + 1) as nat).push(delimiter_char(d)));
    assert(t.subrange(2 * c.len() as int, (2 * c.len() + decimal((j + 1) as nat).len()) as int) =~= decimal((j + 1) as nat));
}

} // verus!

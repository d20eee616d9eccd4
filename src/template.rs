//! URL templates: `{n}` markers replaced by captured groups.
use vstd::prelude::*;
use crate::text::{chars_of, string_of};

verus! {

/// Leftmost, non-overlapping replacement of every occurrence of `pat` in `s` by `rep`.
pub open spec fn replace_all(s: Seq<char>, pat: Seq<char>, rep: Seq<char>) -> Seq<char>
    decreases s.len(),
{
    if pat.len() == 0 || s.len() < pat.len() {
        s
    } else if s.subrange(0, pat.len() as int) == pat {
        rep + replace_all(s.subrange(pat.len() as int, s.len() as int), pat, rep)
    } else {
        seq![s[0]] + replace_all(s.subrange(1, s.len() as int), pat, rep)
    }
}

pub open spec fn digit(d: nat) -> char {
    if d == 0 { '0' } else if d == 1 { '1' } else if d == 2 { '2' } else if d == 3 { '3' }
    else if d == 4 { '4' } else if d == 5 { '5' } else if d == 6 { '6' } else if d == 7 { '7' }
    else if d == 8 { '8' } else { '9' }
}

/// Decimal notation of `n`, without leading zeros.
pub open spec fn decimal(n: nat) -> Seq<char>
    decreases n,
{
    if n < 10 {
        seq![digit(n)]
    } else {
        decimal(n / 10).push(digit(n % 10))
    }
}

/// The marker `{n}` that stands for group `n` in a template.
pub open spec fn marker(n: nat) -> Seq<char> {
    seq!['{'] + decimal(n) + seq!['}']
}

/// `m` occurs in `s` at position `i`.
pub open spec fn marker_at(s: Seq<char>, i: int, m: Seq<char>) -> bool {
    0 <= i && i + m.len() <= s.len() && s.subrange(i, i + m.len()) == m
}

/// The lowest index below `k` of a present group whose marker starts at position `i` of `s`.
/// (Two markers never start at the same place, so at most one index qualifies.)
pub open spec fn find_marker(s: Seq<char>, groups: Seq<Option<Seq<char>>>, i: int, k: nat) -> Option<nat>
    decreases k,
{
    if k == 0 {
        None
    } else {
        match find_marker(s, groups, i, (k - 1) as nat) {
            Some(n) => Some(n),
            None => if groups[k - 1] is Some && marker_at(s, i, marker((k - 1) as nat)) {
                Some((k - 1) as nat)
            } else {
                None
            },
        }
    }
}

/// One left-to-right pass over the template from position `i`: a marker `{n}` of a present
/// group `n` is replaced by the group's text, which is not scanned again; everything else is
/// copied.
pub open spec fn scan(t: Seq<char>, groups: Seq<Option<Seq<char>>>, i: int) -> Seq<char>
    decreases t.len() - i,
{
    if i < 0 || i >= t.len() {
        Seq::empty()
    } else {
        let f = find_marker(t, groups, i, groups.len());
        if f is Some && f->0 < groups.len() && groups[f->0 as int] is Some && marker_at(t, i, marker(f->0)) && marker(f->0).len() > 0 {
            groups[f->0 as int]->0 + scan(t, groups, i + marker(f->0).len())
        } else {
            seq![t[i]] + scan(t, groups, i + 1)
        }
    }
}

/// The template with the marker of every present group replaced by the group's text.
pub open spec fn substituted(t: Seq<char>, groups: Seq<Option<Seq<char>>>) -> Seq<char> {
    scan(t, groups, 0)
}

pub open spec fn opt_view(g: Option<String>) -> Option<Seq<char>> {
    match g {
        Some(s) => Some(s@),
        None => None,
    }
}

pub open spec fn groups_view(groups: Seq<Option<String>>) -> Seq<Option<Seq<char>>> {
    groups.map_values(|g: Option<String>| opt_view(g))
}

fn digit_char(d: usize) -> (r: char)
    requires
        d < 10,
    ensures
        r == digit(d as nat),
{
    if d == 0 { '0' } else if d == 1 { '1' } else if d == 2 { '2' } else if d == 3 { '3' }
    else if d == 4 { '4' } else if d == 5 { '5' } else if d == 6 { '6' } else if d == 7 { '7' }
    else if d == 8 { '8' } else { '9' }
}

/// The decimal digits of `n`.
pub fn decimal_chars(n: usize) -> (r: Vec<char>)
    ensures
        r@ == decimal(n as nat),
    decreases n,
{
    if n < 10 {
        let mut r: Vec<char> = Vec::new();
        r.push(digit_char(n));
        r
    } else {
        let mut r = decimal_chars(n / 10);
        r.push(digit_char(n % 10));
        r
    }
}

fn marker_chars(n: usize) -> (r: Vec<char>)
    ensures
        r@ == marker(n as nat),
{
    let mut r: Vec<char> = Vec::new();
    r.push('{');
    let mut d = decimal_chars(n);
    r.append(&mut d);
    r.push('}');
    assert(r@ =~= marker(n as nat));
    r
}

/// Whether `pat` occurs in `s` at position `i`.
pub(crate) fn occurs_at(s: &Vec<char>, i: usize, pat: &Vec<char>) -> (r: bool)
    requires
        i + pat@.len() <= s@.len(),
    ensures
        r == (s@.subrange(i as int, i + pat@.len()) == pat@),
{
    let n = s.len();
    let mut j: usize = 0;
    while j < pat.len()
        invariant
            n == s@.len(),
            j <= pat@.len(),
            i + pat@.len() <= s@.len(),
            forall|k: int| 0 <= k < j ==> s@[i + k] == pat@[k],
        decreases pat@.len() - j,
    {
        assert(i + j < s@.len());
        if s[i + j] != pat[j] {
            assert(s@.subrange(i as int, i + pat@.len())[j as int] != pat@[j as int]);
            return false;
        }
        j += 1;
    }
    assert(s@.subrange(i as int, i + pat@.len()) =~= pat@);
    true
}

proof fn lemma_find_marker_sound(s: Seq<char>, groups: Seq<Option<Seq<char>>>, i: int, k: nat)
    requires
        k <= groups.len(),
    ensures
        find_marker(s, groups, i, k) matches Some(n) ==> n < k && groups[n as int] is Some && marker_at(s, i, marker(n)),
    decreases k,
{
    if k > 0 {
        lemma_find_marker_sound(s, groups, i, (k - 1) as nat);
    }
}

/// Substitutes `{0}`, `{1}`, ... in `url` by the groups that are present, in one pass from left
/// to right; markers of absent groups stay as they are, and inserted text is not scanned again.
pub fn substitute_url(url: &str, groups: &Vec<Option<String>>) -> (r: String)
    ensures
        r@ == substituted(url@, groups_view(groups@)),
{
    let ghost gv = groups_view(groups@);
    let t = chars_of(url);
    let n = t.len();
    let mut out: Vec<char> = Vec::new();
    let mut i: usize = 0;
    assert(out@ + scan(t@, gv, 0) =~= scan(t@, gv, 0));
    while i < n
        invariant
            n == t@.len(),
            t@ == url@,
            gv == groups_view(groups@),
            gv.len() == groups@.len(),
            i <= n,
            out@ + scan(t@, gv, i as int) == scan(t@, gv, 0),
        decreases n - i,
    {
        let mut found: Option<usize> = None;
        let mut k: usize = 0;
        while k < groups.len()
            invariant
                k <= groups@.len(),
                gv == groups_view(groups@),
                gv.len() == groups@.len(),
                n == t@.len(),
                i < n,
                match found {
                    Some(f) => find_marker(t@, gv, i as int, k as nat) == Some(f as nat),
                    None => find_marker(t@, gv, i as int, k as nat) is None,
                },
            decreases groups@.len() - k,
        {
            if found.is_none() {
                match &groups[k] {
                    Some(_) => {
                        let m = marker_chars(k);
                        if m.len() <= n - i && occurs_at(&t, i, &m) {
                            found = Some(k);
                        } else {
                            assert(!marker_at(t@, i as int, marker(k as nat)));
                        }
                    },
                    None => {},
                }
            }
            k += 1;
        }
        proof {
            lemma_find_marker_sound(t@, gv, i as int, gv.len());
        }
        let ghost before = out@;
        match found {
            Some(f) => {
                let m = marker_chars(f);
                match &groups[f] {
                    Some(g) => {
                        let mut gc = chars_of(g.as_str());
                        out.append(&mut gc);
                    },
                    None => {},
                }
                assert(out@ + scan(t@, gv, i + m@.len()) =~= before + scan(t@, gv, i as int));
                i = i + m.len();
            },
            None => {
                out.push(t[i]);
                assert(out@ + scan(t@, gv, i + 1) =~= before + scan(t@, gv, i as int));
                i = i + 1;
            },
        }
    }
    assert(out@ + Seq::<char>::empty() =~= out@);
    string_of(&out)
}

/// With only the whole match present, substitution replaces every `{0}` of the template,
/// leftmost first, by that match.
pub proof fn lemma_whole_match_only(t: Seq<char>, m: Seq<char>, i: int)
    requires
        0 <= i <= t.len(),
    ensures
        scan(t, seq![Some(m)], i) == replace_all(t.subrange(i, t.len() as int), marker(0), m),
    decreases t.len() - i,
{
    let g = seq![Some(m)];
    let pat = marker(0);
    let rest = t.subrange(i, t.len() as int);
    assert(decimal(0) == seq!['0']);
    assert(pat =~= seq!['{', '0', '}']);
    assert(find_marker(t, g, i, 0) is None);
    if i == t.len() {
        assert(rest.len() == 0);
    } else if marker_at(t, i, pat) {
        assert(find_marker(t, g, i, 1) == Some(0nat));
        lemma_whole_match_only(t, m, i + 3);
        assert(rest.subrange(0, 3) =~= t.subrange(i, i + 3));
        assert(rest.subrange(3, rest.len() as int) =~= t.subrange(i + 3, t.len() as int));
    } else {
        assert(find_marker(t, g, i, 1) is None);
        lemma_whole_match_only(t, m, i + 1);
        assert(rest.subrange(1, rest.len() as int) =~= t.subrange(i + 1, t.len() as int));
        if rest.len() < 3 {
            assert(rest =~= seq![t[i]] + t.subrange(i + 1, t.len() as int));
        } else {
            assert(rest.subrange(0, 3) =~= t.subrange(i, i + 3));
        }
    }
}

} // verus!

use indico_comrak::{
    autolink_plan, find_matches, has_link_ancestor, link_open_tag, plan_pieces, plan_rewrites,
    substitute_url, AnchorTracker, LinkRule, MatchRecord, NodeEvent, NodeKind, Piece,
};

fn link(url: &str, title: &str) -> Piece {
    Piece::Link { url: url.to_string(), title: title.to_string() }
}

fn text(t: &str) -> Piece {
    Piece::Text(t.to_string())
}

fn same(a: &[Piece], b: &[Piece]) -> bool {
    a.len() == b.len()
        && a.iter().zip(b.iter()).all(|(x, y)| match (x, y) {
            (Piece::Text(p), Piece::Text(q)) => p == q,
            (Piece::Link { url: u1, title: t1 }, Piece::Link { url: u2, title: t2 }) => {
                u1 == u2 && t1 == t2
            }
            _ => false,
        })
}

fn pieces_for(rules: &Vec<LinkRule>, input: &str) -> Vec<Piece> {
    let recs = find_matches(rules, input);
    plan_pieces(input, &recs)
}

#[test]
fn substitute_groups_in_order() {
    let groups = vec![
        Some("FOO".to_string()),
        Some("F".to_string()),
        Some("O".to_string()),
        Some("O".to_string()),
    ];
    assert_eq!(substitute_url("{1}{2}{3}BAR", &groups), "FOOBAR");
    assert_eq!(substitute_url("{0}BAR", &groups), "FOOBAR");
    assert_eq!(substitute_url("{0}/{0}", &groups), "FOO/FOO");
}

#[test]
fn substitute_leaves_absent_groups() {
    let groups = vec![Some("x".to_string()), None];
    assert_eq!(substitute_url("a{1}b{0}{2}", &groups), "a{1}bx{2}");
    assert_eq!(substitute_url("", &groups), "");
}

#[test]
fn substitute_does_not_rescan_inserted_text() {
    let groups = vec![Some("{1}".to_string()), Some("z".to_string())];
    assert_eq!(substitute_url("{0}", &groups), "{1}");
    assert_eq!(substitute_url("{0}{1}", &groups), "{1}z");
    let own = vec![Some("{0}".to_string())];
    assert_eq!(substitute_url("{0}", &own), "{0}");
    assert_eq!(substitute_url("{{0}}", &own), "{{0}}");
}

#[test]
fn substitute_two_digit_marker() {
    let mut groups: Vec<Option<String>> = Vec::new();
    for i in 0..12 {
        groups.push(Some(format!("g{}", i)));
    }
    assert_eq!(substitute_url("{11}-{1}", &groups), "g11-g1");
}

#[test]
fn rule_with_three_groups_links_whole_match() {
    let rules = vec![LinkRule::new(r"(F)(O)(O)", "{1}{2}{3}BAR").ok().unwrap()];
    let pieces = pieces_for(&rules, "FOO");
    assert!(same(&pieces, &[text(""), link("FOOBAR", "FOO")]));
}

#[test]
fn rules_apply_in_order() {
    let rules = vec![
        LinkRule::new(r"TKT(\d{7})", "https://tkt.sys/{1}").ok().unwrap(),
        LinkRule::new(r"gh:(\d+)", "https://github.com/indico/indico/issues/{1}").ok().unwrap(),
    ];
    let pieces = pieces_for(&rules, "TKT1234567: solved, gh:123");
    assert!(same(
        &pieces,
        &[
            text(""),
            link("https://tkt.sys/1234567", "TKT1234567"),
            text(": solved, "),
            link("https://github.com/indico/indico/issues/123", "gh:123"),
        ]
    ));
}

#[test]
fn rule_without_groups_links_every_occurrence() {
    let rules = vec![LinkRule::new(r"FOO", "{0}BAR").ok().unwrap()];
    let pieces = pieces_for(&rules, "FOO is FOO!");
    assert!(same(
        &pieces,
        &[
            text(""),
            link("FOOBAR", "FOO"),
            text(" is "),
            link("FOOBAR", "FOO"),
            text("!"),
        ]
    ));
}

#[test]
fn two_rules_on_one_text() {
    let rules = vec![
        LinkRule::new(r"(F)(O)(O)", "{1}{2}{3}BAR").ok().unwrap(),
        LinkRule::new(r"BAR", "FOO{0}").ok().unwrap(),
    ];
    let pieces = pieces_for(&rules, "FOO is FOO and BAR is BAR");
    assert!(same(
        &pieces,
        &[
            text(""),
            link("FOOBAR", "FOO"),
            text(" is "),
            link("FOOBAR", "FOO"),
            text(" and "),
            link("FOOBAR", "BAR"),
            text(" is "),
            link("FOOBAR", "BAR"),
        ]
    ));
}

#[test]
fn out_of_order_rules_keep_collection_order() {
    let rules = vec![
        LinkRule::new(r"BAR", "b").ok().unwrap(),
        LinkRule::new(r"FOO", "f").ok().unwrap(),
    ];
    let pieces = pieces_for(&rules, "FOO BAR");
    assert!(same(&pieces, &[text("FOO "), link("b", "BAR"), text(""), link("f", "FOO"), text(" BAR")]));
}

#[test]
fn span_covers_participating_groups() {
    let rules = vec![LinkRule::new(r"a(b)?c", "{1}").ok().unwrap()];
    let recs = find_matches(&rules, "xac yabc");
    assert_eq!(recs.len(), 2);
    assert_eq!((recs[0].start, recs[0].end), (1, 3));
    assert!(recs[0].groups[1].is_none());
    assert_eq!((recs[1].start, recs[1].end), (5, 8));
    let pieces = plan_pieces("xac yabc", &recs);
    assert!(same(&pieces, &[text("x"), link("{1}", "ac"), text(" y"), link("b", "abc")]));
}

#[test]
fn multibyte_text_is_split_on_characters() {
    let rules = vec![LinkRule::new(r"gh:(\d+)", "u/{1}").ok().unwrap()];
    let pieces = pieces_for(&rules, "é gh:7 ü");
    assert!(same(&pieces, &[text("é "), link("u/7", "gh:7"), text(" ü")]));
}

#[test]
fn no_matches_no_pieces_but_text() {
    let recs: Vec<MatchRecord> = Vec::new();
    assert!(same(&plan_pieces("plain", &recs), &[text("plain")]));
    assert!(same(&plan_pieces("", &recs), &[]));
}

#[test]
fn invalid_pattern_is_refused() {
    let r = LinkRule::new(r"(unclosed", "{0}");
    assert!(r.is_err());
    let msg = match r {
        Err(e) => e.message(),
        Ok(_) => String::new(),
    };
    assert!(!msg.is_empty());
    assert!(LinkRule::new(r"ok", "{0}").is_ok());
}

fn ev(depth: usize, kind: NodeKind) -> NodeEvent {
    NodeEvent { depth, kind }
}

#[test]
fn text_inside_link_is_not_rewritten() {
    let rules = vec![LinkRule::new(r"gh:(\d+)", "https://github.com/indico/indico/issues/{1}").ok().unwrap()];
    // paragraph > [link > text "gh:124"], text " and gh:5"
    let events = vec![
        ev(1, NodeKind::Other),
        ev(2, NodeKind::Link),
        ev(3, NodeKind::Text("gh:124".to_string())),
        ev(2, NodeKind::Text(" and gh:5".to_string())),
    ];
    assert!(has_link_ancestor(&events, 2));
    assert!(!has_link_ancestor(&events, 3));
    let rw = autolink_plan(&events, &rules);
    assert_eq!(rw.len(), 1);
    assert_eq!(rw[0].index, 3);
    assert!(same(
        &rw[0].pieces,
        &[text(" and "), link("https://github.com/indico/indico/issues/5", "gh:5")]
    ));
}

#[test]
fn text_inside_raw_anchor_is_not_rewritten() {
    let rules = vec![LinkRule::new(r"FOO", "https://example/{0}").ok().unwrap()];
    let events = vec![
        ev(1, NodeKind::Other),
        ev(2, NodeKind::Html("<a href=\"http://something.com\">".to_string())),
        ev(2, NodeKind::Text("FOO".to_string())),
        ev(2, NodeKind::Html("</a>".to_string())),
        ev(2, NodeKind::Text("FOO".to_string())),
    ];
    let rw = autolink_plan(&events, &rules);
    assert_eq!(rw.len(), 1);
    assert_eq!(rw[0].index, 4);
}

#[test]
fn no_rule_matches_no_rewrites() {
    let rules = vec![LinkRule::new(r"TKT(\d{7})", "https://tkt.sys/{1}").ok().unwrap()];
    let events = vec![ev(1, NodeKind::Other), ev(2, NodeKind::Text("nothing here".to_string()))];
    assert_eq!(autolink_plan(&events, &rules).len(), 0);
    let none: Vec<Vec<MatchRecord>> = vec![Vec::new(), Vec::new()];
    assert_eq!(plan_rewrites(&events, &none).len(), 0);
}

#[test]
fn anchor_tracker_counts_and_floors() {
    let mut t = AnchorTracker::new();
    assert!(!t.inside());
    t.observe_html("</a>");
    assert!(!t.inside());
    t.observe_html("<a href=\"x\">");
    t.observe_html("<a name=\"y\">");
    assert!(t.inside());
    t.observe_html("</a>");
    assert!(t.inside());
    t.observe_html("</a>");
    assert!(!t.inside());
    t.observe_html("<abbr>");
    assert!(!t.inside());
}

#[test]
fn new_context_link_tag() {
    assert_eq!(
        link_open_tag("https://tkt.sys/1", "TKT1"),
        "<a href=\"https://tkt.sys/1\" title=\"TKT1\" target=\"_blank\">"
    );
    assert_eq!(
        link_open_tag("https://example.com", ""),
        "<a href=\"https://example.com\" target=\"_blank\">"
    );
}

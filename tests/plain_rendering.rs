use indico_comrak::{
    classify_inline_html, classify_lowered, plain_step, Delimiter, InlineHtml, ListMarker, ListStack, PlainNode,
    PlainOutput,
};

#[test]
fn ordered_items_number_from_one() {
    let mut s = ListStack::new();
    s.enter_list();
    let mut got = Vec::new();
    for _ in 0..3 {
        got.push(s.item_prefix(ListMarker::Ordered(Delimiter::Period), 3));
        s.finish_item();
    }
    s.leave_list();
    assert_eq!(got, vec!["  1. ", "  2. ", "  3. "]);
    assert_eq!(s.depth(), 0);
}

#[test]
fn nested_list_indents_and_restarts() {
    let mut s = ListStack::new();
    s.enter_list();
    assert_eq!(s.item_prefix(ListMarker::Bullet('*'), 2), "  * ");
    s.finish_item();
    s.enter_list();
    assert_eq!(s.item_prefix(ListMarker::Bullet('-'), 2), "    - ");
    assert_eq!(s.item_prefix(ListMarker::Ordered(Delimiter::Paren), 4), "    1)  ");
    s.finish_item();
    s.leave_list();
    assert_eq!(s.item_prefix(ListMarker::Ordered(Delimiter::Period), 3), "  2. ");
}

#[test]
fn marker_wider_than_padding() {
    let mut s = ListStack::new();
    s.enter_list();
    for _ in 0..9 {
        s.finish_item();
    }
    assert_eq!(s.item_prefix(ListMarker::Ordered(Delimiter::Period), 2), "  10.");
}

#[test]
fn inline_html_line_breaks() {
    assert_eq!(classify_lowered("<br/>"), InlineHtml::LineBreak);
    assert_eq!(classify_lowered("<br>"), InlineHtml::LineBreak);
    assert_eq!(classify_lowered("< br \t/>"), InlineHtml::LineBreak);
    assert_eq!(classify_lowered("x<br />y"), InlineHtml::LineBreak);
    assert_eq!(classify_lowered("<bra>"), InlineHtml::Nothing);
}

#[test]
fn inline_html_paragraphs() {
    assert_eq!(classify_lowered("<p>"), InlineHtml::ParagraphOpen);
    assert_eq!(classify_lowered("<p class=\"x\">"), InlineHtml::ParagraphOpen);
    assert_eq!(classify_lowered("</p>"), InlineHtml::ParagraphClose);
    assert_eq!(classify_lowered("<pre>"), InlineHtml::Nothing);
    assert_eq!(classify_lowered("<p "), InlineHtml::Nothing);
    assert_eq!(classify_lowered("<div>"), InlineHtml::Nothing);
    assert_eq!(classify_lowered(""), InlineHtml::Nothing);
}

#[test]
fn inline_html_is_lower_cased_first() {
    assert_eq!(classify_inline_html("<BR/>"), InlineHtml::LineBreak);
    assert_eq!(classify_inline_html("</P>"), InlineHtml::ParagraphClose);
    assert_eq!(classify_lowered("</P>"), InlineHtml::Nothing);
    assert_eq!(classify_inline_html("<P>").markup(), "<p>");
    assert_eq!(InlineHtml::LineBreak.markup(), "<br />");
    assert_eq!(InlineHtml::Nothing.markup(), "");
}

fn texts(v: Vec<PlainOutput>) -> Vec<String> {
    v.into_iter()
        .map(|o| match o {
            PlainOutput::Default => "<default>".to_string(),
            PlainOutput::Write(s) => format!("w:{}", s),
            PlainOutput::Escape(s) => format!("e:{}", s),
        })
        .collect()
}

#[test]
fn plain_step_follows_node_kinds() {
    let mut s = ListStack::new();
    assert_eq!(texts(plain_step(&mut s, &PlainNode::Kept, true)), vec!["<default>"]);
    assert_eq!(texts(plain_step(&mut s, &PlainNode::Code("a<b".to_string()), true)), vec!["e:a<b"]);
    assert!(texts(plain_step(&mut s, &PlainNode::Code("x".to_string()), false)).is_empty());
    assert_eq!(
        texts(plain_step(&mut s, &PlainNode::CodeBlock("x".to_string()), true)),
        vec!["w:\n", "e:x", "w:\n"]
    );
    assert_eq!(texts(plain_step(&mut s, &PlainNode::Html("<BR>".to_string()), true)), vec!["w:<br />"]);
    assert!(texts(plain_step(&mut s, &PlainNode::Other, true)).is_empty());
    assert_eq!(texts(plain_step(&mut s, &PlainNode::List, true)), vec!["w:\n"]);
    let item = PlainNode::Item(ListMarker::Ordered(Delimiter::Period), 3);
    assert_eq!(texts(plain_step(&mut s, &item, true)), vec!["w:  1. "]);
    assert_eq!(texts(plain_step(&mut s, &item, false)), vec!["w:\n"]);
    assert_eq!(texts(plain_step(&mut s, &item, true)), vec!["w:  2. "]);
    assert_eq!(texts(plain_step(&mut s, &PlainNode::List, false)), vec!["w:\n"]);
    assert_eq!(s.depth(), 0);
}

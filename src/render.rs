//! Markup that the renderers write for the nodes they treat themselves.
use vstd::prelude::*;
use crate::text::{chars_of, string_of};

verus! {

/// The opening tag of a link that opens in a new browsing context; the title attribute is
/// left out when the title is empty.
pub open spec fn link_open_tag_text(url: Seq<char>, title: Seq<char>) -> Seq<char> {
    "<a href=\""@ + url + "\" "@ + (if title.len() == 0 {
        Seq::empty()
    } else {
        "title=\""@ + title + "\" "@
    }) + "target=\"_blank\">"@
}

fn append_str(v: &mut Vec<char>, s: &str)
    ensures
        final(v)@ == old(v)@ + s@,
{
    let mut c = chars_of(s);
    v.append(&mut c);
}

/// The opening tag of a link to `url` with title `title`, marked to open in a new context.
pub fn link_open_tag(url: &str, title: &str) -> (r: String)
    ensures
        r@ == link_open_tag_text(url@, title@),
{
    let mut v: Vec<char> = Vec::new();
    append_str(&mut v, "<a href=\"");
    append_str(&mut v, url);
    append_str(&mut v, "\" ");
    let ghost mid = v@;
    if !title.is_empty() {
        append_str(&mut v, "title=\"");
        append_str(&mut v, title);
        append_str(&mut v, "\" ");
        assert(v@ =~= mid + ("title=\""@ + title@ + "\" "@));
    } else {
        assert(v@ =~= mid + Seq::<char>::empty());
    }
    append_str(&mut v, "target=\"_blank\">");
    string_of(&v)
}

} // verus!

//! Rendering the final stack as an HTML document.
use vstd::prelude::*;

use crate::lexer::string_views;
use crate::machine::{join, Stack, StackView};
use crate::text::{decimal_string, int_decimal, push_char};
use crate::value::{HTMLTag, TagView, Text, TextView, Value, ValueView};

verus! {

/// The style attribute for a font size, with its leading space.
pub open spec fn style(font_size: Option<i32>) -> Seq<char> {
    match font_size {
        Some(size) => " style=\"font-size: "@ + int_decimal(size as int) + "px;\""@,
        None => seq![],
    }
}

/// The element that a text fragment renders to; a list item stands alone
/// here and is grouped by `fragments`.
pub open spec fn fragment(t: TextView) -> Seq<char> {
    match t.tag {
        TagView::Paragraph => "<p"@ + style(t.font_size) + ">"@ + t.content + "</p>"@,
        TagView::Heading(l) => "<h"@ + int_decimal(l as int) + style(t.font_size) + ">"@ + t.content + "</h"@
            + int_decimal(l as int) + ">"@,
        TagView::Link(url) => "<a href=\""@ + url + "\""@ + style(t.font_size) + ">"@ + t.content + "</a>"@,
        TagView::BlockQuote => "<blockquote"@ + style(t.font_size) + ">"@ + t.content + "</blockquote>"@,
        TagView::Image(url) => "<img src=\""@ + url + "\" alt=\""@ + t.content + "\">"@,
        TagView::List => "<li"@ + style(t.font_size) + ">"@ + t.content + "</li>"@,
    }
}

pub open spec fn newline() -> Seq<char> {
    seq!['\n']
}

/// One group of list items.
pub open spec fn list_block(items: Seq<Seq<char>>) -> Seq<char> {
    "<ul>"@ + join(items, newline()) + "</ul>"@
}

/// The rendered fragments with the pending list group, if any, closed.
pub open spec fn flush(out: Seq<Seq<char>>, items: Seq<Seq<char>>) -> Seq<Seq<char>> {
    if items.len() > 0 {
        out.push(list_block(items))
    } else {
        out
    }
}

/// Rendering texts in order: the fragments so far and the pending list items.
pub open spec fn render_from(st: (Seq<Seq<char>>, Seq<Seq<char>>), ts: Seq<TextView>) -> (
    Seq<Seq<char>>,
    Seq<Seq<char>>,
)
    decreases ts.len(),
{
    if ts.len() == 0 {
        st
    } else {
        let p = render_from(st, ts.drop_last());
        let t = ts.last();
        if t.tag is List {
            (p.0, p.1.push(fragment(t)))
        } else {
            (flush(p.0, p.1).push(fragment(t)), seq![])
        }
    }
}

/// The document's elements, in order, with each run of list items in one group.
pub open spec fn fragments(ts: Seq<TextView>) -> Seq<Seq<char>> {
    let e = render_from((seq![], seq![]), ts);
    flush(e.0, e.1)
}

/// The texts of a stack that holds nothing else.
pub open spec fn texts_of(data: Seq<ValueView>) -> Option<Seq<TextView>>
    decreases data.len(),
{
    if data.len() == 0 {
        Some(seq![])
    } else {
        match (texts_of(data.drop_last()), data.last()) {
            (Some(ts), ValueView::Text(t)) => Some(ts.push(t)),
            _ => None,
        }
    }
}

/// The `<title>` element of a page.
pub open spec fn title_element(title: Seq<char>) -> Seq<char> {
    "<title>"@ + title + "</title>"@
}

/// The stylesheet link of a page.
pub open spec fn stylesheet_link(theme: Seq<char>) -> Seq<char> {
    "<link rel=\"stylesheet\" href=\"theme/"@ + theme + ".css\">"@
}

/// The whole document around a title, a theme and a body.
pub open spec fn skeleton(title: Seq<char>, theme: Seq<char>, body: Seq<char>) -> Seq<char> {
    "\n        <html>\n            <head>\n                <meta charset=\"UTF-8\">\n                "@
        + title_element(title) + "\n                "@ + stylesheet_link(theme)
        + "\n            </head>\n            <body>\n                "@ + body
        + "\n            </body>\n        </html>\n        "@
}

pub open spec fn or_default(o: Option<Seq<char>>, d: Seq<char>) -> Seq<char> {
    match o {
        Some(s) => s,
        None => d,
    }
}

/// The document that a final state renders to, if it holds texts only.
pub open spec fn document(st: StackView) -> Option<Seq<char>> {
    match texts_of(st.data) {
        Some(ts) => Some(
            skeleton(
                or_default(st.title, "Untitled"@),
                or_default(st.theme, "none"@),
                join(fragments(ts), newline()),
            ),
        ),
        None => None,
    }
}

fn style_attr(font_size: Option<i32>) -> (r: String)
    ensures
        r@ == style(font_size),
{
    let mut r = String::new();
    if let Some(size) = font_size {
        r.append(" style=\"font-size: ");
        r.append(decimal_string(size).as_str());
        r.append("px;\"");
    }
    r
}

/// Renders one text fragment.
fn render_fragment(t: &Text) -> (r: String)
    ensures
        r@ == fragment(t@),
{
    let style = style_attr(t.font_size);
    let mut r = String::new();
    match &t.tag {
        HTMLTag::Paragraph => {
            r.append("<p");
            r.append(style.as_str());
            r.append(">");
            r.append(t.content.as_str());
            r.append("</p>");
        },
        HTMLTag::Heading(level) => {
            let l = decimal_string(*level);
            r.append("<h");
            r.append(l.as_str());
            r.append(style.as_str());
            r.append(">");
            r.append(t.content.as_str());
            r.append("</h");
            r.append(l.as_str());
            r.append(">");
        },
        HTMLTag::Link(url) => {
            r.append("<a href=\"");
            r.append(url.as_str());
            r.append("\"");
            r.append(style.as_str());
            r.append(">");
            r.append(t.content.as_str());
            r.append("</a>");
        },
        HTMLTag::BlockQuote => {
            r.append("<blockquote");
            r.append(style.as_str());
            r.append(">");
            r.append(t.content.as_str());
            r.append("</blockquote>");
        },
        HTMLTag::Image(url) => {
            r.append("<img src=\"");
            r.append(url.as_str());
            r.append("\" alt=\"");
            r.append(t.content.as_str());
            r.append("\">");
        },
        HTMLTag::List => {
            r.append("<li");
            r.append(style.as_str());
            r.append(">");
            r.append(t.content.as_str());
            r.append("</li>");
        },
    }
    proof {
        assert(r@ =~= fragment(t@));
    }
    r
}

/// The lines joined with newlines.
fn join_lines(parts: &Vec<String>) -> (r: String)
    ensures
        r@ == join(string_views(parts@), newline()),
{
    let ghost views = string_views(parts@);
    let mut r = String::new();
    let mut i: usize = 0;
    while i < parts.len()
        invariant
            i <= parts@.len(),
            views == string_views(parts@),
            r@ == join(views.take(i as int), newline()),
        decreases parts@.len() - i,
    {
        let ghost before = r@;
        if i > 0 {
            push_char(&mut r, '\n');
        }
        r.append(parts[i].as_str());
        proof {
            let next = views.take(i + 1);
            assert(next.drop_last() =~= views.take(i as int));
            if i == 0 {
                assert(r@ =~= next[0]);
            } else {
                assert(r@ =~= before + newline() + next.last());
            }
        }
        i = i + 1;
    }
    proof {
        assert(views.take(i as int) =~= views);
    }
    r
}

proof fn lemma_texts_prefix_fails(data: Seq<ValueView>, k: int)
    requires
        0 <= k <= data.len(),
        texts_of(data.take(k)) is None,
    ensures
        texts_of(data) is None,
    decreases data.len() - k,
{
    if k < data.len() {
        assert(data.take(k + 1).drop_last() =~= data.take(k));
        lemma_texts_prefix_fails(data, k + 1);
    } else {
        assert(data.take(k) =~= data);
    }
}

fn push_line(v: &mut Vec<String>, s: String)
    ensures
        string_views(final(v)@) == string_views(old(v)@).push(s@),
{
    v.push(s);
    proof {
        assert(string_views(v@) =~= string_views(old(v)@).push(s@));
    }
}

/// Renders the final stack as a document; `None` where it holds anything
/// but texts.
pub fn generate(stack: Stack) -> (r: Option<String>)
    ensures
        match r {
            Some(h) => document(stack@) == Some(h@),
            None => document(stack@) is None,
        },
{
    let ghost data = stack@.data;
    let ghost mut ts: Seq<TextView> = seq![];
    let mut output: Vec<String> = Vec::new();
    let mut list: Vec<String> = Vec::new();
    let mut i: usize = 0;
    proof {
        assert(data.take(0) =~= seq![]);
        assert(string_views(output@) =~= seq![]);
        assert(string_views(list@) =~= seq![]);
    }
    while i < stack.data.len()
        invariant
            i <= stack.data@.len(),
            data == stack@.data,
            texts_of(data.take(i as int)) == Some(ts),
            render_from((seq![], seq![]), ts) == (string_views(output@), string_views(list@)),
        decreases stack.data@.len() - i,
    {
        proof {
            assert(data.take(i + 1).drop_last() =~= data.take(i as int));
        }
        let text = match &stack.data[i] {
            Value::Text(t) => t,
            _ => {
                proof {
                    lemma_texts_prefix_fails(data, i + 1);
                }
                return None;
            },
        };
        let html = render_fragment(text);
        let ghost next = ts.push(text@);
        proof {
            assert(next.drop_last() =~= ts);
        }
        match text.tag {
            HTMLTag::List => {
                push_line(&mut list, html);
            },
            _ => {
                if list.len() > 0 {
                    let block_body = join_lines(&list);
                    let mut block = String::new();
                    block.append("<ul>");
                    block.append(block_body.as_str());
                    block.append("</ul>");
                    proof {
                        assert(block@ =~= list_block(string_views(list@)));
                    }
                    push_line(&mut output, block);
                }
                push_line(&mut output, html);
                list = Vec::new();
                proof {
                    assert(string_views(list@) =~= seq![]);
                }
            },
        }
        proof {
            ts = next;
        }
        i = i + 1;
    }
    proof {
        assert(data.take(i as int) =~= data);
    }
    if list.len() > 0 {
        let block_body = join_lines(&list);
        let mut block = String::new();
        block.append("<ul>");
        block.append(block_body.as_str());
        block.append("</ul>");
        proof {
            assert(block@ =~= list_block(string_views(list@)));
        }
        push_line(&mut output, block);
    }
    let body = join_lines(&output);
    let mut html = String::new();
    html.append("\n        <html>\n            <head>\n                <meta charset=\"UTF-8\">\n                ");
    html.append("<title>");
    match &stack.title {
        Some(t) => html.append(t.as_str()),
        None => html.append("Untitled"),
    }
    html.append("</title>");
    html.append("\n                ");
    html.append("<link rel=\"stylesheet\" href=\"theme/");
    match &stack.theme {
        Some(t) => html.append(t.as_str()),
        None => html.append("none"),
    }
    html.append(".css\">");
    html.append("\n            </head>\n            <body>\n                ");
    html.append(body.as_str());
    html.append("\n            </body>\n        </html>\n        ");
    proof {
        assert(html@ =~= document(stack@)->0);
    }
    Some(html)
}

pub open spec fn all_list(ts: Seq<TextView>) -> bool {
    forall|i: int| 0 <= i < ts.len() ==> (#[trigger] ts[i]).tag is List
}

pub open spec fn rendered(ts: Seq<TextView>) -> Seq<Seq<char>> {
    ts.map_values(|t: TextView| fragment(t))
}

proof fn lemma_render_append(
    st: (Seq<Seq<char>>, Seq<Seq<char>>),
    a: Seq<TextView>,
    b: Seq<TextView>,
)
    ensures
        render_from(st, a + b) == render_from(render_from(st, a), b),
    decreases b.len(),
{
    if b.len() == 0 {
        assert(a + b =~= a);
    } else {
        assert((a + b).drop_last() =~= a + b.drop_last());
        lemma_render_append(st, a, b.drop_last());
    }
}

proof fn lemma_render_list_run(st: (Seq<Seq<char>>, Seq<Seq<char>>), ts: Seq<TextView>)
    requires
        all_list(ts),
    ensures
        render_from(st, ts) == (st.0, st.1 + rendered(ts)),
    decreases ts.len(),
{
    if ts.len() == 0 {
        assert(st.1 + rendered(ts) =~= st.1);
    } else {
        let u = ts.drop_last();
        assert(all_list(u)) by {
            assert forall|i: int| 0 <= i < u.len() implies (#[trigger] u[i]).tag is List by {
                assert(u[i] == ts[i]);
            }
        }
        lemma_render_list_run(st, u);
        assert(ts.last() == ts[ts.len() - 1]);
        assert(st.1 + rendered(ts) =~= (st.1 + rendered(u)).push(fragment(ts.last())));
    }
}

/// A run of list items renders as exactly one group that holds all of them,
/// in order.
pub proof fn lemma_list_run_one_group(ts: Seq<TextView>)
    requires
        ts.len() > 0,
        all_list(ts),
    ensures
        fragments(ts) == seq![list_block(rendered(ts))],
{
    lemma_render_list_run((seq![], seq![]), ts);
    assert(seq![] + rendered(ts) =~= rendered(ts));
    assert(Seq::<Seq<char>>::empty().push(list_block(rendered(ts))) =~= seq![list_block(rendered(ts))]);
}

/// A text that is no list item, standing between two runs of list items,
/// splits them into two groups.
pub proof fn lemma_list_runs_split(a: Seq<TextView>, x: TextView, b: Seq<TextView>)
    requires
        a.len() > 0,
        b.len() > 0,
        all_list(a),
        all_list(b),
        !(x.tag is List),
    ensures
        fragments(a + seq![x] + b) == seq![list_block(rendered(a)), fragment(x), list_block(rendered(b))],
{
    let start: (Seq<Seq<char>>, Seq<Seq<char>>) = (seq![], seq![]);
    lemma_render_list_run(start, a);
    assert(seq![] + rendered(a) =~= rendered(a));
    lemma_render_append(start, a, seq![x]);
    let s1 = render_from(start, a);
    assert(seq![x].drop_last() =~= seq![]);
    assert(render_from(s1, seq![]) == s1);
    let s2 = render_from(s1, seq![x]);
    assert(s2 == (seq![list_block(rendered(a)), fragment(x)], Seq::<Seq<char>>::empty())) by {
        assert(Seq::<Seq<char>>::empty().push(list_block(rendered(a))).push(fragment(x)) =~= seq![
            list_block(rendered(a)),
            fragment(x),
        ]);
    }
    lemma_render_append(start, a + seq![x], b);
    lemma_render_list_run(s2, b);
    assert(Seq::<Seq<char>>::empty() + rendered(b) =~= rendered(b));
    assert(seq![list_block(rendered(a)), fragment(x)].push(list_block(rendered(b))) =~= seq![
        list_block(rendered(a)),
        fragment(x),
        list_block(rendered(b)),
    ]);
}

/// Whether a rendered element is a group of list items.
pub open spec fn is_list_block(f: Seq<char>) -> bool {
    f.len() >= 4 && f.take(4) == "<ul>"@
}

/// The number of list groups among rendered elements.
pub open spec fn group_count(frags: Seq<Seq<char>>) -> nat
    decreases frags.len(),
{
    if frags.len() == 0 {
        0
    } else {
        group_count(frags.drop_last()) + if is_list_block(frags.last()) {
            1nat
        } else {
            0nat
        }
    }
}

/// The number of maximal runs of consecutive list items among texts.
pub open spec fn run_count(ts: Seq<TextView>) -> nat
    decreases ts.len(),
{
    if ts.len() == 0 {
        0
    } else {
        run_count(ts.drop_last()) + if ts.last().tag is List && (ts.len() == 1 || !(ts[ts.len()
            - 2].tag is List)) {
            1nat
        } else {
            0nat
        }
    }
}

proof fn lemma_group_count_push(frags: Seq<Seq<char>>, f: Seq<char>)
    ensures
        group_count(frags.push(f)) == group_count(frags) + if is_list_block(f) {
            1nat
        } else {
            0nat
        },
{
    assert(frags.push(f).drop_last() =~= frags);
}

proof fn lemma_second_char(a: Seq<char>, b: Seq<char>)
    requires
        a.len() >= 2,
    ensures
        (a + b).len() >= 2,
        (a + b)[1] == a[1],
{
}

/// Only a group of list items renders as a list block.
proof fn lemma_block_shapes(t: TextView, items: Seq<Seq<char>>)
    ensures
        is_list_block(list_block(items)),
        !(t.tag is List) ==> !is_list_block(fragment(t)),
{
    reveal_strlit("<ul>");
    reveal_strlit("<p");
    reveal_strlit("<h");
    reveal_strlit("<a href=\"");
    reveal_strlit("<blockquote");
    reveal_strlit("<img src=\"");
    let b = list_block(items);
    assert(b.take(4) =~= "<ul>"@);
    let f = fragment(t);
    if !(t.tag is List) && f.len() >= 4 {
        let lead = match t.tag {
            TagView::Paragraph => "<p"@,
            TagView::Heading(_) => "<h"@,
            TagView::Link(_) => "<a href=\""@,
            TagView::BlockQuote => "<blockquote"@,
            TagView::Image(_) => "<img src=\""@,
            TagView::List => "<li"@,
        };
        assert(f =~= lead + f.skip(lead.len() as int));
        lemma_second_char(lead, f.skip(lead.len() as int));
        assert(f.take(4)[1] == f[1]);
        assert("<ul>"@[1] == 'u');
    }
}

proof fn lemma_render_counts(ts: Seq<TextView>)
    ensures
        ({
            let e = render_from((seq![], seq![]), ts);
            &&& group_count(e.0) + (if e.1.len() > 0 {
                1nat
            } else {
                0nat
            }) == run_count(ts)
            &&& (e.1.len() > 0 <==> (ts.len() > 0 && ts.last().tag is List))
        }),
    decreases ts.len(),
{
    if ts.len() > 0 {
        let u = ts.drop_last();
        let x = ts.last();
        lemma_render_counts(u);
        let p = render_from((seq![], seq![]), u);
        if u.len() > 0 {
            assert(ts[ts.len() - 2] == u.last());
        }
        if !(x.tag is List) {
            lemma_block_shapes(x, p.1);
            if p.1.len() > 0 {
                lemma_group_count_push(p.0, list_block(p.1));
            }
            lemma_group_count_push(flush(p.0, p.1), fragment(x));
        }
    }
}

/// Texts render with one list group for each maximal run of consecutive list
/// items, no more and no fewer.
pub proof fn lemma_one_group_per_run(ts: Seq<TextView>)
    ensures
        group_count(fragments(ts)) == run_count(ts),
{
    lemma_render_counts(ts);
    let e = render_from((seq![], seq![]), ts);
    if e.1.len() > 0 {
        lemma_block_shapes(ts.last(), e.1);
        lemma_group_count_push(e.0, list_block(e.1));
    }
}

proof fn lemma_render_after(out: Seq<Seq<char>>, b: Seq<TextView>)
    ensures
        ({
            let e = render_from((seq![], seq![]), b);
            render_from((out, seq![]), b) == (out + e.0, e.1)
        }),
    decreases b.len(),
{
    if b.len() == 0 {
        assert(out + Seq::<Seq<char>>::empty() =~= out);
    } else {
        lemma_render_after(out, b.drop_last());
        let e = render_from((seq![], seq![]), b.drop_last());
        if !(b.last().tag is List) {
            assert(flush(out + e.0, e.1).push(fragment(b.last())) =~= out + flush(e.0, e.1).push(
                fragment(b.last()),
            ));
        }
    }
}

/// A text that is no list item closes the pending list group: what stands
/// before it and what stands after it render on their own.
pub proof fn lemma_non_list_splits(a: Seq<TextView>, x: TextView, b: Seq<TextView>)
    requires
        !(x.tag is List),
    ensures
        fragments(a + seq![x] + b) == fragments(a) + seq![fragment(x)] + fragments(b),
{
    let start: (Seq<Seq<char>>, Seq<Seq<char>>) = (seq![], seq![]);
    lemma_render_append(start, a, seq![x]);
    let s1 = render_from(start, a);
    assert(seq![x].drop_last() =~= seq![]);
    assert(render_from(s1, seq![]) == s1);
    let head = fragments(a).push(fragment(x));
    assert(render_from(start, a + seq![x]) == (head, Seq::<Seq<char>>::empty()));
    lemma_render_append(start, a + seq![x], b);
    lemma_render_after(head, b);
    let e = render_from(start, b);
    assert(flush(head + e.0, e.1) =~= fragments(a) + seq![fragment(x)] + flush(e.0, e.1));
}

/// Whether `w` stands somewhere in `h`.
pub open spec fn contains(h: Seq<char>, w: Seq<char>) -> bool {
    exists|i: int| 0 <= i && i + w.len() <= h.len() && #[trigger] h.subrange(i, i + w.len()) == w
}

proof fn lemma_contains_middle(a: Seq<char>, w: Seq<char>, b: Seq<char>)
    ensures
        contains(a + w + b, w),
{
    assert((a + w + b).subrange(a.len() as int, (a.len() + w.len()) as int) =~= w);
}

/// The page's title is the one set by `title`, else "Untitled"; its
/// stylesheet is that of the theme set by `theme`, else of "none".
pub proof fn lemma_document_settings(st: StackView)
    requires
        texts_of(st.data) is Some,
    ensures
        document(st) is Some,
        contains(document(st)->0, title_element(or_default(st.title, "Untitled"@))),
        contains(document(st)->0, stylesheet_link(or_default(st.theme, "none"@))),
        st.title is None ==> contains(document(st)->0, title_element("Untitled"@)),
        st.theme is None ==> contains(document(st)->0, stylesheet_link("none"@)),
{
    let t = title_element(or_default(st.title, "Untitled"@));
    let l = stylesheet_link(or_default(st.theme, "none"@));
    let body = join(fragments(texts_of(st.data)->0), newline());
    let pre = "\n        <html>\n            <head>\n                <meta charset=\"UTF-8\">\n                "@;
    let mid = "\n                "@;
    let rest = "\n            </head>\n            <body>\n                "@ + body
        + "\n            </body>\n        </html>\n        "@;
    let h = document(st)->0;
    assert(h =~= pre + t + (mid + l + rest));
    lemma_contains_middle(pre, t, mid + l + rest);
    assert(h =~= (pre + t + mid) + l + rest);
    lemma_contains_middle(pre + t + mid, l, rest);
}

} // verus!

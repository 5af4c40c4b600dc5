//! Content extraction from HTML: title, metadata, links and a Markdown
//! rendering of the body.
use vstd::prelude::*;

use crate::config::{strings_view, PageMetadata};
use crate::html::{events_view, parse_html, parse_selector, select_subtrees, subtrees_view};
use crate::html::{selected_subtrees, selector_accepted, DomEvent, EventView, HtmlDocument};
use crate::text::{chars_of, has_prefix, lines_chars, lines_of, push_char, push_chars, push_str};
use crate::text::{same_text, split_chars, split_on, starts_with_str, string_of, trim};
use crate::text::{is_white_space, lemma_lines_trimmed, lemma_lines_without_newline};
use crate::text::{lemma_trim_range, lines_unpadded, trim_chars, unpadded_at};
use crate::web_url::{join_url, opt_view, parse_url, url_join_result, url_parse_result, WebUrl};

verus! {

broadcast use vstd::string::group_string_axioms;

/// What extraction finds in an HTML page.
pub struct Extracted {
    pub title: Option<String>,
    pub markdown: String,
    pub links: Vec<String>,
    pub metadata: PageMetadata,
}

// ---------------------------------------------------------------------------
// Reading element subtrees
// ---------------------------------------------------------------------------

/// The elements a selector matches in a document, each as the events of its
/// subtree; nothing when `scraper` refuses the selector.
pub open spec fn selection(source: Seq<char>, css: Seq<char>) -> Seq<Seq<EventView>> {
    if selector_accepted(css) {
        selected_subtrees(source, css)
    } else {
        seq![]
    }
}

/// The text of a subtree: its text nodes concatenated in document order
/// (what `ElementRef::text` yields).
pub open spec fn element_text(ev: Seq<EventView>) -> Seq<char>
    decreases ev.len(),
{
    if ev.len() == 0 {
        seq![]
    } else {
        element_text(ev.drop_last()) + match ev.last() {
            EventView::Text(t) => t,
            _ => seq![],
        }
    }
}

/// The text nodes of a subtree, in document order.
pub open spec fn text_pieces(ev: Seq<EventView>) -> Seq<Seq<char>>
    decreases ev.len(),
{
    if ev.len() == 0 {
        seq![]
    } else {
        let prev = text_pieces(ev.drop_last());
        match ev.last() {
            EventView::Text(t) => prev.push(t),
            _ => prev,
        }
    }
}

/// Pieces joined with a separator.
pub open spec fn join_with(pieces: Seq<Seq<char>>, sep: Seq<char>) -> Seq<char>
    decreases pieces.len(),
{
    if pieces.len() == 0 {
        seq![]
    } else if pieces.len() == 1 {
        pieces[0]
    } else {
        join_with(pieces.drop_last(), sep) + sep + pieces.last()
    }
}

/// The value of the first attribute named `name`.
pub open spec fn find_attr(attrs: Seq<(Seq<char>, Seq<char>)>, name: Seq<char>) -> Option<
    Seq<char>,
>
    decreases attrs.len(),
{
    if attrs.len() == 0 {
        None
    } else if attrs[0].0 == name {
        Some(attrs[0].1)
    } else {
        find_attr(attrs.drop_first(), name)
    }
}

/// The value of attribute `name` of the element a subtree starts with.
pub open spec fn element_attr(ev: Seq<EventView>, name: Seq<char>) -> Option<Seq<char>> {
    if ev.len() > 0 {
        match ev[0] {
            EventView::Element(_, attrs) => find_attr(attrs, name),
            _ => None,
        }
    } else {
        None
    }
}

/// The elements `css` matches in `doc`, or none when the selector is refused.
fn select(doc: &HtmlDocument, css: &str) -> (v: Vec<Vec<DomEvent>>)
    ensures
        subtrees_view(v@) == selection(doc@, css@),
{
    match parse_selector(css) {
        Some(sel) => select_subtrees(doc, &sel),
        None => {
            let v: Vec<Vec<DomEvent>> = Vec::new();
            assert(subtrees_view(v@) =~= seq![]);
            v
        },
    }
}

/// The text of a subtree.
fn text_of(ev: &Vec<DomEvent>) -> (s: String)
    ensures
        s@ == element_text(events_view(ev@)),
{
    let ghost evv = events_view(ev@);
    let mut s = String::new();
    let mut i: usize = 0;
    while i < ev.len()
        invariant
            i <= ev@.len(),
            evv == events_view(ev@),
            s@ == element_text(evv.take(i as int)),
        decreases ev@.len() - i,
    {
        assert(evv.take(i + 1).drop_last() == evv.take(i as int));
        match &ev[i] {
            DomEvent::Text(t) => push_str(&mut s, t.as_str()),
            _ => {},
        }
        i += 1;
    }
    assert(evv.take(ev@.len() as int) == evv);
    s
}

/// The trimmed text of a subtree.
fn trimmed_text_of(ev: &Vec<DomEvent>) -> (s: String)
    ensures
        s@ == trim(element_text(events_view(ev@))),
{
    let t = text_of(ev);
    let c = chars_of(t.as_str());
    let tc = trim_chars(c.as_slice());
    string_of(tc.as_slice())
}

/// The value of the first attribute named `name`.
fn find_attr_exec(attrs: &Vec<(String, String)>, name: &str) -> (r: Option<String>)
    ensures
        opt_view(r) == find_attr(crate::html::attrs_view(attrs@), name@),
{
    let ghost av = crate::html::attrs_view(attrs@);
    assert(av.skip(0) == av);
    let mut i: usize = 0;
    while i < attrs.len()
        invariant
            i <= attrs@.len(),
            av == crate::html::attrs_view(attrs@),
            find_attr(av, name@) == find_attr(av.skip(i as int), name@),
        decreases attrs@.len() - i,
    {
        assert(av.skip(i as int).drop_first() == av.skip(i + 1));
        assert(av.skip(i as int)[0] == (attrs@[i as int].0@, attrs@[i as int].1@));
        if same_text(attrs[i].0.as_str(), name) {
            let value = attrs[i].1.clone();
            return Some(value);
        }
        i += 1;
    }
    None
}

/// The value of attribute `name` of the element a subtree starts with.
fn attr_of(ev: &Vec<DomEvent>, name: &str) -> (r: Option<String>)
    ensures
        opt_view(r) == element_attr(events_view(ev@), name@),
{
    if ev.len() == 0 {
        return None;
    }
    assert(events_view(ev@)[0] == crate::html::event_view(ev@[0]));
    match &ev[0] {
        DomEvent::Element(_, attrs) => find_attr_exec(attrs, name),
        _ => None,
    }
}

// ---------------------------------------------------------------------------
// Title and metadata
// ---------------------------------------------------------------------------

/// The title: the trimmed text of the first `title` element.
pub open spec fn title_spec(source: Seq<char>) -> Option<Seq<char>> {
    let els = selection(source, "title"@);
    if els.len() == 0 {
        None
    } else {
        Some(trim(element_text(els[0])))
    }
}

/// The description: the `content` attribute of the first
/// `meta[name='description']` element.
pub open spec fn description_spec(source: Seq<char>) -> Option<Seq<char>> {
    let els = selection(source, "meta[name='description']"@);
    if els.len() == 0 {
        None
    } else {
        element_attr(els[0], "content"@)
    }
}

/// The keywords: the `content` attribute of the first
/// `meta[name='keywords']` element, split at commas, each piece trimmed.
pub open spec fn keywords_spec(source: Seq<char>) -> Seq<Seq<char>> {
    let els = selection(source, "meta[name='keywords']"@);
    if els.len() > 0 && element_attr(els[0], "content"@) is Some {
        split_on(element_attr(els[0], "content"@)->0, ',').map_values(|k: Seq<char>| trim(k))
    } else {
        seq![]
    }
}

/// The trimmed texts of the elements, without the empty ones.
pub open spec fn nonempty_texts(els: Seq<Seq<EventView>>) -> Seq<Seq<char>>
    decreases els.len(),
{
    if els.len() == 0 {
        seq![]
    } else {
        let prev = nonempty_texts(els.drop_last());
        let t = trim(element_text(els.last()));
        if t.len() > 0 {
            prev.push(t)
        } else {
            prev
        }
    }
}

/// The trimmed text of an element subtree.
pub open spec fn trimmed_text() -> spec_fn(Seq<EventView>) -> Seq<char> {
    |ev: Seq<EventView>| trim(element_text(ev))
}

/// Whether a text is not empty.
pub open spec fn not_empty() -> spec_fn(Seq<char>) -> bool {
    |t: Seq<char>| t.len() > 0
}

/// The kept texts are exactly the non-empty ones among the trimmed texts of
/// all the elements, in order: none is dropped or added.
pub proof fn lemma_nonempty_texts_keeps_all(els: Seq<Seq<EventView>>)
    ensures
        nonempty_texts(els) == els.map_values(trimmed_text()).filter(not_empty()),
    decreases els.len(),
{
    reveal(Seq::filter);
    if els.len() > 0 {
        lemma_nonempty_texts_keeps_all(els.drop_last());
        let m = els.map_values(trimmed_text());
        assert(m.drop_last() == els.drop_last().map_values(trimmed_text()));
        assert(m.last() == trim(element_text(els.last())));
    }
}

/// Every heading of a level is kept: the headings are the trimmed texts of
/// all the elements the tag selects, in order, without the empty ones; so
/// there is one heading for each such element whose trimmed text is not
/// empty.
pub proof fn lemma_headings_keep_every_heading(source: Seq<char>, tag: Seq<char>)
    ensures
        headings_spec(source, tag) == selection(source, tag).map_values(trimmed_text()).filter(
            not_empty(),
        ),
{
    lemma_nonempty_texts_keeps_all(selection(source, tag));
}

/// The headings of one level: the trimmed non-empty texts of the elements
/// `tag` matches.
pub open spec fn headings_spec(source: Seq<char>, tag: Seq<char>) -> Seq<Seq<char>> {
    nonempty_texts(selection(source, tag))
}

/// The metadata of a page: description, keywords and headings; content
/// type and length are left unset.
pub open spec fn metadata_matches(m: PageMetadata, source: Seq<char>) -> bool {
    &&& m.content_type is None
    &&& m.content_length is None
    &&& page_metadata_matches(m, source)
}

/// What the page itself says: description, keywords and headings.
pub open spec fn page_metadata_matches(m: PageMetadata, source: Seq<char>) -> bool {
    &&& opt_view(m.description) == description_spec(source)
    &&& strings_view(m.keywords@) == keywords_spec(source)
    &&& strings_view(m.h1@) == headings_spec(source, "h1"@)
    &&& strings_view(m.h2@) == headings_spec(source, "h2"@)
}

/// Metadata with nothing set.
pub fn empty_metadata() -> (m: PageMetadata)
    ensures
        m.content_type is None,
        m.content_length is None,
        m.description is None,
        m.keywords@.len() == 0,
        m.h1@.len() == 0,
        m.h2@.len() == 0,
{
    PageMetadata {
        content_type: None,
        content_length: None,
        description: None,
        keywords: Vec::new(),
        h1: Vec::new(),
        h2: Vec::new(),
    }
}

/// The title of a document.
fn extract_title(doc: &HtmlDocument) -> (t: Option<String>)
    ensures
        opt_view(t) == title_spec(doc@),
{
    let els = select(doc, "title");
    if els.len() == 0 {
        None
    } else {
        Some(trimmed_text_of(&els[0]))
    }
}

/// The trimmed non-empty texts of the elements `css` matches.
fn headings(doc: &HtmlDocument, css: &str) -> (v: Vec<String>)
    ensures
        strings_view(v@) == nonempty_texts(selection(doc@, css@)),
{
    let els = select(doc, css);
    let ghost ev = subtrees_view(els@);
    let mut v: Vec<String> = Vec::new();
    let mut i: usize = 0;
    while i < els.len()
        invariant
            i <= els@.len(),
            ev == subtrees_view(els@),
            ev == selection(doc@, css@),
            strings_view(v@) == nonempty_texts(ev.take(i as int)),
        decreases els@.len() - i,
    {
        assert(ev.take(i + 1).drop_last() == ev.take(i as int));
        assert(ev.take(i + 1).last() == events_view(els@[i as int]@));
        let t = trimmed_text_of(&els[i]);
        if !t.as_str().is_empty() {
            v.push(t);
        }
        assert(strings_view(v@) =~= nonempty_texts(ev.take(i + 1)));
        i += 1;
    }
    assert(ev.take(els@.len() as int) == ev);
    v
}

/// The pieces of `s` split at `','`, each trimmed.
fn split_keywords(s: &str) -> (v: Vec<String>)
    ensures
        strings_view(v@) == split_on(s@, ',').map_values(|k: Seq<char>| trim(k)),
{
    let c = chars_of(s);
    let pieces = split_chars(c.as_slice(), ',');
    let ghost want = split_on(s@, ',').map_values(|k: Seq<char>| trim(k));
    let mut v: Vec<String> = Vec::new();
    let mut i: usize = 0;
    while i < pieces.len()
        invariant
            i <= pieces@.len(),
            pieces@.len() == split_on(s@, ',').len(),
            forall|j: int| 0 <= j < pieces@.len() ==> #[trigger] pieces@[j]@ == split_on(s@, ',')[j],
            want == split_on(s@, ',').map_values(|k: Seq<char>| trim(k)),
            strings_view(v@) == want.take(i as int),
        decreases pieces@.len() - i,
    {
        let t = trim_chars(pieces[i].as_slice());
        assert(want.len() == pieces@.len());
        assert(want[i as int] == trim(split_on(s@, ',')[i as int]));
        let w = string_of(t.as_slice());
        assert(w@ == want[i as int]);
        let ghost before = v@;
        v.push(w);
        assert(strings_view(v@) == strings_view(before).push(w@));
        assert(want.take(i + 1) == want.take(i as int).push(want[i as int]));
        i += 1;
    }
    assert(want.take(pieces@.len() as int) == want);
    v
}

/// The description, keywords and headings of a document.
fn extract_metadata(doc: &HtmlDocument) -> (m: PageMetadata)
    ensures
        metadata_matches(m, doc@),
{
    let mut meta = empty_metadata();
    let desc = select(doc, "meta[name='description']");
    if desc.len() > 0 {
        meta.description = attr_of(&desc[0], "content");
    }
    let kw = select(doc, "meta[name='keywords']");
    if kw.len() > 0 {
        match attr_of(&kw[0], "content") {
            Some(content) => {
                meta.keywords = split_keywords(content.as_str());
            },
            None => {},
        }
    }
    meta.h1 = headings(doc, "h1");
    meta.h2 = headings(doc, "h2");
    assert(strings_view(meta.keywords@) =~= keywords_spec(doc@));
    meta
}

// ---------------------------------------------------------------------------
// Links
// ---------------------------------------------------------------------------

/// An absolute web link: it starts with `http://` or `https://`.
pub open spec fn is_web_link(s: Seq<char>) -> bool {
    has_prefix(s, "http://"@) || has_prefix(s, "https://"@)
}

/// Where an `href` leads: itself when absolute, nowhere for `javascript:`,
/// `mailto:`, `tel:` and fragment-only references, else the `url` crate's
/// join against the base URL (when there is one and the join succeeds).
pub open spec fn resolve_spec(href: Seq<char>, base: Option<Seq<char>>) -> Option<Seq<char>> {
    if is_web_link(href) {
        Some(href)
    } else if has_prefix(href, "javascript:"@) || has_prefix(href, "mailto:"@) || has_prefix(
        href,
        "tel:"@,
    ) || has_prefix(href, "#"@) {
        None
    } else {
        match base {
            Some(b) => url_join_result(b, href),
            None => None,
        }
    }
}

/// The links of the elements, in the order of the elements: each element's `href`
/// resolved against the base, kept when it resolves to a web link.
pub open spec fn links_spec(els: Seq<Seq<EventView>>, base: Option<Seq<char>>) -> Seq<Seq<char>>
    decreases els.len(),
{
    if els.len() == 0 {
        seq![]
    } else {
        let prev = links_spec(els.drop_last(), base);
        match element_attr(els.last(), "href"@) {
            Some(h) => match resolve_spec(h, base) {
                Some(u) => if is_web_link(u) {
                    prev.push(u)
                } else {
                    prev
                },
                None => prev,
            },
            None => prev,
        }
    }
}

/// Every extracted link is an absolute `http://` or `https://` URL.
pub proof fn lemma_links_are_web_links(els: Seq<Seq<EventView>>, base: Option<Seq<char>>)
    ensures
        forall|i: int| 0 <= i < links_spec(els, base).len() ==> is_web_link(
            #[trigger] links_spec(els, base)[i],
        ),
    decreases els.len(),
{
    if els.len() > 0 {
        lemma_links_are_web_links(els.drop_last(), base);
        let prev = links_spec(els.drop_last(), base);
        let cur = links_spec(els, base);
        assert(cur == prev || (cur.len() == prev.len() + 1 && cur == prev.push(cur.last())
            && is_web_link(cur.last())));
        assert forall|i: int| 0 <= i < cur.len() implies is_web_link(#[trigger] cur[i]) by {
            if i < prev.len() {
                assert(cur[i] == prev[i]);
            }
        }
    }
}

/// Whether `s` is an absolute web link.
fn is_web_link_exec(s: &str) -> (b: bool)
    ensures
        b == is_web_link(s@),
{
    starts_with_str(s, "http://") || starts_with_str(s, "https://")
}

/// Where an `href` leads, relative to an optional base URL.
fn resolve_url(href: &str, base: Option<&WebUrl>) -> (r: Option<String>)
    ensures
        opt_view(r) == resolve_spec(
            href@,
            match base {
                Some(b) => Some(b@),
                None => None,
            },
        ),
{
    if is_web_link_exec(href) {
        return Some(href.to_owned());
    }
    if starts_with_str(href, "javascript:") || starts_with_str(href, "mailto:") || starts_with_str(
        href,
        "tel:",
    ) || starts_with_str(href, "#") {
        return None;
    }
    match base {
        Some(b) => match join_url(b, href) {
            Ok(u) => Some(u.serialization()),
            Err(_) => None,
        },
        None => None,
    }
}

/// The web links of a document: every `a[href]`, resolved against the base.
fn extract_links(doc: &HtmlDocument, base: Option<&WebUrl>) -> (v: Vec<String>)
    ensures
        strings_view(v@) == links_spec(
            selection(doc@, "a[href]"@),
            match base {
                Some(b) => Some(b@),
                None => None,
            },
        ),
{
    let ghost bv = match base {
        Some(b) => Some(b@),
        None => None::<Seq<char>>,
    };
    let els = select(doc, "a[href]");
    let ghost ev = subtrees_view(els@);
    let mut v: Vec<String> = Vec::new();
    let mut i: usize = 0;
    while i < els.len()
        invariant
            i <= els@.len(),
            ev == subtrees_view(els@),
            ev == selection(doc@, "a[href]"@),
            bv == match base {
                Some(b) => Some(b@),
                None => None::<Seq<char>>,
            },
            strings_view(v@) == links_spec(ev.take(i as int), bv),
        decreases els@.len() - i,
    {
        assert(ev.take(i + 1).drop_last() == ev.take(i as int));
        assert(ev.take(i + 1).last() == events_view(els@[i as int]@));
        let ghost before = v@;
        match attr_of(&els[i], "href") {
            Some(h) => match resolve_url(h.as_str(), base) {
                Some(u) => {
                    if is_web_link_exec(u.as_str()) {
                        v.push(u);
                        assert(strings_view(v@) == strings_view(before).push(u@));
                    }
                },
                None => {},
            },
            None => {},
        }
        i += 1;
    }
    assert(ev.take(els@.len() as int) == ev);
    v
}

// ---------------------------------------------------------------------------
// Markdown
// ---------------------------------------------------------------------------

/// What entering an element writes: a heading marker for `h1` to `h3`, a
/// line break for `p`, `div`, `section`, `article` and `br`, a bullet for
/// `li`, nothing for any other element.
pub open spec fn open_marker(name: Seq<char>) -> Seq<char> {
    if name == "h1"@ {
        "\n# "@
    } else if name == "h2"@ {
        "\n## "@
    } else if name == "h3"@ {
        "\n### "@
    } else if name == "p"@ || name == "div"@ || name == "section"@ || name == "article"@ {
        "\n"@
    } else if name == "li"@ {
        "- "@
    } else if name == "br"@ {
        "\n"@
    } else {
        seq![]
    }
}

/// Elements whose end writes a line break.
pub open spec fn closes_with_newline(name: Seq<char>) -> bool {
    name == "h1"@ || name == "h2"@ || name == "h3"@ || name == "p"@ || name == "div"@ || name
        == "section"@ || name == "article"@ || name == "li"@
}

/// Elements whose content is not rendered (`br`, `script`, `style`,
/// `noscript`).
pub open spec fn skips_content(name: Seq<char>) -> bool {
    name == "br"@ || name == "script"@ || name == "style"@ || name == "noscript"@
}

/// Where an element links to: the `href` of an `a` element, if it has one.
pub open spec fn link_target(name: Seq<char>, attrs: Seq<(Seq<char>, Seq<char>)>) -> Option<
    Seq<char>,
> {
    if name == "a"@ {
        find_attr(attrs, "href"@)
    } else {
        None
    }
}

/// The state of the Markdown rendering.
pub struct RenderState {
    /// The text written so far.
    pub out: Seq<char>,
    /// How deep inside a skipped element the traversal is (0 when outside).
    pub skip: nat,
    /// The nodes entered and not yet left: `Some((name, target))` for an
    /// element, with the target of a rendered link.
    pub open: Seq<Option<(Seq<char>, Option<Seq<char>>)>>,
    /// How many rendered links are open.
    pub links: nat,
    /// Inside a link, whether text was written that the next text must be
    /// separated from.
    pub gap: bool,
}

/// The rendering state before any event.
pub open spec fn render_start() -> RenderState {
    RenderState { out: seq![], skip: 0, open: seq![], links: 0, gap: false }
}

/// One traversal event of the rendering. Text nodes write their trimmed text
/// when it is not empty: followed by a space outside links, separated by a
/// space from the text before it inside a link. Elements write their
/// markers; a link (`a` with an `href`) is written `[text](href)` followed
/// by a space.
pub open spec fn render_step(st: RenderState, e: EventView) -> RenderState {
    match e {
        EventView::Element(name, attrs) => if st.skip > 0 {
            RenderState { skip: st.skip + 1, open: st.open.push(Some((name, None))), ..st }
        } else {
            let target = link_target(name, attrs);
            RenderState {
                out: st.out + open_marker(name) + if target is Some {
                    "["@
                } else {
                    seq![]
                },
                skip: if skips_content(name) {
                    1
                } else {
                    0
                },
                open: st.open.push(Some((name, target))),
                links: if target is Some {
                    st.links + 1
                } else {
                    st.links
                },
                gap: if target is Some {
                    false
                } else {
                    st.gap
                },
            }
        },
        EventView::Text(t) => if st.skip > 0 {
            RenderState { skip: st.skip + 1, open: st.open.push(None), ..st }
        } else {
            let tt = trim(t);
            if tt.len() == 0 {
                RenderState { open: st.open.push(None), ..st }
            } else if st.links > 0 {
                RenderState {
                    out: st.out + (if st.gap {
                        " "@
                    } else {
                        seq![]
                    }) + tt,
                    open: st.open.push(None),
                    gap: true,
                    ..st
                }
            } else {
                RenderState { out: st.out + tt.push(' '), open: st.open.push(None), ..st }
            }
        },
        EventView::Other => if st.skip > 0 {
            RenderState { skip: st.skip + 1, open: st.open.push(None), ..st }
        } else {
            RenderState { open: st.open.push(None), ..st }
        },
        EventView::Close => if st.open.len() == 0 {
            st
        } else if st.skip > 0 {
            RenderState { skip: (st.skip - 1) as nat, open: st.open.drop_last(), ..st }
        } else {
            match st.open.last() {
                Some((n, Some(h))) => RenderState {
                    out: st.out + "]("@ + h + ") "@,
                    open: st.open.drop_last(),
                    links: if st.links > 0 {
                        (st.links - 1) as nat
                    } else {
                        0
                    },
                    gap: false,
                    ..st
                },
                Some((n, None)) => RenderState {
                    out: if closes_with_newline(n) {
                        st.out.push('\n')
                    } else {
                        st.out
                    },
                    open: st.open.drop_last(),
                    ..st
                },
                None => RenderState { open: st.open.drop_last(), ..st },
            }
        },
    }
}

/// The rendering state after a sequence of events.
pub open spec fn render_events(ev: Seq<EventView>) -> RenderState
    decreases ev.len(),
{
    if ev.len() == 0 {
        render_start()
    } else {
        render_step(render_events(ev.drop_last()), ev.last())
    }
}

/// One event of the rendering only appends to the text written.
proof fn lemma_render_step_appends(st: RenderState, e: EventView)
    ensures
        st.out.len() <= render_step(st, e).out.len(),
        render_step(st, e).out.subrange(0, st.out.len() as int) == st.out,
{
    let o = render_step(st, e).out;
    assert(o.subrange(0, st.out.len() as int) =~= st.out);
}

/// The renderer only appends: rendering a prefix of the events writes a
/// prefix of what rendering all of them writes.
pub proof fn lemma_render_appends(ev: Seq<EventView>, k: int)
    requires
        0 <= k <= ev.len(),
    ensures
        render_events(ev.take(k)).out.len() <= render_events(ev).out.len(),
        render_events(ev).out.subrange(0, render_events(ev.take(k)).out.len() as int)
            == render_events(ev.take(k)).out,
    decreases ev.len(),
{
    if k == ev.len() {
        assert(ev.take(k) == ev);
        assert(render_events(ev).out.subrange(0, render_events(ev).out.len() as int)
            == render_events(ev).out);
    } else {
        assert(ev.take(k) == ev.drop_last().take(k));
        lemma_render_appends(ev.drop_last(), k);
        lemma_render_step_appends(render_events(ev.drop_last()), ev.last());
        let a = render_events(ev.take(k)).out;
        let b = render_events(ev.drop_last()).out;
        let c = render_events(ev).out;
        assert(c.subrange(0, a.len() as int) == b.subrange(0, a.len() as int));
    }
}

/// The rendering state after further events, from a given state.
pub open spec fn render_from(st: RenderState, ev: Seq<EventView>) -> RenderState
    decreases ev.len(),
{
    if ev.len() == 0 {
        st
    } else {
        render_step(render_from(st, ev.drop_last()), ev.last())
    }
}

/// Rendering two runs of events one after the other.
proof fn lemma_render_split(a: Seq<EventView>, b: Seq<EventView>)
    ensures
        render_events(a + b) == render_from(render_events(a), b),
    decreases b.len(),
{
    if b.len() == 0 {
        assert(a + b == a);
    } else {
        lemma_render_split(a, b.drop_last());
        assert((a + b).drop_last() == a + b.drop_last());
        assert((a + b).last() == b.last());
    }
}

/// Nodes entered minus nodes left over a run of events.
pub open spec fn nesting(ev: Seq<EventView>) -> int
    decreases ev.len(),
{
    if ev.len() == 0 {
        0
    } else {
        nesting(ev.drop_last()) + if ev.last() is Close {
            -1int
        } else {
            1int
        }
    }
}

/// A run of events that leaves every node it enters and no other: the
/// content of an element.
pub open spec fn well_nested(ev: Seq<EventView>) -> bool {
    &&& forall|k: int| 0 <= k <= ev.len() ==> nesting(#[trigger] ev.take(k)) >= 0
    &&& nesting(ev) == 0
}

/// While skipping, events write nothing and change no link state; the
/// skipping depth and the open nodes follow the nesting.
proof fn lemma_skipping_writes_nothing(st: RenderState, ev: Seq<EventView>)
    requires
        st.skip > 0,
        st.open.len() >= st.skip,
        forall|k: int| 0 <= k <= ev.len() ==> nesting(#[trigger] ev.take(k)) >= 0,
    ensures
        render_from(st, ev).out == st.out,
        render_from(st, ev).links == st.links,
        render_from(st, ev).gap == st.gap,
        render_from(st, ev).skip == st.skip + nesting(ev),
        render_from(st, ev).open.len() == st.open.len() + nesting(ev),
        render_from(st, ev).open.subrange(0, st.open.len() as int) == st.open,
    decreases ev.len(),
{
    if ev.len() > 0 {
        let init = ev.drop_last();
        assert forall|k: int| 0 <= k <= init.len() implies nesting(#[trigger] init.take(k)) >= 0 by {
            assert(init.take(k) == ev.take(k));
        }
        lemma_skipping_writes_nothing(st, init);
        assert(ev.take(ev.len() as int) == ev);
        let r = render_from(st, init);
        assert(r.open.subrange(0, st.open.len() as int) == st.open);
        let r2 = render_from(st, ev);
        assert(r2.open.subrange(0, st.open.len() as int) =~= st.open);
    }
}

/// Whatever a `script`, `style` or `noscript` element holds, it writes
/// nothing and leaves no trace: rendering the events with the element and
/// its content removed gives the same result.
pub proof fn lemma_skipped_elements_write_nothing(
    before: Seq<EventView>,
    name: Seq<char>,
    attrs: Seq<(Seq<char>, Seq<char>)>,
    content: Seq<EventView>,
    after: Seq<EventView>,
)
    requires
        render_events(before).skip == 0,
        name == "script"@ || name == "style"@ || name == "noscript"@,
        well_nested(content),
    ensures
        render_events(before + seq![EventView::Element(name, attrs)] + content + seq![EventView::Close]
            + after) == render_events(before + after),
{
    reveal_strlit("script");
    reveal_strlit("style");
    reveal_strlit("noscript");
    reveal_strlit("a");
    reveal_strlit("h1");
    reveal_strlit("h2");
    reveal_strlit("h3");
    reveal_strlit("p");
    reveal_strlit("div");
    reveal_strlit("section");
    reveal_strlit("article");
    reveal_strlit("li");
    reveal_strlit("br");
    let s0 = render_events(before);
    let e = seq![EventView::Element(name, attrs)];
    let c = seq![EventView::Close];
    lemma_render_split(before, e);
    let s1 = render_events(before + e);
    assert(render_from(s0, e) == render_step(s0, EventView::Element(name, attrs))) by {
        assert(e.drop_last() =~= Seq::<EventView>::empty());
        assert(render_from(s0, e.drop_last()) == s0);
        assert(e.last() == EventView::Element(name, attrs));
    }
    // the skipped names differ in length from every name with a marker
    assert(name.len() == 6 || name.len() == 5 || name.len() == 8);
    assert("h1"@.len() == 2 && "h2"@.len() == 2 && "h3"@.len() == 2 && "p"@.len() == 1
        && "div"@.len() == 3 && "section"@.len() == 7 && "article"@.len() == 7 && "li"@.len() == 2
        && "br"@.len() == 2 && "a"@.len() == 1);
    assert(open_marker(name) =~= Seq::<char>::empty());
    assert(link_target(name, attrs) is None);
    assert(s1.out =~= s0.out);
    assert(s1.skip == 1);
    assert(s1.open == s0.open.push(Some((name, None::<Seq<char>>))));
    lemma_render_split(before + e, content);
    lemma_skipping_writes_nothing(s1, content);
    let s2 = render_events(before + e + content);
    assert(content.take(content.len() as int) == content);
    assert(s2.open =~= s1.open);
    lemma_render_split(before + e + content, c);
    let s3 = render_events(before + e + content + c);
    assert(render_from(s2, c) == render_step(s2, EventView::Close)) by {
        assert(c.drop_last() =~= Seq::<EventView>::empty());
        assert(render_from(s2, c.drop_last()) == s2);
        assert(c.last() == EventView::Close);
    }
    assert(s3.open =~= s0.open);
    assert(s3 == s0);
    lemma_render_split(before + e + content + c, after);
    lemma_render_split(before, after);
}

/// One line of the whitespace clean-up: a non-empty line is kept with a line
/// break; a run of empty lines becomes one line break.
pub open spec fn tidy_step(st: (Seq<char>, bool), line: Seq<char>) -> (Seq<char>, bool) {
    if line.len() == 0 {
        if !st.1 {
            (st.0.push('\n'), true)
        } else {
            st
        }
    } else {
        (st.0 + line.push('\n'), false)
    }
}

/// The clean-up over a sequence of (trimmed) lines.
pub open spec fn tidy_lines(lines: Seq<Seq<char>>) -> (Seq<char>, bool)
    decreases lines.len(),
{
    if lines.len() == 0 {
        (seq![], false)
    } else {
        tidy_step(tidy_lines(lines.drop_last()), lines.last())
    }
}

/// The text before clean-up: the rendering of the first `body` element, or,
/// without one, the text nodes of the root element joined with spaces.
pub open spec fn raw_text_spec(source: Seq<char>) -> Seq<char> {
    let bodies = selection(source, "body"@);
    if bodies.len() > 0 {
        render_events(bodies[0]).out
    } else {
        let roots = selection(source, ":root"@);
        if roots.len() > 0 {
            join_with(text_pieces(roots[0]), " "@)
        } else {
            seq![]
        }
    }
}

/// The Markdown of a document: the raw text split into lines, each line
/// trimmed, runs of empty lines collapsed, the whole trimmed.
pub open spec fn markdown_spec(source: Seq<char>) -> Seq<char> {
    trim(tidy_lines(lines_of(raw_text_spec(source)).map_values(|l: Seq<char>| trim(l))).0)
}

/// What entering element `name` writes.
fn open_marker_exec(name: &str) -> (m: &'static str)
    ensures
        m@ == open_marker(name@),
{
    if same_text(name, "h1") {
        "\n# "
    } else if same_text(name, "h2") {
        "\n## "
    } else if same_text(name, "h3") {
        "\n### "
    } else if same_text(name, "p") || same_text(name, "div") || same_text(name, "section")
        || same_text(name, "article") {
        "\n"
    } else if same_text(name, "li") {
        "- "
    } else if same_text(name, "br") {
        "\n"
    } else {
        proof {
            reveal_strlit("");
        }
        ""
    }
}

/// The view of an entered node's record: whether leaving it writes a line
/// break, and the target of a rendered link.
pub open spec fn opened_matches(
    rec: (bool, Option<String>),
    node: Option<(Seq<char>, Option<Seq<char>>)>,
) -> bool {
    match node {
        Some((n, target)) => rec.0 == closes_with_newline(n) && opt_view(rec.1) == target,
        None => !rec.0 && rec.1 is None,
    }
}

/// Where an element links to: the `href` of an `a` element, if it has one.
fn link_target_exec(name: &str, attrs: &Vec<(String, String)>) -> (r: Option<String>)
    ensures
        opt_view(r) == link_target(name@, crate::html::attrs_view(attrs@)),
{
    if same_text(name, "a") {
        find_attr_exec(attrs, "href")
    } else {
        None
    }
}

/// Renders the events of an element subtree as text with Markdown markers.
fn collect_text(ev: &Vec<DomEvent>) -> (s: String)
    ensures
        s@ == render_events(events_view(ev@)).out,
{
    let ghost evv = events_view(ev@);
    let mut out = String::new();
    let mut skip: usize = 0;
    // for each node entered and not left: does leaving it write a line
    // break, and where does it link to?
    let mut open: Vec<(bool, Option<String>)> = Vec::new();
    let mut links: usize = 0;
    let mut gap = false;
    let ghost mut names: Seq<Option<(Seq<char>, Option<Seq<char>>)>> = seq![];
    let mut i: usize = 0;
    while i < ev.len()
        invariant
            i <= ev@.len(),
            evv == events_view(ev@),
            skip <= i,
            links <= i,
            render_events(evv.take(i as int)) == (RenderState {
                out: out@,
                skip: skip as nat,
                open: names,
                links: links as nat,
                gap,
            }),
            open@.len() == names.len(),
            forall|k: int| 0 <= k < names.len() ==> opened_matches(#[trigger] open@[k], names[k]),
        decreases ev@.len() - i,
    {
        assert(evv.take(i + 1).drop_last() == evv.take(i as int));
        assert(evv.take(i + 1).last() == crate::html::event_view(ev@[i as int]));
        let ghost before = open@;
        match &ev[i] {
            DomEvent::Element(name, attrs) => {
                let closes = same_text(name.as_str(), "h1") || same_text(name.as_str(), "h2")
                    || same_text(name.as_str(), "h3") || same_text(name.as_str(), "p")
                    || same_text(name.as_str(), "div") || same_text(name.as_str(), "section")
                    || same_text(name.as_str(), "article") || same_text(name.as_str(), "li");
                if skip > 0 {
                    skip = skip + 1;
                    open.push((closes, None));
                    proof {
                        names = names.push(Some((name@, None)));
                    }
                } else {
                    let target = link_target_exec(name.as_str(), attrs);
                    let ghost o0 = out@;
                    push_str(&mut out, open_marker_exec(name.as_str()));
                    if target.is_some() {
                        push_str(&mut out, "[");
                        links = links + 1;
                        gap = false;
                    }
                    assert(out@ =~= o0 + open_marker(name@) + if target is Some {
                        "["@
                    } else {
                        seq![]
                    });
                    if same_text(name.as_str(), "br") || same_text(name.as_str(), "script")
                        || same_text(name.as_str(), "style") || same_text(
                        name.as_str(),
                        "noscript",
                    ) {
                        skip = 1;
                    }
                    proof {
                        names = names.push(
                            Some((name@, link_target(name@, crate::html::attrs_view(attrs@)))),
                        );
                    }
                    open.push((closes, target));
                }
            },
            DomEvent::Text(t) => {
                if skip > 0 {
                    skip = skip + 1;
                } else {
                    let c = chars_of(t.as_str());
                    let tc = trim_chars(c.as_slice());
                    if tc.len() > 0 {
                        if links > 0 {
                            let ghost o0 = out@;
                            proof {
                                reveal_strlit(" ");
                            }
                            if gap {
                                push_char(&mut out, ' ');
                            }
                            push_chars(&mut out, tc.as_slice());
                            assert(out@ =~= o0 + (if gap {
                                " "@
                            } else {
                                seq![]
                            }) + tc@);
                            gap = true;
                        } else {
                            push_chars(&mut out, tc.as_slice());
                            push_char(&mut out, ' ');
                        }
                    }
                }
                open.push((false, None));
                proof {
                    names = names.push(None);
                }
            },
            DomEvent::Other => {
                if skip > 0 {
                    skip = skip + 1;
                }
                open.push((false, None));
                proof {
                    names = names.push(None);
                }
            },
            DomEvent::Close => {
                if open.len() > 0 {
                    let (closes, target) = open.pop().unwrap();
                    assert(opened_matches((closes, target), names.last()));
                    if skip > 0 {
                        skip = skip - 1;
                    } else {
                        match target {
                            Some(h) => {
                                push_str(&mut out, "](");
                                push_str(&mut out, h.as_str());
                                push_str(&mut out, ") ");
                                if links > 0 {
                                    links = links - 1;
                                }
                                gap = false;
                            },
                            None => {
                                if closes {
                                    push_char(&mut out, '\n');
                                }
                            },
                        }
                    }
                    proof {
                        names = names.drop_last();
                    }
                }
            },
        }
        assert(forall|k: int| 0 <= k < open@.len() - 1 ==> open@[k] == before[k]);
        i += 1;
    }
    assert(evv.take(ev@.len() as int) == evv);
    out
}

/// The text nodes of a subtree joined with spaces.
fn joined_text(ev: &Vec<DomEvent>) -> (s: String)
    ensures
        s@ == join_with(text_pieces(events_view(ev@)), " "@),
{
    let ghost evv = events_view(ev@);
    let mut out = String::new();
    let mut any = false;
    let mut i: usize = 0;
    while i < ev.len()
        invariant
            i <= ev@.len(),
            evv == events_view(ev@),
            any == (text_pieces(evv.take(i as int)).len() > 0),
            out@ == join_with(text_pieces(evv.take(i as int)), " "@),
        decreases ev@.len() - i,
    {
        assert(evv.take(i + 1).drop_last() == evv.take(i as int));
        assert(evv.take(i + 1).last() == crate::html::event_view(ev@[i as int]));
        let ghost pieces = text_pieces(evv.take(i as int));
        match &ev[i] {
            DomEvent::Text(t) => {
                assert(text_pieces(evv.take(i + 1)) == pieces.push(t@));
                assert(pieces.push(t@).drop_last() == pieces);
                if any {
                    push_str(&mut out, " ");
                }
                push_str(&mut out, t.as_str());
                any = true;
            },
            _ => {},
        }
        i += 1;
    }
    assert(evv.take(ev@.len() as int) == evv);
    out
}

/// No three line breaks in a row: at most one empty line between two lines.
pub open spec fn no_blank_run(s: Seq<char>) -> bool {
    forall|i: int|
        0 <= i && i + 2 < s.len() ==> !(#[trigger] s[i] == '\n' && s[i + 1] == '\n' && s[i + 2]
            == '\n')
}

/// The clean-up of lines without line breaks writes no three line breaks in
/// a row; unless its last line was empty, what it wrote so far is empty or
/// ends with a single line break after some other character.
proof fn lemma_tidy_lines_no_blank_run(lines: Seq<Seq<char>>)
    requires
        forall|i: int, j: int|
            0 <= i < lines.len() && 0 <= j < lines[i].len() ==> #[trigger] lines[i][j] != '\n',
    ensures
        no_blank_run(tidy_lines(lines).0),
        !tidy_lines(lines).1 ==> {
            let out = tidy_lines(lines).0;
            out.len() == 0 || (out.len() >= 2 && out.last() == '\n' && out[out.len() - 2] != '\n')
        },
    decreases lines.len(),
{
    if lines.len() > 0 {
        let init = lines.drop_last();
        assert forall|i: int, j: int|
            0 <= i < init.len() && 0 <= j < init[i].len() implies #[trigger] init[i][j] != '\n' by {
            assert(init[i] == lines[i]);
        }
        lemma_tidy_lines_no_blank_run(init);
        let (o1, p1) = tidy_lines(init);
        let line = lines.last();
        assert forall|j: int| 0 <= j < line.len() implies #[trigger] line[j] != '\n' by {
            assert(line[j] == lines[lines.len() - 1][j]);
        }
        let out = tidy_lines(lines).0;
        if line.len() == 0 {
            if !p1 {
                assert(out == o1.push('\n'));
                assert forall|i: int| 0 <= i && i + 2 < out.len() implies !(#[trigger] out[i]
                    == '\n' && out[i + 1] == '\n' && out[i + 2] == '\n') by {
                    if i + 2 < o1.len() {
                        assert(out[i] == o1[i] && out[i + 1] == o1[i + 1] && out[i + 2] == o1[i
                            + 2]);
                    } else {
                        assert(out[i] == o1[o1.len() - 2]);
                    }
                }
            }
        } else {
            let tail = line.push('\n');
            assert(out == o1 + tail);
            assert forall|i: int| 0 <= i && i + 2 < out.len() implies !(#[trigger] out[i]
                == '\n' && out[i + 1] == '\n' && out[i + 2] == '\n') by {
                if i + 2 < o1.len() {
                    assert(out[i] == o1[i] && out[i + 1] == o1[i + 1] && out[i + 2] == o1[i + 2]);
                } else if i + 2 < out.len() - 1 {
                    assert(out[i + 2] == line[i + 2 - o1.len()]);
                } else {
                    assert(out[i + 1] == line[i + 1 - o1.len()]);
                }
            }
            assert(out[out.len() - 2] == line[line.len() - 1]);
        }
    }
}

/// The clean-up of trimmed lines without line breaks pads no line break
/// with whitespace, and what it writes ends with a line break when it is not
/// empty.
proof fn lemma_tidy_lines_unpadded(lines: Seq<Seq<char>>)
    requires
        forall|i: int, j: int|
            0 <= i < lines.len() && 0 <= j < lines[i].len() ==> #[trigger] lines[i][j] != '\n',
        forall|i: int|
            0 <= i < lines.len() && #[trigger] lines[i].len() > 0 ==> !is_white_space(lines[i][0])
                && !is_white_space(lines[i].last()),
    ensures
        lines_unpadded(tidy_lines(lines).0),
        tidy_lines(lines).0.len() > 0 ==> tidy_lines(lines).0.last() == '\n',
    decreases lines.len(),
{
    if lines.len() > 0 {
        let init = lines.drop_last();
        assert forall|i: int, j: int|
            0 <= i < init.len() && 0 <= j < init[i].len() implies #[trigger] init[i][j] != '\n' by {
            assert(init[i] == lines[i]);
        }
        assert forall|i: int| 0 <= i < init.len() && #[trigger] init[i].len() > 0 implies !is_white_space(
            init[i][0],
        ) && !is_white_space(init[i].last()) by {
            assert(init[i] == lines[i]);
        }
        lemma_tidy_lines_unpadded(init);
        let o1 = tidy_lines(init).0;
        let line = lines.last();
        assert(line == lines[lines.len() - 1]);
        let out = tidy_lines(lines).0;
        if line.len() == 0 {
            if !tidy_lines(init).1 {
                assert(out == o1.push('\n'));
                assert forall|i: int| 0 <= i < out.len() implies #[trigger] unpadded_at(out, i) by {
                    if i < o1.len() {
                        assert(unpadded_at(o1, i));
                        assert(out[i] == o1[i]);
                        if i > 0 {
                            assert(out[i - 1] == o1[i - 1]);
                        }
                        if i + 1 < o1.len() {
                            assert(out[i + 1] == o1[i + 1]);
                        }
                    } else if i > 0 {
                        assert(out[i - 1] == o1.last());
                    }
                }
            }
        } else {
            assert(out == o1 + line.push('\n'));
            assert forall|i: int| 0 <= i < out.len() implies #[trigger] unpadded_at(out, i) by {
                if i < o1.len() {
                    assert(unpadded_at(o1, i));
                    assert(out[i] == o1[i]);
                    if i > 0 {
                        assert(out[i - 1] == o1[i - 1]);
                    }
                    if i + 1 < o1.len() {
                        assert(out[i + 1] == o1[i + 1]);
                    } else {
                        assert(out[i + 1] == line[0]);
                    }
                } else if i < out.len() - 1 {
                    assert(out[i] == line[i - o1.len()]);
                    assert(line[i - o1.len()] != '\n');
                } else {
                    assert(out[i - 1] == line.last());
                }
            }
        }
    }
}

/// The Markdown is tidy: it holds no three line breaks in a row (runs of
/// empty lines are collapsed into one), it neither starts nor ends with
/// whitespace, and every line of it is trimmed.
pub proof fn lemma_markdown_is_tidy(source: Seq<char>)
    ensures
        no_blank_run(markdown_spec(source)),
        markdown_spec(source).len() > 0 ==> !is_white_space(markdown_spec(source)[0])
            && !is_white_space(markdown_spec(source).last()),
        forall|i: int|
            0 <= i < lines_of(markdown_spec(source)).len() ==> trim(
                #[trigger] lines_of(markdown_spec(source))[i],
            ) == lines_of(markdown_spec(source))[i],
{
    let raw = raw_text_spec(source);
    let ls = lines_of(raw);
    lemma_lines_without_newline(raw);
    let tl = ls.map_values(|l: Seq<char>| trim(l));
    assert forall|i: int, j: int|
        0 <= i < tl.len() && 0 <= j < tl[i].len() implies #[trigger] tl[i][j] != '\n' by {
        let (a, b) = lemma_trim_range(ls[i]);
        assert(tl[i] == ls[i].subrange(a, b));
        assert(tl[i][j] == ls[i][a + j]);
    }
    lemma_tidy_lines_no_blank_run(tl);
    let out = tidy_lines(tl).0;
    let (a, b) = lemma_trim_range(out);
    let md = markdown_spec(source);
    assert(md == out.subrange(a, b));
    assert forall|i: int| 0 <= i && i + 2 < md.len() implies !(#[trigger] md[i] == '\n' && md[i
        + 1] == '\n' && md[i + 2] == '\n') by {
        assert(md[i] == out[a + i] && md[i + 1] == out[a + i + 1] && md[i + 2] == out[a + i + 2]);
    }
    assert forall|i: int| 0 <= i < tl.len() && #[trigger] tl[i].len() > 0 implies !is_white_space(
        tl[i][0],
    ) && !is_white_space(tl[i].last()) by {
        lemma_trim_range(ls[i]);
    }
    lemma_tidy_lines_unpadded(tl);
    assert forall|i: int| 0 <= i < md.len() implies #[trigger] unpadded_at(md, i) by {
        assert(unpadded_at(out, a + i));
        assert(md[i] == out[a + i]);
        if i > 0 {
            assert(md[i - 1] == out[a + i - 1]);
        }
        if i + 1 < md.len() {
            assert(md[i + 1] == out[a + i + 1]);
        }
    }
    lemma_lines_trimmed(md);
}

/// Collapses runs of empty lines in trimmed lines and trims the result.
fn tidy(lines: &Vec<Vec<char>>) -> (s: String)
    ensures
        s@ == trim(tidy_lines(lines@.map_values(|l: Vec<char>| trim(l@))).0),
{
    let ghost tl = lines@.map_values(|l: Vec<char>| trim(l@));
    let mut result = String::new();
    let mut prev_empty = false;
    let mut i: usize = 0;
    while i < lines.len()
        invariant
            i <= lines@.len(),
            tl == lines@.map_values(|l: Vec<char>| trim(l@)),
            tidy_lines(tl.take(i as int)) == (result@, prev_empty),
        decreases lines@.len() - i,
    {
        assert(tl.take(i + 1).drop_last() == tl.take(i as int));
        assert(tl.take(i + 1).last() == trim(lines@[i as int]@));
        let line = trim_chars(lines[i].as_slice());
        if line.len() == 0 {
            if !prev_empty {
                push_char(&mut result, '\n');
                prev_empty = true;
            }
        } else {
            push_chars(&mut result, line.as_slice());
            push_char(&mut result, '\n');
            prev_empty = false;
        }
        i += 1;
    }
    assert(tl.take(lines@.len() as int) == tl);
    let c = chars_of(result.as_str());
    let t = trim_chars(c.as_slice());
    string_of(t.as_slice())
}

/// The Markdown rendering of a document: headings, paragraphs, list items
/// and links.
fn html_to_markdown(doc: &HtmlDocument) -> (s: String)
    ensures
        s@ == markdown_spec(doc@),
{
    let bodies = select(doc, "body");
    let raw = if bodies.len() > 0 {
        collect_text(&bodies[0])
    } else {
        let roots = select(doc, ":root");
        if roots.len() > 0 {
            joined_text(&roots[0])
        } else {
            String::new()
        }
    };
    assert(raw@ == raw_text_spec(doc@));
    let c = chars_of(raw.as_str());
    let lines = lines_chars(c.as_slice());
    let ghost want = lines_of(raw@);
    assert(lines@.map_values(|l: Vec<char>| trim(l@)) =~= want.map_values(|l: Seq<char>| trim(l)));
    tidy(&lines)
}

// ---------------------------------------------------------------------------
// Extraction
// ---------------------------------------------------------------------------

/// Extracts title, Markdown, links and metadata from an HTML page; relative
/// links are resolved against `base_url` when the `url` crate accepts it.
pub fn extract(html: &str, base_url: &str) -> (ex: Extracted)
    ensures
        opt_view(ex.title) == title_spec(html@),
        ex.markdown@ == markdown_spec(html@),
        strings_view(ex.links@) == links_spec(
            selection(html@, "a[href]"@),
            url_parse_result(base_url@),
        ),
        metadata_matches(ex.metadata, html@),
{
    let doc = parse_html(html);
    let base = parse_url(base_url);
    let title = extract_title(&doc);
    let metadata = extract_metadata(&doc);
    let links = match &base {
        Ok(b) => extract_links(&doc, Some(b)),
        Err(_) => extract_links(&doc, None),
    };
    let markdown = html_to_markdown(&doc);
    Extracted { title, markdown, links, metadata }
}

} // verus!

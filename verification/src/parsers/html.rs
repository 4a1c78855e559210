//! HTML: the document is parsed with scraper (html5ever); the main content
//! container (`<article>`, else `<main>`, else `<body>`) is walked: block
//! elements become blocks, inline elements inline runs, boilerplate elements
//! (`<script>`, `<nav>`, …) are skipped.

use vstd::prelude::*;
use crate::parsers::html_source::{parse_document, root_element, select_first, traverse, HtmlDoc};
use crate::error::{ParseError, ParseErrorV};
use crate::ir::{
    blocks_view, inlines_view, list_items_view, Block, BlockV, Document, DocumentMetadata,
    DocumentV, ImageData, ImageDataV, Inline, InlineV, ListItem, ListItemV, MetadataV, NestedList,
    NestedListV, SourceFormat, Table, TableV,
};
use crate::media::{ascii_lower, ascii_lowercase};
use crate::parsers::common::{inlines_plain, plain_text};
use crate::strs::{trim_end, trim_end_ws_len, trim_start};
use crate::text::{
    chars_of, collapse, collapse_ws, has_prefix, is_blank, is_blank_str, is_whitespace, is_ws,
    lemma_utf8_bom_prefix, push_char, starts_with_str, str_eq, string_of, strip_bom, strip_bom_str, sub_chars,
    utf8_bom,
};
use crate::registry::{parse_result_view, FormatParser};
use vstd::utf8::{decode_utf8, valid_utf8};

verus! {

#[verifier::external_type_specification]
#[verifier::external_body]
pub struct ExHtml(scraper::Html);

#[verifier::external_type_specification]
#[verifier::external_body]
pub struct ExElementRef<'a>(scraper::ElementRef<'a>);

// ── the document as events ──────────────────────────────────────

/// An element opened: its name and its `href`, `src`, `alt` and `class` attributes.
pub struct HTagV {
    pub name: Seq<char>,
    pub href: Option<Seq<char>>,
    pub src: Option<Seq<char>>,
    pub alt: Option<Seq<char>>,
    pub class: Option<Seq<char>>,
}

/// A step of a depth-first walk: a node opened (element, text, or another
/// kind of node) or the last opened node closed.
pub enum HtmlEvV {
    Element(HTagV),
    Text(Seq<char>),
    Other,
    Close,
}

/// Whether `Selector::parse(sel)` succeeds and selects an element of the document parsed from `src`.
pub uninterp spec fn html_has(src: Seq<char>, sel: Seq<char>) -> bool;

/// `traverse` of the first element selected by `sel` in the document parsed
/// from `src` (of the root element when `sel` is `None`): each open and close
/// edge in order.
pub uninterp spec fn html_subtree(src: Seq<char>, sel: Option<Seq<char>>) -> Seq<HtmlEvV>;

/// `String::from_utf8_lossy` of the bytes.
pub uninterp spec fn utf8_lossy(bytes: Seq<u8>) -> Seq<char>;

/// The text of the bytes as `String::from_utf8_lossy` gives it: their UTF-8
/// decoding when they are valid UTF-8, else with invalid sequences replaced.
pub open spec fn lossy_text(bytes: Seq<u8>) -> Seq<char> {
    if valid_utf8(bytes) {
        decode_utf8(bytes)
    } else {
        utf8_lossy(bytes)
    }
}

/// `String::from_utf8_lossy`: valid UTF-8 decodes as it is (the documented
/// borrowed case); otherwise the result is the named replacement decoding.
#[verifier::external_body]
pub fn decode_lossy(bytes: &[u8]) -> (r: String)
    ensures
        valid_utf8(bytes@) ==> r@ == decode_utf8(bytes@),
        !valid_utf8(bytes@) ==> r@ == utf8_lossy(bytes@),
{
    String::from_utf8_lossy(bytes).into_owned()
}

pub struct HtmlEvTag {
    pub name: String,
    pub attrs: [Option<String>; 4],
}

pub enum HtmlEv {
    Element(String, [Option<String>; 4]),
    Text(String),
    Other,
    Close,
}

pub open spec fn opt_view(o: Option<String>) -> Option<Seq<char>> {
    crate::ir::opt_str_view(o)
}

pub open spec fn html_ev_view(e: HtmlEv) -> HtmlEvV {
    match e {
        HtmlEv::Element(name, a) => HtmlEvV::Element(HTagV {
            name: name@,
            href: opt_view(a@[0]),
            src: opt_view(a@[1]),
            alt: opt_view(a@[2]),
            class: opt_view(a@[3]),
        }),
        HtmlEv::Text(t) => HtmlEvV::Text(t@),
        HtmlEv::Other => HtmlEvV::Other,
        HtmlEv::Close => HtmlEvV::Close,
    }
}

pub open spec fn html_evs_view(s: Seq<HtmlEv>) -> Seq<HtmlEvV> {
    s.map_values(|e: HtmlEv| html_ev_view(e))
}

// ── the tree ────────────────────────────────────────────────────

pub enum HNodeV {
    Element { tag: HTagV, children: Seq<HNodeV> },
    Text(Seq<char>),
    Other,
}

pub enum HNode {
    Element { name: String, attrs: [Option<String>; 4], children: Vec<HNode> },
    Text(String),
    Other,
}

pub open spec fn hnode_view(n: HNode) -> HNodeV
    decreases n,
{
    match n {
        HNode::Element { name, attrs, children } => HNodeV::Element {
            tag: HTagV {
                name: name@,
                href: opt_view(attrs@[0]),
                src: opt_view(attrs@[1]),
                alt: opt_view(attrs@[2]),
                class: opt_view(attrs@[3]),
            },
            children: hnodes_view(children@),
        },
        HNode::Text(t) => HNodeV::Text(t@),
        HNode::Other => HNodeV::Other,
    }
}

pub open spec fn hnodes_view(s: Seq<HNode>) -> Seq<HNodeV>
    decreases s,
{
    if s.len() == 0 {
        Seq::empty()
    } else {
        hnodes_view(s.drop_last()).push(hnode_view(s.last()))
    }
}

pub proof fn lemma_hnodes_view(s: Seq<HNode>)
    ensures
        hnodes_view(s).len() == s.len(),
        forall|i: int| 0 <= i < s.len() ==> hnodes_view(s)[i] == hnode_view(#[trigger] s[i]),
    decreases s.len(),
{
    if s.len() > 0 {
        lemma_hnodes_view(s.drop_last());
        assert forall|i: int| 0 <= i < s.len() implies hnodes_view(s)[i] == hnode_view(#[trigger] s[i]) by {
            if i < s.len() - 1 {
                assert(s.drop_last()[i] == s[i]);
            }
        }
    }
}

proof fn lemma_hnodes_view_take(s: Seq<HNode>, k: int)
    requires
        0 <= k <= s.len(),
    ensures
        hnodes_view(s.take(k)) == hnodes_view(s).take(k),
{
    lemma_hnodes_view(s);
    lemma_hnodes_view(s.take(k));
    assert forall|i: int| 0 <= i < k implies hnodes_view(s.take(k))[i] == hnodes_view(s).take(k)[i] by {
        assert(s.take(k)[i] == s[i]);
    }
    assert(hnodes_view(s.take(k)) =~= hnodes_view(s).take(k));
}

/// The number of nodes of a forest.
pub open spec fn nodes_size(ns: Seq<HNodeV>) -> nat
    decreases ns,
{
    if ns.len() == 0 {
        0
    } else {
        nodes_size(ns.drop_last()) + match ns.last() {
            HNodeV::Element { children, .. } => 1 + nodes_size(children),
            _ => 1,
        }
    }
}

pub open spec fn node_size(n: HNodeV) -> nat {
    match n {
        HNodeV::Element { children, .. } => 1 + nodes_size(children),
        _ => 1,
    }
}

proof fn lemma_size_prefix(ns: Seq<HNodeV>, k: int)
    requires
        0 <= k < ns.len(),
    ensures
        nodes_size(ns.take(k + 1)) == nodes_size(ns.take(k)) + node_size(ns[k]),
        nodes_size(ns.take(k + 1)) <= nodes_size(ns),
    decreases ns.len() - k,
{
    assert(ns.take(k + 1).drop_last() =~= ns.take(k));
    if k + 1 < ns.len() {
        lemma_size_prefix(ns, k + 1);
    } else {
        assert(ns.take(k + 1) =~= ns);
    }
}

/// The state of building the tree from the walk: finished top-level nodes
/// and the open nodes with their children so far.
pub struct BuildV {
    pub roots: Seq<HNodeV>,
    pub stack: Seq<(HtmlEvV, Seq<HNodeV>)>,
}

pub open spec fn make_node(open: HtmlEvV, kids: Seq<HNodeV>) -> HNodeV {
    match open {
        HtmlEvV::Element(tag) => HNodeV::Element { tag, children: kids },
        HtmlEvV::Text(t) => HNodeV::Text(t),
        _ => HNodeV::Other,
    }
}

pub open spec fn build_step(b: BuildV, ev: HtmlEvV) -> BuildV {
    match ev {
        HtmlEvV::Close => if b.stack.len() == 0 {
            b
        } else {
            let top = b.stack.last();
            let n = make_node(top.0, top.1);
            let rest = b.stack.drop_last();
            if rest.len() > 0 {
                BuildV { roots: b.roots, stack: rest.update(rest.len() - 1, (rest.last().0, rest.last().1.push(n))) }
            } else {
                BuildV { roots: b.roots.push(n), stack: rest }
            }
        },
        _ => BuildV { roots: b.roots, stack: b.stack.push((ev, Seq::empty())) },
    }
}

pub open spec fn build_fold(evs: Seq<HtmlEvV>) -> BuildV
    decreases evs.len(),
{
    if evs.len() == 0 {
        BuildV { roots: Seq::empty(), stack: Seq::empty() }
    } else {
        build_step(build_fold(evs.drop_last()), evs.last())
    }
}

/// The nodes a walk describes.
pub open spec fn build_tree(evs: Seq<HtmlEvV>) -> Seq<HNodeV> {
    build_fold(evs).roots
}

spec fn stack_view(s: Seq<(HtmlEv, Vec<HNode>)>) -> Seq<(HtmlEvV, Seq<HNodeV>)> {
    s.map_values(|p: (HtmlEv, Vec<HNode>)| (html_ev_view(p.0), hnodes_view(p.1@)))
}

fn make_node_exec(open: HtmlEv, kids: Vec<HNode>) -> (n: HNode)
    ensures
        hnode_view(n) == make_node(html_ev_view(open), hnodes_view(kids@)),
{
    match open {
        HtmlEv::Element(name, attrs) => HNode::Element { name, attrs, children: kids },
        HtmlEv::Text(t) => HNode::Text(t),
        _ => HNode::Other,
    }
}

fn push_node(v: &mut Vec<HNode>, n: HNode)
    ensures
        hnodes_view(final(v)@) == hnodes_view(old(v)@).push(hnode_view(n)),
{
    v.push(n);
    assert(final(v)@.drop_last() =~= old(v)@);
}

fn copy_attrs(a: &[Option<String>; 4]) -> (r: [Option<String>; 4])
    ensures
        forall|k: int| 0 <= k < 4 ==> opt_view(#[trigger] r@[k]) == opt_view(a@[k]),
{
    let r = [
        crate::ir::copy_opt_string(&a[0]),
        crate::ir::copy_opt_string(&a[1]),
        crate::ir::copy_opt_string(&a[2]),
        crate::ir::copy_opt_string(&a[3]),
    ];
    assert(r@[0] == r[0] && r@[1] == r[1] && r@[2] == r[2] && r@[3] == r[3]);
    r
}

fn copy_ev(e: &HtmlEv) -> (r: HtmlEv)
    ensures
        html_ev_view(r) == html_ev_view(*e),
{
    match e {
        HtmlEv::Element(name, attrs) => {
            let a = copy_attrs(attrs);
            HtmlEv::Element(name.clone(), a)
        },
        HtmlEv::Text(t) => HtmlEv::Text(t.clone()),
        HtmlEv::Other => HtmlEv::Other,
        HtmlEv::Close => HtmlEv::Close,
    }
}

/// [`build_tree`] computed.
pub fn build_nodes(evs: &Vec<HtmlEv>) -> (r: Vec<HNode>)
    ensures
        hnodes_view(r@) == build_tree(html_evs_view(evs@)),
{
    let ghost ev = html_evs_view(evs@);
    let mut roots: Vec<HNode> = Vec::new();
    let mut stack: Vec<(HtmlEv, Vec<HNode>)> = Vec::new();
    assert(hnodes_view(roots@) =~= Seq::<HNodeV>::empty());
    assert(stack_view(stack@) =~= Seq::<(HtmlEvV, Seq<HNodeV>)>::empty());
    assert(ev.take(0) =~= Seq::<HtmlEvV>::empty());
    let mut i: usize = 0;
    while i < evs.len()
        invariant
            i <= evs@.len(),
            ev == html_evs_view(evs@),
            build_fold(ev.take(i as int)) == (BuildV { roots: hnodes_view(roots@), stack: stack_view(stack@) }),
        decreases evs@.len() - i,
    {
        let e = copy_ev(&evs[i]);
        assert(html_ev_view(e) == ev[i as int]);
        assert(ev.take(i + 1).drop_last() =~= ev.take(i as int));
        let ghost b = build_fold(ev.take(i as int));
        match e {
            HtmlEv::Close => {
                if stack.len() > 0 {
                    let (open, kids) = match stack.pop() {
                        Some(p) => p,
                        None => {
                            assert(false);
                            (HtmlEv::Other, Vec::new())
                        },
                    };
                    assert(stack_view(stack@) =~= b.stack.drop_last());
                    let node = make_node_exec(open, kids);
                    if stack.len() > 0 {
                        let (o2, mut k2) = match stack.pop() {
                            Some(p) => p,
                            None => {
                                assert(false);
                                (HtmlEv::Other, Vec::new())
                            },
                        };
                        push_node(&mut k2, node);
                        stack.push((o2, k2));
                        assert(stack_view(stack@) =~= b.stack.drop_last().update(
                            b.stack.drop_last().len() - 1,
                            (b.stack.drop_last().last().0, b.stack.drop_last().last().1.push(hnode_view(node))),
                        ));
                    } else {
                        push_node(&mut roots, node);
                    }
                }
            },
            _ => {
                let ghost ov = html_ev_view(e);
                let kids: Vec<HNode> = Vec::new();
                assert(hnodes_view(kids@) =~= Seq::<HNodeV>::empty());
                stack.push((e, kids));
                assert(stack_view(stack@) =~= b.stack.push((ov, Seq::<HNodeV>::empty())));
            },
        }
        i = i + 1;
    }
    assert(ev.take(evs@.len() as int) =~= ev);
    roots
}


// ── element classes ─────────────────────────────────────────────

pub open spec fn is_inline_name(n: Seq<char>) -> bool {
    n == "b"@ || n == "strong"@ || n == "i"@ || n == "em"@ || n == "del"@ || n == "s"@ || n == "strike"@
        || n == "code"@ || n == "a"@ || n == "br"@ || n == "span"@ || n == "u"@ || n == "mark"@ || n == "sub"@
        || n == "sup"@ || n == "small"@ || n == "font"@ || n == "abbr"@ || n == "cite"@ || n == "q"@ || n == "time"@
}

pub open spec fn is_skipped_name(n: Seq<char>) -> bool {
    n == "script"@ || n == "style"@ || n == "noscript"@ || n == "template"@ || n == "nav"@ || n == "header"@
        || n == "footer"@ || n == "aside"@ || n == "head"@
}

fn is_inline_name_exec(n: &str) -> (r: bool)
    ensures
        r == is_inline_name(n@),
{
    str_eq(n, "b") || str_eq(n, "strong") || str_eq(n, "i") || str_eq(n, "em") || str_eq(n, "del") || str_eq(n, "s")
        || str_eq(n, "strike") || str_eq(n, "code") || str_eq(n, "a") || str_eq(n, "br") || str_eq(n, "span")
        || str_eq(n, "u") || str_eq(n, "mark") || str_eq(n, "sub") || str_eq(n, "sup") || str_eq(n, "small")
        || str_eq(n, "font") || str_eq(n, "abbr") || str_eq(n, "cite") || str_eq(n, "q") || str_eq(n, "time")
}

fn is_skipped_name_exec(n: &str) -> (r: bool)
    ensures
        r == is_skipped_name(n@),
{
    str_eq(n, "script") || str_eq(n, "style") || str_eq(n, "noscript") || str_eq(n, "template") || str_eq(n, "nav")
        || str_eq(n, "header") || str_eq(n, "footer") || str_eq(n, "aside") || str_eq(n, "head")
}

// ── text ────────────────────────────────────────────────────────

/// The text of a forest: its text nodes in document order (`ElementRef::text`).
pub open spec fn nodes_text(ns: Seq<HNodeV>) -> Seq<char>
    decreases nodes_size(ns),
{
    if ns.len() == 0 {
        Seq::empty()
    } else {
        nodes_text(ns.drop_last()) + match ns.last() {
            HNodeV::Text(t) => t,
            HNodeV::Element { children, .. } => nodes_text(children),
            HNodeV::Other => Seq::empty(),
        }
    }
}

proof fn lemma_child_smaller(ns: Seq<HNode>, i: int)
    requires
        0 <= i < ns.len(),
        ns[i] is Element,
    ensures
        nodes_size(hnodes_view(ns[i]->Element_children@)) < nodes_size(hnodes_view(ns)),
        hnodes_view(ns.take(i + 1)) == hnodes_view(ns.take(i)).push(hnode_view(ns[i])),
{
    lemma_hnodes_view(ns);
    lemma_size_prefix(hnodes_view(ns), i);
    lemma_hnodes_view_take(ns, i);
    lemma_hnodes_view_take(ns, i + 1);
    assert(hnodes_view(ns).take(i + 1) =~= hnodes_view(ns).take(i).push(hnodes_view(ns)[i]));
}

fn nodes_text_exec(ns: &Vec<HNode>, out: &mut String)
    ensures
        final(out)@ == old(out)@ + nodes_text(hnodes_view(ns@)),
    decreases nodes_size(hnodes_view(ns@)),
{
    let ghost hv = hnodes_view(ns@);
    let mut i: usize = 0;
    proof {
        lemma_hnodes_view_take(ns@, 0);
    }
    assert(hv.take(0) =~= Seq::<HNodeV>::empty());
    while i < ns.len()
        invariant
            i <= ns@.len(),
            hv == hnodes_view(ns@),
            out@ == old(out)@ + nodes_text(hnodes_view(ns@.take(i as int))),
        decreases ns@.len() - i,
    {
        proof {
            lemma_hnodes_view_take(ns@, i as int);
            lemma_hnodes_view_take(ns@, i + 1);
            lemma_hnodes_view(ns@);
        }
        let ghost pre = hnodes_view(ns@.take(i as int));
        let ghost cur = hnodes_view(ns@.take(i + 1));
        assert(cur.drop_last() =~= pre);
        match &ns[i] {
            HNode::Text(t) => {
                out.append(t.as_str());
            },
            HNode::Element { children, .. } => {
                proof {
                    lemma_child_smaller(ns@, i as int);
                }
                nodes_text_exec(children, out);
            },
            HNode::Other => {},
        }
        assert(out@ =~= old(out)@ + nodes_text(cur));
        i = i + 1;
    }
    assert(ns@.take(ns@.len() as int) =~= ns@);
}

fn nodes_text_of(ns: &Vec<HNode>) -> (r: String)
    ensures
        r@ == nodes_text(hnodes_view(ns@)),
{
    let mut s = String::new();
    nodes_text_exec(ns, &mut s);
    s
}

// ── inline runs ─────────────────────────────────────────────────

/// Text of a text node: whitespace runs collapse to one space; a leading
/// space is kept when something precedes, a trailing one always; blank text
/// is one space when something precedes.
pub open spec fn push_text_spec(out: Seq<InlineV>, t: Seq<char>) -> Seq<InlineV> {
    if t.len() == 0 {
        out
    } else {
        let core = collapse(t);
        if core.len() == 0 {
            if out.len() > 0 { out.push(InlineV::Text(" "@)) } else { out }
        } else {
            let lead = if is_ws(t[0]) && out.len() > 0 { " "@ } else { Seq::empty() };
            let trail = if is_ws(t.last()) { " "@ } else { Seq::empty() };
            out.push(InlineV::Text(lead + core + trail))
        }
    }
}

fn push_text_exec(out: &mut Vec<Inline>, t: &str)
    ensures
        inlines_view(final(out)@) == push_text_spec(inlines_view(old(out)@), t@),
{
    proof {
        reveal_strlit(" ");
    }
    let cs = chars_of(t);
    if cs.len() == 0 {
        return;
    }
    let core = collapse_ws(t);
    let ghost before = inlines_view(out@);
    if core.as_str().is_empty() {
        if out.len() > 0 {
            out.push(Inline::Text(" ".to_owned()));
            assert(inlines_view(out@) =~= before.push(InlineV::Text(" "@)));
        }
        return;
    }
    let mut s = String::new();
    if is_whitespace(cs[0]) && out.len() > 0 {
        push_char(&mut s, ' ');
    }
    s.append(core.as_str());
    if is_whitespace(cs[cs.len() - 1]) {
        push_char(&mut s, ' ');
    }
    let ghost lead = if is_ws(t@[0]) && out@.len() > 0 { " "@ } else { Seq::<char>::empty() };
    let ghost trail = if is_ws(t@.last()) { " "@ } else { Seq::<char>::empty() };
    assert(s@ =~= lead + core@ + trail);
    out.push(Inline::Text(s));
    assert(inlines_view(out@) =~= push_text_spec(before, t@));
}

/// Which formatting an inline element adds.
#[derive(Debug, Clone, Copy, PartialEq, Eq, Structural)]
pub enum Wrap {
    Bold,
    Italic,
    Strike,
}

pub open spec fn wrap_one(i: InlineV, w: Wrap) -> InlineV {
    match w {
        Wrap::Bold => InlineV::Bold(Box::new(i)),
        Wrap::Italic => InlineV::Italic(Box::new(i)),
        Wrap::Strike => InlineV::Strike(Box::new(i)),
    }
}

/// Each run wrapped on its own.
pub open spec fn wrap_all(inner: Seq<InlineV>, w: Wrap) -> Seq<InlineV> {
    inner.map_values(|i: InlineV| wrap_one(i, w))
}

pub open spec fn wrap_of(n: Seq<char>) -> Option<Wrap> {
    if n == "b"@ || n == "strong"@ {
        Some(Wrap::Bold)
    } else if n == "i"@ || n == "em"@ {
        Some(Wrap::Italic)
    } else if n == "del"@ || n == "s"@ || n == "strike"@ {
        Some(Wrap::Strike)
    } else {
        None
    }
}

/// The inline runs of a forest, added to `out`.
pub open spec fn collect_spec(ns: Seq<HNodeV>, out: Seq<InlineV>) -> Seq<InlineV>
    decreases nodes_size(ns),
{
    if ns.len() == 0 {
        out
    } else {
        let o = collect_spec(ns.drop_last(), out);
        match ns.last() {
            HNodeV::Text(t) => push_text_spec(o, t),
            HNodeV::Element { tag, children } => {
                let n = tag.name;
                if is_skipped_name(n) {
                    o
                } else if wrap_of(n) is Some {
                    o + wrap_all(collect_spec(children, Seq::empty()), wrap_of(n)->0)
                } else if n == "code"@ {
                    let c = nodes_text(children);
                    if c.len() > 0 { o.push(InlineV::Code(c)) } else { o }
                } else if n == "a"@ {
                    let text = collapse(nodes_text(children));
                    let url = match tag.href {
                        Some(u) => u,
                        None => Seq::empty(),
                    };
                    if text.len() > 0 { o.push(InlineV::Link { text, url }) } else { o }
                } else if n == "br"@ {
                    o.push(InlineV::LineBreak)
                } else {
                    collect_spec(children, o)
                }
            },
            HNodeV::Other => o,
        }
    }
}

fn wrap_of_exec(n: &str) -> (r: Option<Wrap>)
    ensures
        r == wrap_of(n@),
{
    if str_eq(n, "b") || str_eq(n, "strong") {
        Some(Wrap::Bold)
    } else if str_eq(n, "i") || str_eq(n, "em") {
        Some(Wrap::Italic)
    } else if str_eq(n, "del") || str_eq(n, "s") || str_eq(n, "strike") {
        Some(Wrap::Strike)
    } else {
        None
    }
}

fn wrap_exec(i: Inline, w: Wrap) -> (r: Inline)
    ensures
        r@ == wrap_one(i@, w),
{
    match w {
        Wrap::Bold => Inline::Bold(Box::new(i)),
        Wrap::Italic => Inline::Italic(Box::new(i)),
        Wrap::Strike => Inline::Strike(Box::new(i)),
    }
}

fn wrap_all_exec(inner: Vec<Inline>, out: &mut Vec<Inline>, w: Wrap)
    ensures
        inlines_view(final(out)@) == inlines_view(old(out)@) + wrap_all(inlines_view(inner@), w),
{
    let ghost iv = inlines_view(inner@);
    let ghost base = inlines_view(out@);
    let mut inner = inner;
    let ghost n = iv.len();
    assert(n == inner.len());
    let mut k: usize = 0;
    assert(iv.skip(0) =~= iv);
    assert(wrap_all(iv.take(0), w) =~= Seq::<InlineV>::empty());
    assert(base + Seq::<InlineV>::empty() =~= base);
    while inner.len() > 0
        invariant
            k <= n,
            n == iv.len(),
            n <= usize::MAX,
            k + inner@.len() == n,
            inlines_view(inner@) == iv.skip(k as int),
            inlines_view(out@) == base + wrap_all(iv.take(k as int), w),
        decreases inner@.len(),
    {
        assert(inner@.len() == iv.skip(k as int).len());
        let ghost old_in = inner@;
        let x = inner.remove(0);
        assert(inner@ =~= old_in.subrange(1, old_in.len() as int));
        assert(inlines_view(old_in)[0] == iv.skip(k as int)[0]);
        assert(x@ == iv[k as int]);
        assert forall|j: int| 0 <= j < inner@.len() implies inlines_view(inner@)[j] == iv.skip(k + 1)[j] by {
            assert(inner@[j] == old_in[j + 1]);
            assert(inlines_view(old_in)[j + 1] == iv.skip(k as int)[j + 1]);
        }
        assert(inlines_view(inner@) =~= iv.skip(k + 1));
        let ghost before = inlines_view(out@);
        let y = wrap_exec(x, w);
        out.push(y);
        assert(inlines_view(out@) =~= before.push(y@));
        assert(iv.take(k + 1) =~= iv.take(k as int).push(iv[k as int]));
        assert(wrap_all(iv.take(k + 1), w) =~= wrap_all(iv.take(k as int), w).push(wrap_one(iv[k as int], w)));
        assert(y@ == wrap_one(iv[k as int], w));
        assert(inlines_view(out@) =~= base + wrap_all(iv.take(k + 1), w));
        k = k + 1;
    }
    assert(iv.take(k as int) =~= iv);
}

fn collect_exec(ns: &Vec<HNode>, out: &mut Vec<Inline>)
    ensures
        inlines_view(final(out)@) == collect_spec(hnodes_view(ns@), inlines_view(old(out)@)),
    decreases nodes_size(hnodes_view(ns@)),
{
    let mut i: usize = 0;
    assert(ns@.take(0) =~= Seq::<HNode>::empty());
    while i < ns.len()
        invariant
            i <= ns@.len(),
            inlines_view(out@) == collect_spec(hnodes_view(ns@.take(i as int)), inlines_view(old(out)@)),
        decreases ns@.len() - i,
    {
        proof {
            lemma_hnodes_view_take(ns@, i as int);
            lemma_hnodes_view_take(ns@, i + 1);
            lemma_hnodes_view(ns@);
        }
        let ghost pre = hnodes_view(ns@.take(i as int));
        let ghost cur = hnodes_view(ns@.take(i + 1));
        assert(cur.drop_last() =~= pre);
        match &ns[i] {
            HNode::Text(t) => push_text_exec(out, t.as_str()),
            HNode::Element { name, attrs, children } => {
                proof {
                    lemma_child_smaller(ns@, i as int);
                }
                if is_skipped_name_exec(name.as_str()) {
                } else {
                    match wrap_of_exec(name.as_str()) {
                        Some(w) => {
                            let mut inner: Vec<Inline> = Vec::new();
                            assert(inlines_view(inner@) =~= Seq::<InlineV>::empty());
                            collect_exec(children, &mut inner);
                            wrap_all_exec(inner, out, w);
                        },
                        None => {
                            if str_eq(name.as_str(), "code") {
                                let c = nodes_text_of(children);
                                if !c.as_str().is_empty() {
                                    let ghost before = inlines_view(out@);
                                    let ghost cv = c@;
                                    out.push(Inline::Code(c));
                                    assert(inlines_view(out@) =~= before.push(InlineV::Code(cv)));
                                }
                            } else if str_eq(name.as_str(), "a") {
                                let raw = nodes_text_of(children);
                                let text = collapse_ws(raw.as_str());
                                let url = match &attrs[0] {
                                    Some(u) => u.clone(),
                                    None => String::new(),
                                };
                                assert(opt_view(attrs@[0]) == opt_view(attrs[0]));
                                if !text.as_str().is_empty() {
                                    let ghost before = inlines_view(out@);
                                    let l = Inline::Link { text, url };
                                    out.push(l);
                                    assert(inlines_view(out@) =~= before.push(l@));
                                }
                            } else if str_eq(name.as_str(), "br") {
                                let ghost before = inlines_view(out@);
                                out.push(Inline::LineBreak);
                                assert(inlines_view(out@) =~= before.push(InlineV::LineBreak));
                            } else {
                                collect_exec(children, out);
                            }
                        },
                    }
                }
            },
            HNode::Other => {},
        }
        i = i + 1;
    }
    assert(ns@.take(ns@.len() as int) =~= ns@);
}


// ── lists ───────────────────────────────────────────────────────

/// The items of a list element's children: each `<li>` with its inline
/// content and its nested list; empty items are dropped.
pub open spec fn list_items_spec(ns: Seq<HNodeV>) -> Seq<ListItemV>
    decreases nodes_size(ns),
{
    if ns.len() == 0 {
        Seq::empty()
    } else {
        let items = list_items_spec(ns.drop_last());
        match ns.last() {
            HNodeV::Element { tag, children } => if tag.name == "li"@ {
                let p = li_spec(children);
                if !is_blank(inlines_plain(p.0)) || p.1 is Some {
                    items.push(ListItemV { content: p.0, sublist: p.1 })
                } else {
                    items
                }
            } else {
                items
            },
            _ => items,
        }
    }
}

/// The content of an `<li>`: text and elements as inline runs, a nested
/// `<ul>` / `<ol>` as its sublist (the last one wins).
pub open spec fn li_spec(ns: Seq<HNodeV>) -> (Seq<InlineV>, Option<NestedListV>)
    decreases nodes_size(ns),
{
    if ns.len() == 0 {
        (Seq::empty(), None)
    } else {
        let p = li_spec(ns.drop_last());
        match ns.last() {
            HNodeV::Text(t) => (push_text_spec(p.0, t), p.1),
            HNodeV::Element { tag, children } => if tag.name == "ul"@ || tag.name == "ol"@ {
                (p.0, Some(NestedListV { ordered: tag.name == "ol"@, items: list_items_spec(children) }))
            } else {
                (collect_spec(children, p.0), p.1)
            },
            HNodeV::Other => p,
        }
    }
}

fn list_items_exec(ns: &Vec<HNode>) -> (r: Vec<ListItem>)
    ensures
        list_items_view(r@) == list_items_spec(hnodes_view(ns@)),
    decreases nodes_size(hnodes_view(ns@)),
{
    let mut items: Vec<ListItem> = Vec::new();
    let mut i: usize = 0;
    assert(ns@.take(0) =~= Seq::<HNode>::empty());
    assert(list_items_view(items@) =~= Seq::<ListItemV>::empty());
    while i < ns.len()
        invariant
            i <= ns@.len(),
            list_items_view(items@) == list_items_spec(hnodes_view(ns@.take(i as int))),
        decreases ns@.len() - i,
    {
        proof {
            lemma_hnodes_view_take(ns@, i as int);
            lemma_hnodes_view_take(ns@, i + 1);
            lemma_hnodes_view(ns@);
        }
        let ghost pre = hnodes_view(ns@.take(i as int));
        let ghost cur = hnodes_view(ns@.take(i + 1));
        assert(cur.drop_last() =~= pre);
        match &ns[i] {
            HNode::Element { name, children, .. } => {
                proof {
                    lemma_child_smaller(ns@, i as int);
                }
                if str_eq(name.as_str(), "li") {
                    let (content, sublist) = li_exec(children);
                    let p = plain_text(&content);
                    if !is_blank_str(p.as_str()) || sublist.is_some() {
                        let item = ListItem { content, sublist };
                        proof {
                            crate::ir::lemma_list_items_view_push(items@, item);
                        }
                        items.push(item);
                    }
                }
            },
            _ => {},
        }
        i = i + 1;
    }
    assert(ns@.take(ns@.len() as int) =~= ns@);
    items
}

fn li_exec(ns: &Vec<HNode>) -> (r: (Vec<Inline>, Option<Box<NestedList>>))
    ensures
        inlines_view(r.0@) == li_spec(hnodes_view(ns@)).0,
        (match r.1 {
            Some(b) => Some(crate::ir::nested_list_view(*b)),
            None => None,
        }) == li_spec(hnodes_view(ns@)).1,
    decreases nodes_size(hnodes_view(ns@)),
{
    let mut content: Vec<Inline> = Vec::new();
    let mut sublist: Option<Box<NestedList>> = None;
    let mut i: usize = 0;
    assert(ns@.take(0) =~= Seq::<HNode>::empty());
    assert(inlines_view(content@) =~= Seq::<InlineV>::empty());
    while i < ns.len()
        invariant
            i <= ns@.len(),
            inlines_view(content@) == li_spec(hnodes_view(ns@.take(i as int))).0,
            (match sublist {
                Some(b) => Some(crate::ir::nested_list_view(*b)),
                None => None,
            }) == li_spec(hnodes_view(ns@.take(i as int))).1,
        decreases ns@.len() - i,
    {
        proof {
            lemma_hnodes_view_take(ns@, i as int);
            lemma_hnodes_view_take(ns@, i + 1);
            lemma_hnodes_view(ns@);
        }
        let ghost pre = hnodes_view(ns@.take(i as int));
        let ghost cur = hnodes_view(ns@.take(i + 1));
        assert(cur.drop_last() =~= pre);
        match &ns[i] {
            HNode::Text(t) => push_text_exec(&mut content, t.as_str()),
            HNode::Element { name, children, .. } => {
                proof {
                    lemma_child_smaller(ns@, i as int);
                }
                if str_eq(name.as_str(), "ul") || str_eq(name.as_str(), "ol") {
                    let items = list_items_exec(children);
                    let ordered = str_eq(name.as_str(), "ol");
                    sublist = Some(Box::new(NestedList { ordered, items }));
                } else {
                    collect_exec(children, &mut content);
                }
            },
            HNode::Other => {},
        }
        i = i + 1;
    }
    assert(ns@.take(ns@.len() as int) =~= ns@);
    (content, sublist)
}

// ── tables ──────────────────────────────────────────────────────

/// The cells of a row: its `<td>` and `<th>` children's collapsed text.
pub open spec fn row_cells(ns: Seq<HNodeV>) -> Seq<Seq<char>>
    decreases ns.len(),
{
    if ns.len() == 0 {
        Seq::empty()
    } else {
        let cells = row_cells(ns.drop_last());
        match ns.last() {
            HNodeV::Element { tag, children } => if tag.name == "td"@ || tag.name == "th"@ {
                cells.push(collapse(nodes_text(children)))
            } else {
                cells
            },
            _ => cells,
        }
    }
}

/// The non-empty rows of the `<tr>` elements of a forest, in document order
/// and at any depth.
pub open spec fn table_rows(ns: Seq<HNodeV>) -> Seq<Seq<Seq<char>>>
    decreases nodes_size(ns),
{
    if ns.len() == 0 {
        Seq::empty()
    } else {
        table_rows(ns.drop_last()) + match ns.last() {
            HNodeV::Element { tag, children } => {
                let own = if tag.name == "tr"@ && row_cells(children).len() > 0 {
                    seq![row_cells(children)]
                } else {
                    Seq::empty()
                };
                own + table_rows(children)
            },
            _ => Seq::empty(),
        }
    }
}

/// A table element's rows: the first is the header row; none makes no table.
pub open spec fn table_spec(children: Seq<HNodeV>) -> Option<TableV> {
    let rows = table_rows(children);
    if rows.len() == 0 {
        None
    } else {
        Some(TableV { headers: rows[0], rows: rows.drop_first(), caption: None })
    }
}

fn row_cells_exec(ns: &Vec<HNode>) -> (r: Vec<String>)
    ensures
        r.deep_view() == row_cells(hnodes_view(ns@)),
{
    let mut cells: Vec<String> = Vec::new();
    let mut i: usize = 0;
    assert(ns@.take(0) =~= Seq::<HNode>::empty());
    assert(cells.deep_view() =~= Seq::<Seq<char>>::empty());
    while i < ns.len()
        invariant
            i <= ns@.len(),
            cells.deep_view() == row_cells(hnodes_view(ns@.take(i as int))),
        decreases ns@.len() - i,
    {
        proof {
            lemma_hnodes_view_take(ns@, i as int);
            lemma_hnodes_view_take(ns@, i + 1);
            lemma_hnodes_view(ns@);
        }
        let ghost pre = hnodes_view(ns@.take(i as int));
        let ghost cur = hnodes_view(ns@.take(i + 1));
        assert(cur.drop_last() =~= pre);
        match &ns[i] {
            HNode::Element { name, children, .. } => {
                if str_eq(name.as_str(), "td") || str_eq(name.as_str(), "th") {
                    let raw = nodes_text_of(children);
                    let c = collapse_ws(raw.as_str());
                    let ghost before = cells.deep_view();
                    cells.push(c);
                    assert(cells.deep_view() =~= before.push(c@));
                }
            },
            _ => {},
        }
        i = i + 1;
    }
    assert(ns@.take(ns@.len() as int) =~= ns@);
    cells
}

fn table_rows_exec(ns: &Vec<HNode>, rows: &mut Vec<Vec<String>>)
    ensures
        final(rows).deep_view() == old(rows).deep_view() + table_rows(hnodes_view(ns@)),
    decreases nodes_size(hnodes_view(ns@)),
{
    let mut i: usize = 0;
    assert(ns@.take(0) =~= Seq::<HNode>::empty());
    assert(old(rows).deep_view() + Seq::<Seq<Seq<char>>>::empty() =~= old(rows).deep_view());
    while i < ns.len()
        invariant
            i <= ns@.len(),
            rows.deep_view() == old(rows).deep_view() + table_rows(hnodes_view(ns@.take(i as int))),
        decreases ns@.len() - i,
    {
        proof {
            lemma_hnodes_view_take(ns@, i as int);
            lemma_hnodes_view_take(ns@, i + 1);
            lemma_hnodes_view(ns@);
        }
        let ghost pre = hnodes_view(ns@.take(i as int));
        let ghost cur = hnodes_view(ns@.take(i + 1));
        assert(cur.drop_last() =~= pre);
        match &ns[i] {
            HNode::Element { name, children, .. } => {
                proof {
                    lemma_child_smaller(ns@, i as int);
                }
                let ghost before = rows.deep_view();
                if str_eq(name.as_str(), "tr") {
                    let cells = row_cells_exec(children);
                    if cells.len() > 0 {
                        let ghost cv = cells.deep_view();
                        rows.push(cells);
                        assert(rows.deep_view() =~= before.push(cv));
                    }
                }
                let ghost mid = rows.deep_view();
                table_rows_exec(children, rows);
                assert(rows.deep_view() =~= old(rows).deep_view() + table_rows(cur));
            },
            _ => {
                assert(rows.deep_view() =~= old(rows).deep_view() + table_rows(cur));
            },
        }
        i = i + 1;
    }
    assert(ns@.take(ns@.len() as int) =~= ns@);
}

fn table_exec(children: &Vec<HNode>) -> (r: Option<Table>)
    ensures
        match r {
            Some(t) => table_spec(hnodes_view(children@)) == Some(t@),
            None => table_spec(hnodes_view(children@)) is None,
        },
{
    let mut rows: Vec<Vec<String>> = Vec::new();
    assert(rows.deep_view() =~= Seq::<Seq<Seq<char>>>::empty());
    table_rows_exec(children, &mut rows);
    assert(rows.deep_view() =~= table_rows(hnodes_view(children@)));
    if rows.len() == 0 {
        return None;
    }
    let ghost rv = rows.deep_view();
    let headers = rows.remove(0);
    assert(rows.deep_view() =~= rv.drop_first());
    Some(Table { headers, rows, caption: None })
}

// ── code blocks ─────────────────────────────────────────────────

/// The `class` of the first `<code>` element of a forest in document order
/// (`None` when there is no such element).
pub open spec fn first_code_class(ns: Seq<HNodeV>) -> Option<Option<Seq<char>>>
    decreases nodes_size(ns),
{
    if ns.len() == 0 {
        None
    } else {
        match first_code_class(ns.drop_last()) {
            Some(c) => Some(c),
            None => match ns.last() {
                HNodeV::Element { tag, children } => if tag.name == "code"@ {
                    Some(tag.class)
                } else {
                    first_code_class(children)
                },
                _ => None,
            },
        }
    }
}

/// `str::split_whitespace`.
pub open spec fn words(s: Seq<char>) -> Seq<Seq<char>>
    decreases s.len(),
{
    if s.len() == 0 {
        Seq::empty()
    } else {
        let w = words(s.drop_last());
        let c = s.last();
        if is_ws(c) {
            w
        } else if s.len() >= 2 && !is_ws(s[s.len() - 2]) {
            w.update(w.len() - 1, w.last().push(c))
        } else {
            w.push(seq![c])
        }
    }
}

proof fn lemma_words_nonempty(s: Seq<char>)
    requires
        s.len() > 0,
        !is_ws(s.last()),
    ensures
        words(s).len() > 0,
    decreases s.len(),
{
    if s.len() >= 2 && !is_ws(s[s.len() - 2]) {
        assert(s.drop_last().last() == s[s.len() - 2]);
        lemma_words_nonempty(s.drop_last());
    }
}

/// The language of the first class word that starts with `language-` (or else `lang-`).
pub open spec fn first_lang(ws: Seq<Seq<char>>) -> Option<Seq<char>>
    decreases ws.len(),
{
    if ws.len() == 0 {
        None
    } else if has_prefix(ws[0], "language-"@) {
        Some(ws[0].skip(9))
    } else if has_prefix(ws[0], "lang-"@) {
        Some(ws[0].skip(5))
    } else {
        first_lang(ws.drop_first())
    }
}

/// A `<pre>` element: the language of its first `<code>` element's class, and its text without trailing whitespace.
pub open spec fn pre_spec(children: Seq<HNodeV>) -> (Option<Seq<char>>, Seq<char>) {
    let lang = match first_code_class(children) {
        Some(Some(c)) => first_lang(words(c)),
        _ => None,
    };
    (lang, trim_end(nodes_text(children)))
}

fn first_code_class_exec(ns: &Vec<HNode>) -> (r: Option<Option<String>>)
    ensures
        (match r {
            Some(c) => Some(opt_view(c)),
            None => None,
        }) == first_code_class(hnodes_view(ns@)),
    decreases nodes_size(hnodes_view(ns@)),
{
    let mut i: usize = 0;
    assert(ns@.take(0) =~= Seq::<HNode>::empty());
    while i < ns.len()
        invariant
            i <= ns@.len(),
            first_code_class(hnodes_view(ns@.take(i as int))) is None,
        decreases ns@.len() - i,
    {
        proof {
            lemma_hnodes_view_take(ns@, i as int);
            lemma_hnodes_view_take(ns@, i + 1);
            lemma_hnodes_view(ns@);
        }
        let ghost pre = hnodes_view(ns@.take(i as int));
        let ghost cur = hnodes_view(ns@.take(i + 1));
        assert(cur.drop_last() =~= pre);
        match &ns[i] {
            HNode::Element { name, attrs, children } => {
                proof {
                    lemma_child_smaller(ns@, i as int);
                }
                if str_eq(name.as_str(), "code") {
                    let c = crate::ir::copy_opt_string(&attrs[3]);
                    proof {
                        lemma_first_code_found(ns@, i as int);
                    }
                    return Some(c);
                }
                match first_code_class_exec(children) {
                    Some(c) => {
                        proof {
                            lemma_first_code_found(ns@, i as int);
                        }
                        return Some(c);
                    },
                    None => {},
                }
            },
            _ => {},
        }
        i = i + 1;
    }
    assert(ns@.take(ns@.len() as int) =~= ns@);
    None
}

proof fn lemma_first_code_found(ns: Seq<HNode>, i: int)
    requires
        0 <= i < ns.len(),
        first_code_class(hnodes_view(ns.take(i + 1))) is Some,
    ensures
        first_code_class(hnodes_view(ns)) == first_code_class(hnodes_view(ns.take(i + 1))),
    decreases ns.len() - i,
{
    if i + 1 < ns.len() {
        lemma_hnodes_view_take(ns, i + 2);
        lemma_hnodes_view_take(ns, i + 1);
        lemma_hnodes_view(ns);
        assert(hnodes_view(ns.take(i + 2)).drop_last() =~= hnodes_view(ns.take(i + 1)));
        lemma_first_code_found(ns, i + 1);
    } else {
        assert(ns.take(i + 1) =~= ns);
    }
}

fn words_exec(s: &str) -> (r: Vec<String>)
    ensures
        r.deep_view() == words(s@),
{
    let cs = chars_of(s);
    let mut out: Vec<String> = Vec::new();
    let mut i: usize = 0;
    assert(cs@.take(0) =~= Seq::<char>::empty());
    assert(out.deep_view() =~= Seq::<Seq<char>>::empty());
    while i < cs.len()
        invariant
            i <= cs@.len(),
            cs@ == s@,
            out.deep_view() == words(cs@.take(i as int)),
        decreases cs@.len() - i,
    {
        let c = cs[i];
        let ghost t = cs@.take(i + 1);
        assert(t.drop_last() =~= cs@.take(i as int));
        assert(t.last() == c);
        let ghost before = out.deep_view();
        if is_whitespace(c) {
        } else if i >= 1 && !is_whitespace(cs[i - 1]) {
            assert(t[t.len() - 2] == cs@[i - 1]);
            assert(cs@.take(i as int).last() == cs@[i - 1]);
            proof {
                lemma_words_nonempty(cs@.take(i as int));
            }
            let mut last = match out.pop() {
                Some(w) => w,
                None => {
                    assert(false);
                    String::new()
                },
            };
            push_char(&mut last, c);
            let ghost lv = last@;
            out.push(last);
            assert(out.deep_view() =~= before.update(before.len() - 1, before.last().push(c)));
        } else {
            let mut w = String::new();
            push_char(&mut w, c);
            let ghost wv = w@;
            out.push(w);
            assert(wv =~= seq![c]);
            assert(out.deep_view() =~= before.push(seq![c]));
        }
        i = i + 1;
    }
    assert(cs@.take(cs@.len() as int) =~= cs@);
    out
}

fn first_lang_exec(ws: &Vec<String>) -> (r: Option<String>)
    ensures
        opt_view(r) == first_lang(ws.deep_view()),
{
    let ghost wv = ws.deep_view();
    let mut i: usize = 0;
    assert(wv.skip(0) =~= wv);
    proof {
        reveal_strlit("language-");
        reveal_strlit("lang-");
    }
    while i < ws.len()
        invariant
            i <= ws@.len(),
            wv == ws.deep_view(),
            wv.len() == ws@.len(),
            first_lang(wv.skip(i as int)) == first_lang(wv),
        decreases ws@.len() - i,
    {
        proof {
            reveal_strlit("language-");
            reveal_strlit("lang-");
        }
        assert(wv.skip(i as int)[0] == wv[i as int]);
        assert(wv.skip(i as int).drop_first() =~= wv.skip(i + 1));
        let w = &ws[i];
        assert(w@ == wv[i as int]);
        if starts_with_str(w.as_str(), "language-") {
            let cs = chars_of(w.as_str());
            let rest = sub_chars(&cs, 9, cs.len());
            assert(rest@ =~= wv[i as int].skip(9));
            return Some(string_of(rest.as_slice()));
        } else if starts_with_str(w.as_str(), "lang-") {
            let cs = chars_of(w.as_str());
            let rest = sub_chars(&cs, 5, cs.len());
            assert(rest@ =~= wv[i as int].skip(5));
            return Some(string_of(rest.as_slice()));
        }
        i = i + 1;
    }
    None
}

fn pre_exec(children: &Vec<HNode>) -> (r: (Option<String>, String))
    ensures
        (opt_view(r.0), r.1@) == pre_spec(hnodes_view(children@)),
{
    let lang = match first_code_class_exec(children) {
        Some(Some(c)) => {
            let ws = words_exec(c.as_str());
            first_lang_exec(&ws)
        },
        _ => None,
    };
    let text = nodes_text_of(children);
    let cs = chars_of(text.as_str());
    let n = trim_end_ws_len(&cs);
    let code = sub_chars(&cs, 0, n);
    assert(code@ =~= cs@.take(n as int));
    (lang, string_of(code.as_slice()))
}

// ── images ──────────────────────────────────────────────────────

/// The first index where `p` occurs in `s`, or -1.
pub open spec fn find_sub(s: Seq<char>, p: Seq<char>) -> int
    decreases s.len(),
{
    if s.len() < p.len() {
        -1
    } else if s.take(p.len() as int) == p {
        0
    } else if s.len() == 0 {
        -1
    } else {
        let r = find_sub(s.drop_first(), p);
        if r < 0 { -1 } else { r + 1 }
    }
}

/// An `<img>`: nothing without `src`; a URL for `http(s)://`, base64 for a
/// `data:…;base64,` URI, a path otherwise.
pub open spec fn img_spec(tag: HTagV) -> Option<BlockV> {
    match tag.src {
        None => None,
        Some(src) => {
            let alt = match tag.alt {
                Some(a) => a,
                None => Seq::empty(),
            };
            let data = if has_prefix(src, "http://"@) || has_prefix(src, "https://"@) {
                ImageDataV::Url(src)
            } else if has_prefix(src, "data:"@) {
                let rest = src.skip(5);
                let k = find_sub(rest, ";base64,"@);
                if k >= 0 {
                    ImageDataV::Base64 { mime: rest.take(k), data: rest.skip(k + 8) }
                } else {
                    ImageDataV::Url(src)
                }
            } else {
                ImageDataV::Path(src)
            };
            Some(BlockV::Image { alt, data })
        },
    }
}

fn find_sub_exec(s: &Vec<char>, p: &Vec<char>) -> (r: Option<usize>)
    ensures
        match r {
            Some(k) => find_sub(s@, p@) == k as int,
            None => find_sub(s@, p@) == -1,
        },
{
    let mut i: usize = 0;
    assert(s@.skip(0) =~= s@);
    while i < s.len()
        invariant
            i <= s@.len(),
            find_sub(s@, p@) == (if find_sub(s@.skip(i as int), p@) < 0 { -1 } else { find_sub(s@.skip(i as int), p@) + i }),
        decreases s@.len() - i,
    {
        let ghost t = s@.skip(i as int);
        if s.len() - i < p.len() {
            return None;
        }
        let mut j: usize = 0;
        let mut same = true;
        while j < p.len()
            invariant
                j <= p@.len(),
                i + p@.len() <= s@.len(),
                s@.len() == s.len(),
                p@.len() == p.len(),
                same == (forall|m: int| 0 <= m < j ==> s@[i + m] == p@[m]),
            decreases p@.len() - j,
        {
            if s[i + j] != p[j] {
                same = false;
            }
            j = j + 1;
        }
        proof {
            if same {
                assert(t.take(p@.len() as int) =~= p@);
            } else {
                let m = choose|m: int| 0 <= m < p@.len() && s@[i + m] != p@[m];
                assert(t.take(p@.len() as int)[m] != p@[m]);
            }
        }
        if same {
            return Some(i);
        }
        assert(t.drop_first() =~= s@.skip(i + 1));
        i = i + 1;
    }
    assert(s@.skip(i as int).len() == 0);
    if p.len() == 0 {
        assert(s@.skip(i as int).take(0) =~= p@);
        return Some(i);
    }
    None
}

fn img_exec(attrs: &[Option<String>; 4]) -> (r: Option<Block>)
    ensures
        match r {
            Some(b) => img_spec(HTagV { name: Seq::empty(), href: opt_view(attrs@[0]), src: opt_view(attrs@[1]), alt: opt_view(attrs@[2]), class: opt_view(attrs@[3]) }) == Some(b@),
            None => img_spec(HTagV { name: Seq::empty(), href: opt_view(attrs@[0]), src: opt_view(attrs@[1]), alt: opt_view(attrs@[2]), class: opt_view(attrs@[3]) }) is None,
        },
{
    assert(attrs@[1] == attrs[1] && attrs@[2] == attrs[2]);
    let src = match &attrs[1] {
        None => return None,
        Some(s) => s.clone(),
    };
    let alt = match &attrs[2] {
        Some(a) => a.clone(),
        None => String::new(),
    };
    proof {
        reveal_strlit("data:");
        reveal_strlit(";base64,");
    }
    let data = if starts_with_str(src.as_str(), "http://") || starts_with_str(src.as_str(), "https://") {
        ImageData::Url(src)
    } else if starts_with_str(src.as_str(), "data:") {
        let cs = chars_of(src.as_str());
        let rest = sub_chars(&cs, 5, cs.len());
        assert(rest@ =~= src@.skip(5));
        let pat = chars_of(";base64,");
        match find_sub_exec(&rest, &pat) {
            Some(k) => {
                assert(k + 8 <= rest@.len()) by {
                    lemma_find_sub_bound(rest@, pat@);
                }
                let mime = sub_chars(&rest, 0, k);
                let d = sub_chars(&rest, k + 8, rest.len());
                assert(mime@ =~= rest@.take(k as int));
                assert(d@ =~= rest@.skip(k + 8));
                ImageData::Base64 { mime: string_of(mime.as_slice()), data: string_of(d.as_slice()) }
            },
            None => ImageData::Url(src),
        }
    } else {
        ImageData::Path(src)
    };
    Some(Block::Image { alt, data })
}

proof fn lemma_find_sub_bound(s: Seq<char>, p: Seq<char>)
    ensures
        find_sub(s, p) >= 0 ==> find_sub(s, p) + p.len() <= s.len(),
    decreases s.len(),
{
    if s.len() >= p.len() && s.take(p.len() as int) != p && s.len() > 0 {
        lemma_find_sub_bound(s.drop_first(), p);
    }
}

// ── blocks ──────────────────────────────────────────────────────

/// The blocks made so far and the inline runs waiting to become a paragraph.
pub struct HtmlCtxV {
    pub blocks: Seq<BlockV>,
    pub buf: Seq<InlineV>,
}

/// The waiting runs become a paragraph unless they are blank.
pub open spec fn html_flush(c: HtmlCtxV) -> HtmlCtxV {
    if c.buf.len() == 0 {
        c
    } else if is_blank(inlines_plain(c.buf)) {
        HtmlCtxV { blocks: c.blocks, buf: Seq::empty() }
    } else {
        HtmlCtxV { blocks: c.blocks.push(BlockV::Paragraph(c.buf)), buf: Seq::empty() }
    }
}

pub open spec fn heading_level_of(n: Seq<char>) -> Option<u8> {
    if n == "h1"@ {
        Some(1u8)
    } else if n == "h2"@ {
        Some(2u8)
    } else if n == "h3"@ {
        Some(3u8)
    } else if n == "h4"@ {
        Some(4u8)
    } else if n == "h5"@ {
        Some(5u8)
    } else if n == "h6"@ {
        Some(6u8)
    } else {
        None
    }
}

pub open spec fn add_block(c: HtmlCtxV, b: BlockV) -> HtmlCtxV {
    HtmlCtxV { blocks: c.blocks.push(b), buf: c.buf }
}

/// The children of a container: text and inline elements gather runs, block
/// elements first turn the runs into a paragraph; skipped elements are dropped.
pub open spec fn walk_spec(ns: Seq<HNodeV>, c: HtmlCtxV) -> HtmlCtxV
    decreases nodes_size(ns), 0int,
{
    if ns.len() == 0 {
        c
    } else {
        let c1 = walk_spec(ns.drop_last(), c);
        match ns.last() {
            HNodeV::Text(t) => HtmlCtxV { blocks: c1.blocks, buf: push_text_spec(c1.buf, t) },
            HNodeV::Element { tag, children } => if is_skipped_name(tag.name) {
                c1
            } else if is_inline_name(tag.name) {
                HtmlCtxV { blocks: c1.blocks, buf: collect_spec(children, c1.buf) }
            } else {
                handle_spec(tag, children, html_flush(c1))
            },
            HNodeV::Other => c1,
        }
    }
}

/// A block element.
pub open spec fn handle_spec(tag: HTagV, children: Seq<HNodeV>, c: HtmlCtxV) -> HtmlCtxV
    decreases nodes_size(children), 1int,
{
    let n = tag.name;
    if heading_level_of(n) is Some {
        let text = collapse(nodes_text(children));
        if text.len() > 0 { add_block(c, BlockV::Heading { level: heading_level_of(n)->0, text }) } else { c }
    } else if n == "p"@ {
        let inl = collect_spec(children, Seq::empty());
        if !is_blank(inlines_plain(inl)) { add_block(c, BlockV::Paragraph(inl)) } else { c }
    } else if n == "ul"@ || n == "ol"@ {
        let items = list_items_spec(children);
        if items.len() > 0 { add_block(c, BlockV::List { ordered: n == "ol"@, items }) } else { c }
    } else if n == "table"@ {
        match table_spec(children) {
            Some(t) => add_block(c, BlockV::Table(t)),
            None => c,
        }
    } else if n == "pre"@ {
        add_block(c, BlockV::CodeBlock { lang: pre_spec(children).0, code: pre_spec(children).1 })
    } else if n == "blockquote"@ {
        let inl = collect_spec(children, Seq::empty());
        if !is_blank(inlines_plain(inl)) { add_block(c, BlockV::Quote(inl)) } else { c }
    } else if n == "hr"@ {
        add_block(c, BlockV::HorizontalRule)
    } else if n == "img"@ {
        match img_spec(tag) {
            Some(b) => add_block(c, b),
            None => c,
        }
    } else if n == "br"@ {
        c
    } else {
        walk_spec(children, c)
    }
}

/// A `<blockquote>` element whose inline text is not blank becomes one
/// quote block holding its inlines, appended after the blocks made so far;
/// one whose text is blank adds nothing.  The runs waiting for a paragraph
/// are left as they were.
pub proof fn law_blockquote_is_quote(tag: HTagV, children: Seq<HNodeV>, c: HtmlCtxV)
    requires
        tag.name == "blockquote"@,
    ensures
        !is_blank(inlines_plain(collect_spec(children, Seq::empty()))) ==> handle_spec(tag, children, c) == (
        HtmlCtxV { blocks: c.blocks.push(BlockV::Quote(collect_spec(children, Seq::empty()))), buf: c.buf }),
        is_blank(inlines_plain(collect_spec(children, Seq::empty()))) ==> handle_spec(tag, children, c) == c,
{
    reveal_strlit("blockquote");
    reveal_strlit("h1");
    reveal_strlit("h2");
    reveal_strlit("h3");
    reveal_strlit("h4");
    reveal_strlit("h5");
    reveal_strlit("h6");
    reveal_strlit("p");
    reveal_strlit("ul");
    reveal_strlit("ol");
    reveal_strlit("table");
    reveal_strlit("pre");
    assert("blockquote"@.len() == 10);
    assert("h1"@.len() == 2 && "h2"@.len() == 2 && "h3"@.len() == 2 && "h4"@.len() == 2 && "h5"@.len() == 2);
    assert("h6"@.len() == 2 && "p"@.len() == 1 && "ul"@.len() == 2 && "ol"@.len() == 2);
    assert("table"@.len() == 5 && "pre"@.len() == 3);
    assert(heading_level_of(tag.name) is None);
}

struct HtmlCtx {
    blocks: Vec<Block>,
    buf: Vec<Inline>,
}

spec fn ctx_view(c: HtmlCtx) -> HtmlCtxV {
    HtmlCtxV { blocks: blocks_view(c.blocks@), buf: inlines_view(c.buf@) }
}

fn add_block_exec(c: &mut HtmlCtx, b: Block)
    ensures
        ctx_view(*final(c)) == add_block(ctx_view(*old(c)), b@),
{
    let ghost before = blocks_view(c.blocks@);
    c.blocks.push(b);
    assert(blocks_view(c.blocks@) =~= before.push(b@));
}

fn flush_exec(c: &mut HtmlCtx)
    ensures
        ctx_view(*final(c)) == html_flush(ctx_view(*old(c))),
{
    if c.buf.len() == 0 {
        return;
    }
    let mut buf: Vec<Inline> = Vec::new();
    std::mem::swap(&mut buf, &mut c.buf);
    assert(inlines_view(c.buf@) =~= Seq::<InlineV>::empty());
    let p = plain_text(&buf);
    if !is_blank_str(p.as_str()) {
        add_block_exec(c, Block::Paragraph(buf));
    }
}

fn heading_level_exec(n: &str) -> (r: Option<u8>)
    ensures
        r == heading_level_of(n@),
{
    if str_eq(n, "h1") {
        Some(1)
    } else if str_eq(n, "h2") {
        Some(2)
    } else if str_eq(n, "h3") {
        Some(3)
    } else if str_eq(n, "h4") {
        Some(4)
    } else if str_eq(n, "h5") {
        Some(5)
    } else if str_eq(n, "h6") {
        Some(6)
    } else {
        None
    }
}

spec fn tag_view(name: String, attrs: [Option<String>; 4]) -> HTagV {
    HTagV { name: name@, href: opt_view(attrs@[0]), src: opt_view(attrs@[1]), alt: opt_view(attrs@[2]), class: opt_view(attrs@[3]) }
}

fn walk_exec(ns: &Vec<HNode>, c: &mut HtmlCtx)
    ensures
        ctx_view(*final(c)) == walk_spec(hnodes_view(ns@), ctx_view(*old(c))),
    decreases nodes_size(hnodes_view(ns@)), 0int,
{
    let mut i: usize = 0;
    assert(ns@.take(0) =~= Seq::<HNode>::empty());
    while i < ns.len()
        invariant
            i <= ns@.len(),
            ctx_view(*c) == walk_spec(hnodes_view(ns@.take(i as int)), ctx_view(*old(c))),
        decreases ns@.len() - i,
    {
        proof {
            lemma_hnodes_view_take(ns@, i as int);
            lemma_hnodes_view_take(ns@, i + 1);
            lemma_hnodes_view(ns@);
        }
        let ghost pre = hnodes_view(ns@.take(i as int));
        let ghost cur = hnodes_view(ns@.take(i + 1));
        assert(cur.drop_last() =~= pre);
        match &ns[i] {
            HNode::Text(t) => push_text_exec(&mut c.buf, t.as_str()),
            HNode::Element { name, attrs, children } => {
                proof {
                    lemma_child_smaller(ns@, i as int);
                }
                if is_skipped_name_exec(name.as_str()) {
                } else if is_inline_name_exec(name.as_str()) {
                    collect_exec(children, &mut c.buf);
                } else {
                    flush_exec(c);
                    handle_exec(name, attrs, children, c);
                }
            },
            HNode::Other => {},
        }
        i = i + 1;
    }
    assert(ns@.take(ns@.len() as int) =~= ns@);
}

fn handle_exec(name: &String, attrs: &[Option<String>; 4], children: &Vec<HNode>, c: &mut HtmlCtx)
    ensures
        ctx_view(*final(c)) == handle_spec(tag_view(*name, *attrs), hnodes_view(children@), ctx_view(*old(c))),
    decreases nodes_size(hnodes_view(children@)), 1int,
{
    let n = name.as_str();
    let ghost tv = tag_view(*name, *attrs);
    let ghost hv = hnodes_view(children@);
    let ghost c0 = ctx_view(*c);
    match heading_level_exec(n) {
        Some(level) => {
            let raw = nodes_text_of(children);
            let text = collapse_ws(raw.as_str());
            if !text.as_str().is_empty() {
                add_block_exec(c, Block::Heading { level, text });
            }
            return;
        },
        None => {},
    }
    if str_eq(n, "p") {
        let mut inl: Vec<Inline> = Vec::new();
        assert(inlines_view(inl@) =~= Seq::<InlineV>::empty());
        collect_exec(children, &mut inl);
        let p = plain_text(&inl);
        if !is_blank_str(p.as_str()) {
            add_block_exec(c, Block::Paragraph(inl));
        }
    } else if str_eq(n, "ul") || str_eq(n, "ol") {
        let items = list_items_exec(children);
        if items.len() > 0 {
            let ordered = str_eq(n, "ol");
            add_block_exec(c, Block::List { ordered, items });
        }
        assert(ctx_view(*c) == handle_spec(tv, hv, c0));
    } else if str_eq(n, "table") {
        match table_exec(children) {
            Some(t) => add_block_exec(c, Block::Table(t)),
            None => {},
        }
        assert(ctx_view(*c) == handle_spec(tv, hv, c0));
    } else if str_eq(n, "pre") {
        let (lang, code) = pre_exec(children);
        add_block_exec(c, Block::CodeBlock { lang, code });
        assert(ctx_view(*c) == handle_spec(tv, hv, c0));
    } else if str_eq(n, "blockquote") {
        let mut inl: Vec<Inline> = Vec::new();
        assert(inlines_view(inl@) =~= Seq::<InlineV>::empty());
        collect_exec(children, &mut inl);
        let p = plain_text(&inl);
        if !is_blank_str(p.as_str()) {
            add_block_exec(c, Block::Quote(inl));
        }
    } else if str_eq(n, "hr") {
        add_block_exec(c, Block::HorizontalRule);
    } else if str_eq(n, "img") {
        assert(img_spec(tv) == img_spec(HTagV { name: Seq::empty(), href: opt_view(attrs@[0]), src: opt_view(attrs@[1]), alt: opt_view(attrs@[2]), class: opt_view(attrs@[3]) }));
        match img_exec(attrs) {
            Some(b) => add_block_exec(c, b),
            None => {},
        }
        assert(ctx_view(*c) == handle_spec(tv, hv, c0));
    } else if str_eq(n, "br") {
    } else {
        walk_exec(children, c);
    }
}

// ── the parser ──────────────────────────────────────────────────

/// The first content container present: `article`, else `main`, else `body`
/// (`None`: the root element).
pub open spec fn main_selector(src: Seq<char>) -> Option<Seq<char>> {
    if html_has(src, "article"@) {
        Some("article"@)
    } else if html_has(src, "main"@) {
        Some("main"@)
    } else if html_has(src, "body"@) {
        Some("body"@)
    } else {
        None
    }
}

/// The collapsed text of the first `<title>`, when it is not empty.
pub open spec fn html_title(src: Seq<char>) -> Option<Seq<char>> {
    if html_has(src, "title"@) {
        let t = collapse(nodes_text(build_tree(html_subtree(src, Some("title"@)))));
        if t.len() == 0 { None } else { Some(t) }
    } else {
        None
    }
}

/// The blocks of the container element's children.
pub open spec fn html_blocks(roots: Seq<HNodeV>) -> Seq<BlockV> {
    if roots.len() > 0 {
        match roots[0] {
            HNodeV::Element { children, .. } => html_flush(walk_spec(children, HtmlCtxV { blocks: Seq::empty(), buf: Seq::empty() })).blocks,
            _ => Seq::empty(),
        }
    } else {
        Seq::empty()
    }
}

/// What parsing an HTML file gives: the bytes decoded (invalid UTF-8
/// replaced, a leading byte-order mark dropped), the title, and the blocks of
/// the main content container.
pub open spec fn html_parse_spec(input: Seq<u8>, filename: Seq<char>) -> Result<DocumentV, ParseErrorV> {
    let src = strip_bom(lossy_text(input));
    Ok(DocumentV {
        metadata: MetadataV {
            title: html_title(src),
            author: None,
            created_at: None,
            source_format: SourceFormat::Html,
            original_filename: filename,
            page_count: None,
            language: None,
        },
        blocks: html_blocks(build_tree(html_subtree(src, main_selector(src)))),
    })
}

/// A leading byte-order mark does not change what an HTML file gives: the
/// bytes with an encoded mark in front parse as the bytes alone (for UTF-8
/// text that does not itself start with a mark).
pub proof fn law_html_ignores_bom(input: Seq<u8>, filename: Seq<char>)
    requires
        valid_utf8(input),
        !(decode_utf8(input).len() > 0 && decode_utf8(input)[0] == '\u{feff}'),
    ensures
        html_parse_spec(utf8_bom() + input, filename) == html_parse_spec(input, filename),
{
    lemma_utf8_bom_prefix(input);
    assert((seq!['\u{feff}'] + decode_utf8(input)).drop_first() =~= decode_utf8(input));
}

/// HTML recognition: after leading whitespace, a lower-cased header starts
/// with `<!doctype html`, `<html` or `<?xml`.
pub open spec fn html_magic(header: Seq<u8>) -> bool {
    let s = trim_start(ascii_lower(lossy_text(header)));
    has_prefix(s, "<!doctype html"@) || has_prefix(s, "<html"@) || has_prefix(s, "<?xml"@)
}

fn subtree_nodes(d: &HtmlDoc, sel: Option<&str>) -> (r: Vec<HNode>)
    requires
        sel matches Some(s) ==> html_has(d.src(), s@),
    ensures
        hnodes_view(r@) == build_tree(html_subtree(d.src(), match sel {
            Some(s) => Some(s@),
            None => None,
        })),
{
    let elem = match sel {
        Some(s) => match select_first(d, s) {
            Some(e) => e,
            None => {
                assert(false);
                return Vec::new();
            },
        },
        None => root_element(d),
    };
    let evs = traverse(&elem);
    build_nodes(&evs)
}

/// HTML pages (`.html`, `.htm`, `.xhtml`).
pub struct HtmlParser;

impl FormatParser for HtmlParser {
    open spec fn spec_name(&self) -> Seq<char> {
        "html"@
    }

    open spec fn spec_extensions(&self) -> Seq<Seq<char>> {
        seq!["html"@, "htm"@, "xhtml"@]
    }

    open spec fn spec_accepts(&self, header: Seq<u8>) -> bool {
        html_magic(header)
    }

    open spec fn spec_parse(&self, input: Seq<u8>, filename: Seq<char>) -> Result<DocumentV, ParseErrorV> {
        html_parse_spec(input, filename)
    }

    fn supported_extensions(&self) -> (r: &[&'static str]) {
        let r: &[&'static str] = &["html", "htm", "xhtml"];
        assert(r@.map_values(|s: &str| s@) =~= seq!["html"@, "htm"@, "xhtml"@]);
        r
    }

    fn can_parse_bytes(&self, header: &[u8]) -> (r: bool) {
        let text = decode_lossy(header);
        let lower = ascii_lowercase(chars_of(text.as_str()).as_slice());
        let cs = chars_of(lower.as_str());
        let k = crate::strs::trim_start_ws_pos(&cs, cs.len());
        let rest = sub_chars(&cs, k, cs.len());
        let t = string_of(rest.as_slice());
        assert(cs@.take(cs@.len() as int) =~= cs@);
        assert(t@ =~= trim_start(lower@));
        starts_with_str(t.as_str(), "<!doctype html") || starts_with_str(t.as_str(), "<html") || starts_with_str(t.as_str(), "<?xml")
    }

    fn name(&self) -> (r: &'static str) {
        "html"
    }

    fn parse(&self, input: &[u8], filename: &str) -> (r: Result<Document, ParseError>) {
        let raw = decode_lossy(input);
        let html = strip_bom_str(raw.as_str());
        let d = parse_document(html.as_str());
        let mut metadata = DocumentMetadata::new(SourceFormat::Html, filename);
        if select_first(&d, "title").is_some() {
            let nodes = subtree_nodes(&d, Some("title"));
            let text = nodes_text_of(&nodes);
            let t = collapse_ws(text.as_str());
            if !t.as_str().is_empty() {
                metadata.title = Some(t);
            }
        }
        let sel: Option<&str> = if select_first(&d, "article").is_some() {
            Some("article")
        } else if select_first(&d, "main").is_some() {
            Some("main")
        } else if select_first(&d, "body").is_some() {
            Some("body")
        } else {
            None
        };
        let roots = subtree_nodes(&d, sel);
        let mut c = HtmlCtx { blocks: Vec::new(), buf: Vec::new() };
        assert(ctx_view(c) == (HtmlCtxV { blocks: Seq::empty(), buf: Seq::empty() })) by {
            assert(blocks_view(c.blocks@) =~= Seq::<BlockV>::empty());
            assert(inlines_view(c.buf@) =~= Seq::<InlineV>::empty());
        }
        proof {
            lemma_hnodes_view(roots@);
        }
        if roots.len() > 0 {
            match &roots[0] {
                HNode::Element { children, .. } => {
                    walk_exec(children, &mut c);
                    flush_exec(&mut c);
                },
                _ => {},
            }
        }
        assert(blocks_view(c.blocks@) == html_blocks(hnodes_view(roots@)));
        Ok(Document { metadata, blocks: c.blocks })
    }
}
} // verus!

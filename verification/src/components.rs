//! HTML-template components: a component is an HTML fragment with an optional
//! embedded `<style>` block, expanded with children, content and attributes.
use vstd::prelude::*;
use crate::keyed::{
    find_key, get_entry, insert_entry, keyed_view, lemma_inserted_view, lemma_key_index, lemma_key_pos_view,
    set_key, value_of,
};
use crate::text::{
    char_views, chars_of, find, str_views, find_chars, lemma_find_from_some, push_all, push_range, replace_all,
    replace_first_listed, replace_first_of, replaced, string_from_chars, string_from_range, trim,
    trim_bounds,
};

pub mod canvas;
pub mod card;

verus! {

/// A piece of content that fills the next `<Content ... />` placeholder.
pub struct VContent {
    string: Option<String>,
    image_path: Option<String>,
}

impl VContent {
    pub closed spec fn text_spec(&self) -> Option<Seq<char>> {
        match self.string {
            Some(s) => Some(s@),
            None => None,
        }
    }

    pub closed spec fn image_spec(&self) -> Option<Seq<char>> {
        match self.image_path {
            Some(s) => Some(s@),
            None => None,
        }
    }

    pub fn string(s: String) -> (c: Self)
        ensures
            c.text_spec() == Some(s@),
            c.image_spec() is None,
    {
        VContent { string: Some(s), image_path: None }
    }

    pub fn image(path: String) -> (c: Self)
        ensures
            c.text_spec() is None,
            c.image_spec() == Some(path@),
    {
        VContent { string: None, image_path: Some(path) }
    }
}

/// A component built from an HTML template. `H` is the type of its event handlers.
pub struct VComponent<H> {
    cached_html: String,
    cached_css: String,
    children: Vec<VComponent<H>>,
    content: Vec<VContent>,
    attributes: Vec<(String, String)>,
    handlers: Vec<(String, H)>,
    visible: bool,
}

pub open spec fn style_open() -> Seq<char> {
    "<style>"@
}

pub open spec fn style_close() -> Seq<char> {
    "</style>"@
}

/// Splits a component document into its markup and the CSS of its first
/// `<style>...</style>` block: `(trim(before) + "\n" + trim(after), trim(css))`.
/// Without both tags, the closing one after the opening one, the document is all
/// markup and the CSS is empty.
pub open spec fn split_style(d: Seq<char>) -> (Seq<char>, Seq<char>) {
    match (find(d, style_open()), find(d, style_close())) {
        (Some(o), Some(c)) => if c > o {
            (
                trim(d.subrange(0, o)) + seq!['\n'] + trim(
                    d.subrange(c + style_close().len(), d.len() as int),
                ),
                trim(d.subrange(o + style_open().len(), c)),
            )
        } else {
            (d, seq![])
        },
        _ => (d, seq![]),
    }
}

pub open spec fn children_tag_patterns() -> Seq<Seq<char>> {
    seq!["<Children />"@, "<Children/>"@, "<Children></Children>"@]
}

pub open spec fn image_patterns() -> Seq<Seq<char>> {
    seq![
        "<Content type=\"Image\" />"@,
        "<Content type=\"Image\"/>"@,
        "<Content type='Image' />"@,
        "<Content type='Image'/>"@,
        "<Content type=\"image\" />"@,
        "<Content type=\"image\"/>"@,
        "<Content type='image' />"@,
        "<Content type='image'/>"@,
    ]
}

pub open spec fn text_patterns() -> Seq<Seq<char>> {
    seq![
        "<Content type=\"Text\" />"@,
        "<Content type=\"Text\"/>"@,
        "<Content type='Text' />"@,
        "<Content type='Text'/>"@,
        "<Content type=\"text\" />"@,
        "<Content type=\"text\"/>"@,
        "<Content type='text' />"@,
        "<Content type='text'/>"@,
        "<Content type=\"String\" />"@,
        "<Content type=\"String\"/>"@,
        "<Content type='String' />"@,
        "<Content type='String'/>"@,
        "<Content type=\"string\" />"@,
        "<Content type=\"string\"/>"@,
        "<Content type='string' />"@,
        "<Content type='string'/>"@,
    ]
}

/// Attribute escaping: `&`, `"`, `<`, `>` become entities (`&` first).
pub open spec fn escape_attr(s: Seq<char>) -> Seq<char> {
    replaced(
        replaced(replaced(replaced(s, "&"@, "&amp;"@), "\""@, "&quot;"@), "<"@, "&lt;"@),
        ">"@,
        "&gt;"@,
    )
}

/// Text escaping: `&`, `<`, `>` become entities (`&` first).
pub open spec fn escape_text(s: Seq<char>) -> Seq<char> {
    replaced(replaced(replaced(s, "&"@, "&amp;"@), "<"@, "&lt;"@), ">"@, "&gt;"@)
}

/// The `<img>` element that stands for an image content item.
pub open spec fn image_tag(path: Seq<char>) -> Seq<char> {
    "<img class=\"vk-img\" src=\""@ + escape_attr(path) + "\" />"@
}

/// Expands one content item into the next matching placeholder.
pub open spec fn apply_content(h: Seq<char>, item: VContent) -> Seq<char> {
    match item.image_spec() {
        Some(p) => replace_first_listed(h, image_patterns(), image_tag(p), 0),
        None => match item.text_spec() {
            Some(t) => replace_first_listed(h, text_patterns(), escape_text(t), 0),
            None => h,
        },
    }
}

/// An image item replaces the first `<Content type="Image" />` placeholder (the
/// form the docs give) by an `img` element of class `vk-img` whose source is the
/// escaped path; the rest of the markup stays as it was.
pub proof fn lemma_image_fills_placeholder(h: Seq<char>, item: VContent, k: int)
    requires
        item.image_spec() is Some,
        find(h, "<Content type=\"Image\" />"@) == Some(k),
    ensures
        apply_content(h, item) == h.subrange(0, k) + "<img class=\"vk-img\" src=\""@ + escape_attr(item.image_spec()->0)
            + "\" />"@ + h.subrange(k + "<Content type=\"Image\" />"@.len(), h.len() as int),
{
}

/// A text item replaces the first `<Content type="Text" />` placeholder by its
/// escaped text.
pub proof fn lemma_text_fills_placeholder(h: Seq<char>, item: VContent, k: int)
    requires
        item.image_spec() is None,
        item.text_spec() is Some,
        find(h, "<Content type=\"Text\" />"@) == Some(k),
    ensures
        apply_content(h, item) == h.subrange(0, k) + escape_text(item.text_spec()->0) + h.subrange(
            k + "<Content type=\"Text\" />"@.len(),
            h.len() as int,
        ),
{
}

/// In markup without a `Text` placeholder, a text item replaces the first
/// `<Content type="String" />` placeholder (the form the docs give) by its
/// escaped text.
pub proof fn lemma_string_fills_placeholder(h: Seq<char>, item: VContent, k: int)
    requires
        item.image_spec() is None,
        item.text_spec() is Some,
        find(h, "<Content type=\"Text\" />"@) is None,
        find(h, "<Content type=\"Text\"/>"@) is None,
        find(h, "<Content type='Text' />"@) is None,
        find(h, "<Content type='Text'/>"@) is None,
        find(h, "<Content type=\"text\" />"@) is None,
        find(h, "<Content type=\"text\"/>"@) is None,
        find(h, "<Content type='text' />"@) is None,
        find(h, "<Content type='text'/>"@) is None,
        find(h, "<Content type=\"String\" />"@) == Some(k),
    ensures
        apply_content(h, item) == h.subrange(0, k) + escape_text(item.text_spec()->0) + h.subrange(
            k + "<Content type=\"String\" />"@.len(),
            h.len() as int,
        ),
{
    reveal_with_fuel(replace_first_listed, 10);
}

/// Expands the content items in order.
pub open spec fn apply_contents(h: Seq<char>, items: Seq<VContent>) -> Seq<char>
    decreases items.len(),
{
    if items.len() == 0 {
        h
    } else {
        apply_content(apply_contents(h, items.drop_last()), items.last())
    }
}

/// The placeholder `{{ key }}` of an attribute.
pub open spec fn placeholder(key: Seq<char>) -> Seq<char> {
    "{{ "@ + key + " }}"@
}

/// Substitutes the attributes in order.
pub open spec fn apply_attrs(h: Seq<char>, attrs: Seq<(String, String)>) -> Seq<char>
    decreases attrs.len(),
{
    if attrs.len() == 0 {
        h
    } else {
        let prev = apply_attrs(h, attrs.drop_last());
        replaced(prev, placeholder(attrs.last().0@), attrs.last().1@)
    }
}

/// Replaces each children tag form in turn by the children's markup.
pub open spec fn expand_children(h: Seq<char>, ch: Seq<char>) -> Seq<char> {
    replaced(
        replaced(replaced(h, children_tag_patterns()[0], ch), children_tag_patterns()[1], ch),
        children_tag_patterns()[2],
        ch,
    )
}

/// `parts` joined with newlines after dropping blank parts, each part trimmed.
pub open spec fn merged_css(parts: Seq<Seq<char>>) -> Seq<char>
    decreases parts.len(),
{
    if parts.len() == 0 {
        seq![]
    } else {
        let m = merged_css(parts.drop_last());
        let t = trim(parts.last());
        if t.len() == 0 {
            m
        } else if m.len() == 0 {
            t
        } else {
            m + seq!['\n'] + t
        }
    }
}

pub open spec fn base_css_spec() -> Seq<char> {
    ".vk-img{width:100%;height:100%;}"@
}

/// The text and image of each content item.
pub open spec fn content_views(s: Seq<VContent>) -> Seq<(Option<Seq<char>>, Option<Seq<char>>)> {
    Seq::new(s.len(), |i: int| (s[i].text_spec(), s[i].image_spec()))
}

/// The key and value text of each attribute.
pub open spec fn attr_views(s: Seq<(String, String)>) -> Seq<(Seq<char>, Seq<char>)> {
    Seq::new(s.len(), |i: int| (s[i].0@, s[i].1@))
}

/// Content items with the same text and images expand alike.
pub proof fn lemma_contents_by_views(h: Seq<char>, x: Seq<VContent>, y: Seq<VContent>)
    requires
        content_views(x) == content_views(y),
    ensures
        apply_contents(h, x) == apply_contents(h, y),
    decreases x.len(),
{
    assert(x.len() == content_views(x).len());
    if x.len() > 0 {
        assert(content_views(x.drop_last()) =~= content_views(y.drop_last())) by {
            assert forall|i: int| 0 <= i < x.len() - 1 implies content_views(x.drop_last())[i] == content_views(y.drop_last())[i] by {
                assert(content_views(x)[i] == content_views(y)[i]);
            }
        }
        lemma_contents_by_views(h, x.drop_last(), y.drop_last());
        assert(content_views(x)[x.len() - 1] == content_views(y)[y.len() - 1]);
    }
}

/// Attributes with the same key and value texts substitute alike.
pub proof fn lemma_attrs_by_views(h: Seq<char>, x: Seq<(String, String)>, y: Seq<(String, String)>)
    requires
        attr_views(x) == attr_views(y),
    ensures
        apply_attrs(h, x) == apply_attrs(h, y),
    decreases x.len(),
{
    assert(x.len() == attr_views(x).len());
    if x.len() > 0 {
        assert(attr_views(x.drop_last()) =~= attr_views(y.drop_last())) by {
            assert forall|i: int| 0 <= i < x.len() - 1 implies attr_views(x.drop_last())[i] == attr_views(y.drop_last())[i] by {
                assert(attr_views(x)[i] == attr_views(y)[i]);
            }
        }
        lemma_attrs_by_views(h, x.drop_last(), y.drop_last());
        assert(attr_views(x)[x.len() - 1] == attr_views(y)[y.len() - 1]);
    }
}

impl<H> VComponent<H> {
    pub closed spec fn visible_spec(&self) -> bool {
        self.visible
    }

    pub closed spec fn html_spec(&self) -> Seq<char> {
        self.cached_html@
    }

    pub closed spec fn css_source_spec(&self) -> Seq<char> {
        self.cached_css@
    }

    pub closed spec fn children_spec(&self) -> Seq<VComponent<H>> {
        self.children@
    }

    pub closed spec fn content_spec(&self) -> Seq<VContent> {
        self.content@
    }

    pub closed spec fn attrs_spec(&self) -> Seq<(String, String)> {
        self.attributes@
    }

    pub closed spec fn handlers_spec(&self) -> Seq<(String, H)> {
        self.handlers@
    }

    /// The component's own fields, other than those named, are those of `other`.
    pub open spec fn same_except(
        &self,
        other: &Self,
        children: bool,
        content: bool,
        attrs: bool,
        handlers: bool,
        visible: bool,
    ) -> bool {
        &&& self.html_spec() == other.html_spec()
        &&& self.css_source_spec() == other.css_source_spec()
        &&& (children || self.children_spec() == other.children_spec())
        &&& (content || self.content_spec() == other.content_spec())
        &&& (attrs || self.attrs_spec() == other.attrs_spec())
        &&& (handlers || self.handlers_spec() == other.handlers_spec())
        &&& (visible || self.visible_spec() == other.visible_spec())
    }

    /// The markup this component renders to.
    pub closed spec fn render_spec(self) -> Seq<char>
        decreases self,
    {
        if !self.visible {
            seq![]
        } else {
            let ch = Self::children_html(self.children@);
            let h = expand_children(self.cached_html@, ch);
            apply_attrs(apply_contents(h, self.content@), self.attributes@)
        }
    }

    /// A hidden component renders to nothing, whatever it holds.
    pub proof fn lemma_hidden_renders_nothing(c: Self)
        ensures
            !c.visible_spec() ==> c.render_spec() == Seq::<char>::empty(),
    {
    }

    /// What a component renders to, and its CSS, depend on its viewed fields
    /// alone: two components that differ at most in their handlers render and style
    /// alike.
    pub proof fn lemma_render_by_fields(a: Self, b: Self)
        requires
            a.same_except(&b, false, false, false, true, false),
        ensures
            a.render_spec() == b.render_spec(),
            a.css_spec() == b.css_spec(),
    {
    }

    /// Two components built alike: the same visibility, markup, CSS source,
    /// content and attributes (as text), and children built alike one for one;
    /// their handlers may differ.
    pub closed spec fn alike(a: Self, b: Self) -> bool
        decreases a,
    {
        &&& a.visible == b.visible
        &&& a.cached_html@ == b.cached_html@
        &&& a.cached_css@ == b.cached_css@
        &&& content_views(a.content@) == content_views(b.content@)
        &&& attr_views(a.attributes@) == attr_views(b.attributes@)
        &&& a.children@.len() == b.children@.len()
        &&& forall|i: int| #![trigger a.children@[i]] 0 <= i < a.children@.len() ==> Self::alike(a.children@[i], b.children@[i])
    }

    /// Components built alike render and style alike.
    pub proof fn lemma_alike_render(a: Self, b: Self)
        requires
            Self::alike(a, b),
        ensures
            a.render_spec() == b.render_spec(),
            a.css_spec() == b.css_spec(),
        decreases a, a.children_spec().len() + 1,
    {
        Self::lemma_alike_children(a, b, a.children@.len());
        assert(a.children@.take(a.children@.len() as int) =~= a.children@);
        assert(b.children@.take(b.children@.len() as int) =~= b.children@);
        lemma_contents_by_views(
            expand_children(a.cached_html@, Self::children_html(a.children@)),
            a.content@,
            b.content@,
        );
        let h = apply_contents(expand_children(a.cached_html@, Self::children_html(a.children@)), a.content@);
        lemma_attrs_by_views(h, a.attributes@, b.attributes@);
    }

    /// The first `n` children of components built alike render and style alike.
    proof fn lemma_alike_children(a: Self, b: Self, n: nat)
        requires
            Self::alike(a, b),
            n <= a.children_spec().len(),
        ensures
            Self::children_html(a.children@.take(n as int)) == Self::children_html(b.children@.take(n as int)),
            Self::children_css(a.children@.take(n as int)) == Self::children_css(b.children@.take(n as int)),
        decreases a, n,
    {
        if n > 0 {
            Self::lemma_alike_children(a, b, (n - 1) as nat);
            assert(a.children@.len() == b.children@.len());
            assert(0 <= n - 1 < a.children@.len());
            assert(Self::alike(a.children@[n - 1], b.children@[n - 1]));
            Self::lemma_alike_render(a.children@[n - 1], b.children@[n - 1]);
            let xa = a.children@.take(n as int);
            let xb = b.children@.take(n as int);
            assert(xa.drop_last() =~= a.children@.take(n - 1));
            assert(xb.drop_last() =~= b.children@.take(n - 1));
            assert(xa.last() == a.children@[n - 1]);
            assert(xb.last() == b.children@[n - 1]);
            if n == 1 {
                assert(xa[0] == a.children@[0]);
                assert(xb[0] == b.children@[0]);
            }
        }
    }

    /// Hiding a component makes it render nothing; showing it again renders and
    /// styles it as a component built alike and shown. `c` and `c2` are built
    /// alike, `hidden` is `c.if_visible(false)`, `shown` is
    /// `hidden.if_visible(true)` and `shown2` is `c2.if_visible(true)`.
    pub proof fn lemma_hide_then_show(c: Self, c2: Self, hidden: Self, shown: Self, shown2: Self)
        requires
            Self::alike(c, c2),
            !hidden.visible_spec(),
            hidden.same_except(&c, false, false, false, false, true),
            shown.visible_spec(),
            shown.same_except(&hidden, false, false, false, false, true),
            shown2.visible_spec(),
            shown2.same_except(&c2, false, false, false, false, true),
        ensures
            hidden.render_spec() == Seq::<char>::empty(),
            shown.render_spec() == shown2.render_spec(),
            shown.css_spec() == shown2.css_spec(),
    {
        assert forall|i: int| 0 <= i < shown.children@.len() implies #[trigger] Self::alike(
            shown.children@[i],
            shown2.children@[i],
        ) by {
            assert(Self::alike(c.children@[i], c2.children@[i]));
        }
        assert(Self::alike(shown, shown2));
        Self::lemma_alike_render(shown, shown2);
    }

    /// Appending children at once renders and styles like appending children built
    /// alike one by one: `at_once` is `c.children(vec![a, b])`, `one` is
    /// `c2.child(a2)` and `two` is `one.child(b2)`, where `c` and `c2`, `a` and
    /// `a2`, `b` and `b2` are built alike.
    pub proof fn lemma_children_like_child(
        c: Self,
        c2: Self,
        a: Self,
        a2: Self,
        b: Self,
        b2: Self,
        at_once: Self,
        one: Self,
        two: Self,
    )
        requires
            Self::alike(c, c2),
            Self::alike(a, a2),
            Self::alike(b, b2),
            at_once.children_spec() == c.children_spec() + seq![a, b],
            at_once.same_except(&c, true, false, false, false, false),
            one.children_spec() == c2.children_spec().push(a2),
            one.same_except(&c2, true, false, false, false, false),
            two.children_spec() == one.children_spec().push(b2),
            two.same_except(&one, true, false, false, false, false),
        ensures
            at_once.render_spec() == two.render_spec(),
            at_once.css_spec() == two.css_spec(),
    {
        let n = c.children@.len();
        assert forall|i: int| 0 <= i < at_once.children@.len() implies #[trigger] Self::alike(
            at_once.children@[i],
            two.children@[i],
        ) by {
            if i < n {
                assert(Self::alike(c.children@[i], c2.children@[i]));
                assert(at_once.children@[i] == c.children@[i]);
                assert(two.children@[i] == c2.children@[i]);
            } else if i == n {
                assert(at_once.children@[i] == a);
                assert(two.children@[i] == a2);
            } else {
                assert(at_once.children@[i] == b);
                assert(two.children@[i] == b2);
            }
        }
        assert(Self::alike(at_once, two));
        Self::lemma_alike_render(at_once, two);
    }

    /// What a component renders to, spelled out: nothing when hidden, else its
    /// markup with the children expanded, then the content and the attributes.
    pub proof fn lemma_render_unfold(c: Self)
        ensures
            c.render_spec() == if !c.visible_spec() {
                Seq::<char>::empty()
            } else {
                apply_attrs(
                    apply_contents(expand_children(c.html_spec(), Self::children_html(c.children_spec())), c.content_spec()),
                    c.attrs_spec(),
                )
            },
            c.css_spec() == merged_css(seq![base_css_spec(), c.css_source_spec()] + Self::children_css(c.children_spec())),
    {
    }

    /// The rendered children spelled out: none, the one, or those before the last,
    /// a newline, and the last.
    pub proof fn lemma_children_unfold(cs: Seq<Self>)
        ensures
            Self::children_html(cs) == if cs.len() == 0 {
                Seq::<char>::empty()
            } else if cs.len() == 1 {
                cs[0].render_spec()
            } else {
                Self::children_html(cs.drop_last()) + seq!['\n'] + cs.last().render_spec()
            },
            Self::children_css(cs) == if cs.len() == 0 {
                Seq::<Seq<char>>::empty()
            } else if cs.last().css_spec().len() == 0 {
                Self::children_css(cs.drop_last())
            } else {
                Self::children_css(cs.drop_last()).push(cs.last().css_spec())
            },
    {
    }

    /// The rendered children, joined with newlines.
    pub closed spec fn children_html(cs: Seq<VComponent<H>>) -> Seq<char>
        decreases cs,
    {
        if cs.len() == 0 {
            seq![]
        } else if cs.len() == 1 {
            cs[0].render_spec()
        } else {
            Self::children_html(cs.drop_last()) + seq!['\n'] + cs.last().render_spec()
        }
    }

    /// The CSS of this component and, after it, that of each child whose CSS is not empty.
    pub closed spec fn css_spec(self) -> Seq<char>
        decreases self,
    {
        merged_css(seq![base_css_spec(), self.cached_css@] + Self::children_css(self.children@))
    }

    pub closed spec fn children_css(cs: Seq<VComponent<H>>) -> Seq<Seq<char>>
        decreases cs,
    {
        if cs.len() == 0 {
            seq![]
        } else {
            let prev = Self::children_css(cs.drop_last());
            let c = cs.last().css_spec();
            if c.len() == 0 {
                prev
            } else {
                prev.push(c)
            }
        }
    }
}

} // verus!

verus! {

fn owned(s: &str) -> (r: String)
    ensures
        r@ == s@,
{
    s.to_owned()
}

/// Splits a document into `(markup, css)`, see `split_style`.
fn split_embedded_style(document: &str) -> (r: (String, String))
    ensures
        (r.0@, r.1@) == split_style(document@),
{
    let d = chars_of(document);
    let open_tag = chars_of("<style>");
    let close_tag = chars_of("</style>");
    proof {
        reveal_strlit("<style>");
        reveal_strlit("</style>");
    }
    match (find_chars(d.as_slice(), open_tag.as_slice(), 0), find_chars(d.as_slice(), close_tag.as_slice(), 0)) {
        (Some(open), Some(close)) => {
            if close > open {
                proof {
                    lemma_find_from_some(d@, open_tag@, 0);
                    lemma_find_from_some(d@, close_tag@, 0);
                    assert(d@[close as int] == d@.subrange(close as int, close + 8)[0]);
                    if close < open + 7 {
                        assert(d@[close as int] == d@.subrange(open as int, open + 7)[close - open]);
                    }
                }
                let css_start = open + open_tag.len();
                let (a, b) = trim_bounds(d.as_slice(), css_start, close);
                let css = string_from_range(d.as_slice(), a, b);
                let (p, q) = trim_bounds(d.as_slice(), 0, open);
                let (u, w) = trim_bounds(d.as_slice(), close + close_tag.len(), d.len());
                let mut html: Vec<char> = Vec::new();
                push_range(&mut html, d.as_slice(), p, q);
                html.push('\n');
                push_range(&mut html, d.as_slice(), u, w);
                let html_s = string_from_chars(html.as_slice());
                assert(html@ =~= trim(d@.subrange(0, open as int)) + seq!['\n'] + trim(
                    d@.subrange(close + style_close().len(), d@.len() as int),
                ));
                return (html_s, css);
            }
        },
        _ => {},
    }
    (owned(document), String::new())
}

/// Joins the trimmed, non-blank parts with newlines.
fn merge_css(parts: &Vec<Vec<char>>) -> (r: Vec<char>)
    ensures
        r@ == merged_css(char_views(parts@)),
{
    let ghost ps = char_views(parts@);
    let mut css: Vec<char> = Vec::new();
    let mut i: usize = 0;
    while i < parts.len()
        invariant
            i <= parts@.len(),
            ps == char_views(parts@),
            css@ == merged_css(ps.take(i as int)),
        decreases parts.len() - i,
    {
        let part = &parts[i];
        let (a, b) = trim_bounds(part.as_slice(), 0, part.len());
        assert(ps.take(i + 1).drop_last() =~= ps.take(i as int));
        assert(ps.take(i + 1).last() == part@);
        assert(part@.subrange(0, part@.len() as int) =~= part@);
        if a < b {
            if css.len() > 0 {
                css.push('\n');
            }
            push_range(&mut css, part.as_slice(), a, b);
        }
        i = i + 1;
        assert(css@ =~= merged_css(ps.take(i as int)));
    }
    assert(ps.take(parts@.len() as int) =~= ps);
    css
}

fn base_css() -> (r: &'static str)
    ensures
        r@ == base_css_spec(),
{
    ".vk-img{width:100%;height:100%;}"
}

/// Escapes `&`, `"`, `<` and `>` for use inside a double-quoted attribute.
fn escape_attr_value(s: &[char]) -> (r: Vec<char>)
    ensures
        r@ == escape_attr(s@),
{
    proof {
        reveal_strlit("&");
        reveal_strlit("\"");
        reveal_strlit("<");
        reveal_strlit(">");
    }
    let s1 = replace_all(s, chars_of("&").as_slice(), chars_of("&amp;").as_slice());
    let s2 = replace_all(s1.as_slice(), chars_of("\"").as_slice(), chars_of("&quot;").as_slice());
    let s3 = replace_all(s2.as_slice(), chars_of("<").as_slice(), chars_of("&lt;").as_slice());
    replace_all(s3.as_slice(), chars_of(">").as_slice(), chars_of("&gt;").as_slice())
}

/// Escapes `&`, `<` and `>` for use as element text.
fn escape_text_chars(s: &[char]) -> (r: Vec<char>)
    ensures
        r@ == escape_text(s@),
{
    proof {
        reveal_strlit("&");
        reveal_strlit("<");
        reveal_strlit(">");
    }
    let s1 = replace_all(s, chars_of("&").as_slice(), chars_of("&amp;").as_slice());
    let s2 = replace_all(s1.as_slice(), chars_of("<").as_slice(), chars_of("&lt;").as_slice());
    replace_all(s2.as_slice(), chars_of(">").as_slice(), chars_of("&gt;").as_slice())
}

fn pattern_list(pats: &[&str]) -> (r: Vec<Vec<char>>)
    ensures
        char_views(r@) == str_views(pats@),
{
    let mut r: Vec<Vec<char>> = Vec::new();
    let mut i: usize = 0;
    while i < pats.len()
        invariant
            i <= pats@.len(),
            r@.len() == i,
            forall|k: int| 0 <= k < i ==> (#[trigger] r@[k])@ == pats@[k]@,
        decreases pats.len() - i,
    {
        let v = chars_of(pats[i]);
        r.push(v);
        i = i + 1;
    }
    assert(char_views(r@) =~= str_views(pats@));
    r
}

fn image_pattern_list() -> (r: Vec<Vec<char>>)
    ensures
        char_views(r@) == image_patterns(),
{
    let pats: [&str; 8] = [
        "<Content type=\"Image\" />",
        "<Content type=\"Image\"/>",
        "<Content type='Image' />",
        "<Content type='Image'/>",
        "<Content type=\"image\" />",
        "<Content type=\"image\"/>",
        "<Content type='image' />",
        "<Content type='image'/>",
    ];
    let r = pattern_list(pats.as_slice());
    assert(char_views(r@) =~= image_patterns());
    r
}

fn text_pattern_list() -> (r: Vec<Vec<char>>)
    ensures
        char_views(r@) == text_patterns(),
{
    let pats: [&str; 16] = [
        "<Content type=\"Text\" />",
        "<Content type=\"Text\"/>",
        "<Content type='Text' />",
        "<Content type='Text'/>",
        "<Content type=\"text\" />",
        "<Content type=\"text\"/>",
        "<Content type='text' />",
        "<Content type='text'/>",
        "<Content type=\"String\" />",
        "<Content type=\"String\"/>",
        "<Content type='String' />",
        "<Content type='String'/>",
        "<Content type=\"string\" />",
        "<Content type=\"string\"/>",
        "<Content type='string' />",
        "<Content type='string'/>",
    ];
    let r = pattern_list(pats.as_slice());
    assert(char_views(r@) =~= text_patterns());
    r
}

} // verus!

verus! {

impl<H> VComponent<H> {
    /// A visible component with no children, content, attributes or handlers, whose
    /// markup and CSS are split out of `document`.
    pub fn from_str(document: &str) -> (c: Self)
        ensures
            (c.html_spec(), c.css_source_spec()) == split_style(document@),
            c.children_spec().len() == 0,
            c.content_spec().len() == 0,
            c.attrs_spec().len() == 0,
            c.handlers_spec().len() == 0,
            c.visible_spec(),
    {
        let (html, css) = split_embedded_style(document);
        VComponent {
            cached_html: html,
            cached_css: css,
            children: Vec::new(),
            content: Vec::new(),
            attributes: Vec::new(),
            handlers: Vec::new(),
            visible: true,
        }
    }

    fn set_attribute(self, key: &str, value: String) -> (c: Self)
        ensures
            keyed_view(c.attrs_spec()) == set_key(keyed_view(self.attrs_spec()), key@, value),
            c.same_except(&self, false, false, true, false, false),
    {
        let mut s = self;
        let k = owned(key);
        proof {
            lemma_inserted_view(s.attributes@, k, value);
        }
        insert_entry(&mut s.attributes, k, value);
        s
    }

    /// Sets the `label` attribute.
    pub fn label(self, text: String) -> (c: Self)
        ensures
            keyed_view(c.attrs_spec()) == set_key(keyed_view(self.attrs_spec()), "label"@, text),
            c.same_except(&self, false, false, true, false, false),
    {
        self.set_attribute("label", text)
    }

    /// Sets the `id` attribute.
    pub fn id(self, id: String) -> (c: Self)
        ensures
            keyed_view(c.attrs_spec()) == set_key(keyed_view(self.attrs_spec()), "id"@, id),
            c.same_except(&self, false, false, true, false, false),
    {
        self.set_attribute("id", id)
    }

    /// Sets the `class` attribute.
    pub fn class(self, cls: String) -> (c: Self)
        ensures
            keyed_view(c.attrs_spec()) == set_key(keyed_view(self.attrs_spec()), "class"@, cls),
            c.same_except(&self, false, false, true, false, false),
    {
        self.set_attribute("class", cls)
    }

    /// Adds a text content item.
    pub fn text(self, content: String) -> (c: Self)
        ensures
            c.content_spec().len() == self.content_spec().len() + 1,
            c.content_spec().drop_last() == self.content_spec(),
            c.content_spec().last().text_spec() == Some(content@),
            c.content_spec().last().image_spec() is None,
            c.same_except(&self, false, true, false, false, false),
    {
        let mut s = self;
        s.content.push(VContent::string(content));
        assert(s.content@.drop_last() =~= self.content@);
        s
    }

    /// Adds an image content item.
    pub fn image(self, path: String) -> (c: Self)
        ensures
            c.content_spec().len() == self.content_spec().len() + 1,
            c.content_spec().drop_last() == self.content_spec(),
            c.content_spec().last().text_spec() is None,
            c.content_spec().last().image_spec() == Some(path@),
            c.same_except(&self, false, true, false, false, false),
    {
        let mut s = self;
        s.content.push(VContent::image(path));
        assert(s.content@.drop_last() =~= self.content@);
        s
    }

    /// Registers the handler of the `click` event.
    pub fn on_click(self, handler: H) -> (c: Self)
        ensures
            keyed_view(c.handlers_spec()) == set_key(keyed_view(self.handlers_spec()), "click"@, handler),
            c.same_except(&self, false, false, false, true, false),
    {
        let mut s = self;
        let k = owned("click");
        proof {
            lemma_inserted_view(s.handlers@, k, handler);
        }
        insert_entry(&mut s.handlers, k, handler);
        s
    }

    /// Shows or hides the component.
    pub fn if_visible(self, visible: bool) -> (c: Self)
        ensures
            c.visible_spec() == visible,
            c.same_except(&self, false, false, false, false, true),
    {
        let mut s = self;
        s.visible = visible;
        s
    }

    /// Returns the component as it is.
    pub fn new(self) -> (c: Self)
        ensures
            c == self,
    {
        self
    }

    /// Appends a child.
    pub fn child(self, component: VComponent<H>) -> (c: Self)
        ensures
            c.children_spec() == self.children_spec().push(component),
            c.same_except(&self, true, false, false, false, false),
    {
        let mut s = self;
        s.children.push(component);
        s
    }

    /// Appends children, in order.
    pub fn children(self, components: Vec<VComponent<H>>) -> (c: Self)
        ensures
            c.children_spec() == self.children_spec() + components@,
            c.same_except(&self, true, false, false, false, false),
    {
        let mut s = self;
        let mut rest = components;
        s.children.append(&mut rest);
        s
    }

    /// The handler registered for `event`.
    pub fn get_handler(&self, event: &str) -> (r: Option<&H>)
        ensures
            r matches Some(h) ==> value_of(keyed_view(self.handlers_spec()), event@) == Some(*h),
            r is None ==> value_of(keyed_view(self.handlers_spec()), event@) is None,
    {
        proof {
            lemma_key_pos_view(self.handlers@, event@);
            lemma_key_index(self.handlers@, event@);
        }
        get_entry(&self.handlers, event)
    }

    /// Whether a handler is registered for `event`.
    pub fn has_handler(&self, event: &str) -> (r: bool)
        ensures
            r == value_of(keyed_view(self.handlers_spec()), event@) is Some,
    {
        self.get_handler(event).is_some()
    }

    /// Runs the handler registered for `event`, if there is one.
    pub fn trigger_handler(&self, event: &str) where H: Fn()
        requires
            forall|i: int|
                0 <= i < self.handlers_spec().len() ==> call_requires(
                    #[trigger] self.handlers_spec()[i].1,
                    (),
                ),
    {
        proof {
            lemma_key_index(self.handlers@, event@);
        }
        match find_key(&self.handlers, event) {
            Some(i) => {
                assert(call_requires(self.handlers_spec()[i as int].1, ()));
                let h = &self.handlers[i].1;
                h();
            },
            None => {},
        }
    }

    /// The attributes, in the order in which their keys were first set.
    pub fn get_attributes(&self) -> (r: &Vec<(String, String)>)
        ensures
            r@ == self.attrs_spec(),
    {
        &self.attributes
    }
}

} // verus!

verus! {

impl<H> VComponent<H> {
    /// The component's markup: the children tags expanded with the rendered
    /// children (joined with newlines), content placeholders filled in order, then
    /// each `{{ key }}` attribute placeholder replaced by its value. A hidden
    /// component renders to the empty string.
    pub fn render(&self) -> (r: String)
        ensures
            r@ == self.render_spec(),
        decreases self,
    {
        let r = self.render_chars();
        string_from_chars(r.as_slice())
    }

    fn render_chars(&self) -> (r: Vec<char>)
        ensures
            r@ == self.render_spec(),
        decreases self, 1nat,
    {
        if !self.visible {
            return Vec::new();
        }
        let mut ch: Vec<char> = Vec::new();
        let mut i: usize = 0;
        while i < self.children.len()
            invariant
                i <= self.children@.len(),
                ch@ == Self::children_html(self.children@.take(i as int)),
            decreases self.children.len() - i,
        {
            let child = &self.children[i];
            let rendered = child.render_chars();
            let ghost prefix = self.children@.take(i + 1);
            assert(prefix.drop_last() =~= self.children@.take(i as int));
            if i > 0 {
                ch.push('\n');
            }
            push_all(&mut ch, rendered.as_slice());
            i = i + 1;
            proof {
                if i == 1 {
                    assert(Self::children_html(self.children@.take(0)) == Seq::<char>::empty());
                }
            }
            assert(ch@ =~= Self::children_html(self.children@.take(i as int)));
        }
        assert(self.children@.take(self.children@.len() as int) =~= self.children@);
        proof {
            reveal_strlit("<Children />");
            reveal_strlit("<Children/>");
            reveal_strlit("<Children></Children>");
        }
        let h0 = chars_of(self.cached_html.as_str());
        let h1 = replace_all(h0.as_slice(), chars_of("<Children />").as_slice(), ch.as_slice());
        let h2 = replace_all(h1.as_slice(), chars_of("<Children/>").as_slice(), ch.as_slice());
        let mut html = replace_all(h2.as_slice(), chars_of("<Children></Children>").as_slice(), ch.as_slice());
        let ghost expanded = html@;
        let images = image_pattern_list();
        let texts = text_pattern_list();
        let mut j: usize = 0;
        while j < self.content.len()
            invariant
                j <= self.content@.len(),
                html@ == apply_contents(expanded, self.content@.take(j as int)),
                char_views(images@) == image_patterns(),
                char_views(texts@) == text_patterns(),
            decreases self.content.len() - j,
        {
            let item = &self.content[j];
            assert(self.content@.take(j + 1).drop_last() =~= self.content@.take(j as int));
            match &item.image_path {
                Some(path) => {
                    let p = chars_of(path.as_str());
                    let esc = escape_attr_value(p.as_slice());
                    let mut img = chars_of("<img class=\"vk-img\" src=\"");
                    push_all(&mut img, esc.as_slice());
                    push_all(&mut img, chars_of("\" />").as_slice());
                    html = replace_first_of(html.as_slice(), &images, img.as_slice());
                },
                None => match &item.string {
                    Some(text) => {
                        let t = chars_of(text.as_str());
                        let esc = escape_text_chars(t.as_slice());
                        html = replace_first_of(html.as_slice(), &texts, esc.as_slice());
                    },
                    None => {},
                },
            }
            j = j + 1;
        }
        assert(self.content@.take(self.content@.len() as int) =~= self.content@);
        let ghost filled = html@;
        let mut k: usize = 0;
        while k < self.attributes.len()
            invariant
                k <= self.attributes@.len(),
                html@ == apply_attrs(filled, self.attributes@.take(k as int)),
            decreases self.attributes.len() - k,
        {
            let (key, value) = (&self.attributes[k].0, &self.attributes[k].1);
            assert(self.attributes@.take(k + 1).drop_last() =~= self.attributes@.take(k as int));
            let mut pat = chars_of("{{ ");
            push_all(&mut pat, chars_of(key.as_str()).as_slice());
            push_all(&mut pat, chars_of(" }}").as_slice());
            proof {
                reveal_strlit("{{ ");
            }
            html = replace_all(html.as_slice(), pat.as_slice(), chars_of(value.as_str()).as_slice());
            k = k + 1;
        }
        assert(self.attributes@.take(self.attributes@.len() as int) =~= self.attributes@);
        html
    }

    /// The CSS of the component: a small base rule, the component's own CSS, then
    /// the non-empty CSS of each child, merged by `merged_css`.
    pub fn css(&self) -> (r: String)
        ensures
            r@ == self.css_spec(),
        decreases self,
    {
        let r = self.css_chars();
        string_from_chars(r.as_slice())
    }

    fn css_chars(&self) -> (r: Vec<char>)
        ensures
            r@ == self.css_spec(),
        decreases self, 1nat,
    {
        let mut parts: Vec<Vec<char>> = Vec::new();
        parts.push(chars_of(base_css()));
        parts.push(chars_of(self.cached_css.as_str()));
        let ghost head = seq![base_css_spec(), self.cached_css@];
        assert(char_views(parts@) =~= head);
        let mut i: usize = 0;
        while i < self.children.len()
            invariant
                i <= self.children@.len(),
                char_views(parts@) == head + Self::children_css(
                    self.children@.take(i as int),
                ),
            decreases self.children.len() - i,
        {
            let child_css = self.children[i].css_chars();
            assert(self.children@.take(i + 1).drop_last() =~= self.children@.take(i as int));
            assert(self.children@.take(i + 1).last() == self.children@[i as int]);
            let ghost before = char_views(parts@);
            if child_css.len() > 0 {
                parts.push(child_css);
                assert(char_views(parts@) =~= before.push(child_css@));
            }
            i = i + 1;
            assert(char_views(parts@) =~= head + Self::children_css(
                self.children@.take(i as int),
            ));
        }
        assert(self.children@.take(self.children@.len() as int) =~= self.children@);
        merge_css(&parts)
    }
}

} // verus!

//! Rendering a widget tree as an HTML document: one element per line,
//! indented by nesting depth.

use vstd::prelude::*;
use vstd::string::StringExecFns;

use crate::text::push_char;

verus! {

/// What the HTML renderer reads of a widget unit: boxes become `div`s
/// holding their children, images empty `div`s, and texts `span`s holding
/// the text.
#[derive(Debug)]
pub enum HtmlNode {
    /// A unit that renders nothing.
    Empty,
    /// A box with its children, in order.
    Container(Vec<HtmlNode>),
    /// An image.
    Image,
    /// A text.
    Text(String),
}

/// Renders widget trees as HTML documents.
#[derive(Debug, Clone)]
pub struct HtmlRenderer {
    /// Spaces per nesting level.
    pub indent: usize,
    /// The document title, if any.
    pub title: Option<String>,
}

impl Default for HtmlRenderer {
    /// Two spaces per level, no title.
    fn default() -> (r: Self)
        ensures
            r.indent == 2,
            r.title is None,
    {
        HtmlRenderer { indent: 2, title: None }
    }
}

/// `n` spaces.
pub open spec fn spaces(n: nat) -> Seq<char>
    decreases n,
{
    if n == 0 {
        Seq::empty()
    } else {
        spaces((n - 1) as nat).push(' ')
    }
}

/// A line of the document: the content indented by `level` steps of
/// `indent` spaces, then a line break.
pub open spec fn indented(level: nat, indent: nat, content: Seq<char>) -> Seq<char> {
    spaces(level * indent) + content + seq!['\n']
}

/// The views of a list of key-value pairs.
pub open spec fn pairs_view(pairs: Seq<(String, String)>) -> Seq<(Seq<char>, Seq<char>)> {
    pairs.map_values(|p: (String, String)| (p.0@, p.1@))
}

/// `key: value;` for each style, in order.
pub open spec fn styles_body(styles: Seq<(Seq<char>, Seq<char>)>) -> Seq<char>
    decreases styles.len(),
{
    if styles.len() == 0 {
        Seq::empty()
    } else {
        styles_body(styles.drop_last()) + styles.last().0 + seq![':', ' '] + styles.last().1
            + seq![';']
    }
}

/// The `style` attribute for `styles`, or nothing when there are none.
pub open spec fn styles_attr_text(styles: Seq<(Seq<char>, Seq<char>)>) -> Seq<char> {
    if styles.len() == 0 {
        Seq::empty()
    } else {
        seq!['s', 't', 'y', 'l', 'e', '=', '"'] + styles_body(styles) + seq!['"']
    }
}

/// `key="value"`.
pub open spec fn attrib_text(attrib: (Seq<char>, Seq<char>)) -> Seq<char> {
    attrib.0 + seq!['=', '"'] + attrib.1 + seq!['"']
}

/// The attributes, each as `key="value"`, separated by spaces.
pub open spec fn attribs_text(attribs: Seq<(Seq<char>, Seq<char>)>) -> Seq<char>
    decreases attribs.len(),
{
    if attribs.len() == 0 {
        Seq::empty()
    } else if attribs.len() == 1 {
        attrib_text(attribs[0])
    } else {
        attribs_text(attribs.drop_last()) + seq![' '] + attrib_text(attribs.last())
    }
}

/// `<name styles attribs>`, or `<name styles attribs/>` when `inline`.
pub open spec fn open_tag(
    name: Seq<char>,
    styles: Seq<(Seq<char>, Seq<char>)>,
    attribs: Seq<(Seq<char>, Seq<char>)>,
    inline: bool,
) -> Seq<char> {
    seq!['<'] + name + seq![' '] + styles_attr_text(styles) + seq![' '] + attribs_text(attribs) + (
    if inline {
        seq!['/', '>']
    } else {
        seq!['>']
    })
}

/// `</name>`.
pub open spec fn close_tag(name: Seq<char>) -> Seq<char> {
    seq!['<', '/'] + name + seq!['>']
}

/// A plain `<div>` or `<span>` opening tag: no styles, no attributes.
pub open spec fn plain_open(name: Seq<char>) -> Seq<char> {
    open_tag(name, Seq::empty(), Seq::empty(), false)
}

pub open spec fn div() -> Seq<char> {
    seq!['d', 'i', 'v']
}

pub open spec fn span() -> Seq<char> {
    seq!['s', 'p', 'a', 'n']
}

/// How deep below its own line a node's lines go.
pub open spec fn node_depth(node: HtmlNode) -> nat
    decreases node,
{
    match node {
        HtmlNode::Empty => 0,
        HtmlNode::Image => 0,
        HtmlNode::Text(_) => 1,
        HtmlNode::Container(children) => 1 + children_depth(children@),
    }
}

/// The deepest of the children's depths.
pub open spec fn children_depth(children: Seq<HtmlNode>) -> nat
    decreases children,
{
    if children.len() == 0 {
        0
    } else {
        let a = children_depth(children.drop_last());
        let b = node_depth(children.last());
        if a < b {
            b
        } else {
            a
        }
    }
}

/// The lines of a node at `level`, each with its level.
pub open spec fn node_lines(node: HtmlNode, level: nat) -> Seq<(nat, Seq<char>)>
    decreases node,
{
    match node {
        HtmlNode::Empty => Seq::empty(),
        HtmlNode::Image => seq![(level, plain_open(div())), (level, close_tag(div()))],
        HtmlNode::Text(t) => seq![
            (level, plain_open(span())),
            ((level + 1) as nat, t@),
            (level, close_tag(span())),
        ],
        HtmlNode::Container(children) => seq![(level, plain_open(div()))] + children_lines(
            children@,
            (level + 1) as nat,
        ) + seq![(level, close_tag(div()))],
    }
}

/// The lines of the children, one after another.
pub open spec fn children_lines(children: Seq<HtmlNode>, level: nat) -> Seq<(nat, Seq<char>)>
    decreases children,
{
    if children.len() == 0 {
        Seq::empty()
    } else {
        children_lines(children.drop_last(), level) + node_lines(children.last(), level)
    }
}

/// The text of lines, each indented.
pub open spec fn lines_text(lines: Seq<(nat, Seq<char>)>, indent: nat) -> Seq<char>
    decreases lines.len(),
{
    if lines.len() == 0 {
        Seq::empty()
    } else {
        lines_text(lines.drop_last(), indent) + indented(lines.last().0, indent, lines.last().1)
    }
}

pub proof fn lemma_lines_text_concat(a: Seq<(nat, Seq<char>)>, b: Seq<(nat, Seq<char>)>, indent: nat)
    ensures
        lines_text(a + b, indent) == lines_text(a, indent) + lines_text(b, indent),
    decreases b.len(),
{
    if b.len() == 0 {
        assert(a + b =~= a);
    } else {
        lemma_lines_text_concat(a, b.drop_last(), indent);
        assert((a + b).drop_last() =~= a + b.drop_last());
    }
}

/// The lines of a whole document holding `tree`.
pub open spec fn document_lines(title: Option<Seq<char>>, tree: HtmlNode) -> Seq<(nat, Seq<char>)> {
    let html = seq!['h', 't', 'm', 'l'];
    let head = seq!['h', 'e', 'a', 'd'];
    let body = seq!['b', 'o', 'd', 'y'];
    let lang = (seq!['l', 'a', 'n', 'g'], seq!['e', 'n']);
    let dir = (seq!['d', 'i', 'r'], seq!['l', 't', 'r']);
    let title_lines = match title {
        Some(t) => seq![
            (2nat, seq!['<', 't', 'i', 't', 'l', 'e', '>'] + t + seq![
                '<',
                '/',
                't',
                'i',
                't',
                'l',
                'e',
                '>',
            ]),
        ],
        None => Seq::empty(),
    };
    seq![
        (0nat, "<!DOCTYPE html>"@),
        (0nat, open_tag(html, Seq::empty(), seq![lang, dir], false)),
        (1nat, plain_open(head)),
        (2nat, "<meta charset=\"utf-8\">"@),
    ] + title_lines + seq![(1nat, close_tag(head)), (1nat, plain_open(body))] + node_lines(
        tree,
        2,
    ) + seq![(1nat, close_tag(body)), (0nat, close_tag(html))]
}

/// Appends `s`.
fn push_str(out: &mut String, s: &str)
    ensures
        final(out)@ == old(out)@ + s@,
{
    out.append(s);
}

impl HtmlRenderer {
    /// Writes `line` indented by `level` steps, then a line break.
    pub fn write_line(&self, line: &str, out: &mut String, level: usize)
        requires
            level * self.indent <= usize::MAX,
        ensures
            final(out)@ == old(out)@ + indented(level as nat, self.indent as nat, line@),
    {
        let n = level * self.indent;
        let ghost start = out@;
        let mut i: usize = 0;
        while i < n
            invariant
                i <= n,
                out@ == start + spaces(i as nat),
            decreases n - i,
        {
            push_char(out, ' ');
            proof {
                assert(spaces((i + 1) as nat) == spaces(i as nat).push(' '));
                assert(start + spaces((i + 1) as nat) =~= (start + spaces(i as nat)).push(' '));
            }
            i = i + 1;
        }
        push_str(out, line);
        push_char(out, '\n');
        proof {
            assert(out@ =~= start + indented(level as nat, self.indent as nat, line@));
        }
    }

    /// The `style` attribute for `styles`: `style="key: value;..."`, or
    /// nothing when there are none.
    pub fn stringify_styles_attr(styles: &[(String, String)]) -> (r: String)
        ensures
            r@ == styles_attr_text(pairs_view(styles@)),
    {
        let ghost v = pairs_view(styles@);
        let mut r = String::new();
        if styles.len() > 0 {
            push_str(&mut r, "style=\"");
            proof {
                reveal_strlit("style=\"");
                assert(r@ =~= seq!['s', 't', 'y', 'l', 'e', '=', '"'] + styles_body(v.take(0)));
            }
            let mut i: usize = 0;
            while i < styles.len()
                invariant
                    i <= styles@.len(),
                    v == pairs_view(styles@),
                    r@ == seq!['s', 't', 'y', 'l', 'e', '=', '"'] + styles_body(v.take(i as int)),
                decreases styles@.len() - i,
            {
                let ghost before = r@;
                push_str(&mut r, styles[i].0.as_str());
                push_str(&mut r, ": ");
                push_str(&mut r, styles[i].1.as_str());
                push_char(&mut r, ';');
                proof {
                    reveal_strlit(": ");
                    assert(v.take(i + 1).drop_last() =~= v.take(i as int));
                    assert(v[i as int] == (styles@[i as int].0@, styles@[i as int].1@));
                    assert(r@ =~= seq!['s', 't', 'y', 'l', 'e', '=', '"'] + styles_body(
                        v.take(i + 1),
                    ));
                }
                i = i + 1;
            }
            push_char(&mut r, '"');
            proof {
                assert(v.take(i as int) =~= v);
            }
        }
        r
    }

    /// The attributes as `key="value"`, separated by spaces.
    pub fn stringify_attribs(attribs: &[(String, String)]) -> (r: String)
        ensures
            r@ == attribs_text(pairs_view(attribs@)),
    {
        let ghost v = pairs_view(attribs@);
        let mut r = String::new();
        let mut i: usize = 0;
        while i < attribs.len()
            invariant
                i <= attribs@.len(),
                v == pairs_view(attribs@),
                r@ == attribs_text(v.take(i as int)),
            decreases attribs@.len() - i,
        {
            if i > 0 {
                push_char(&mut r, ' ');
            }
            push_str(&mut r, attribs[i].0.as_str());
            push_str(&mut r, "=\"");
            push_str(&mut r, attribs[i].1.as_str());
            push_char(&mut r, '"');
            proof {
                reveal_strlit("=\"");
                assert(v.take(i + 1).drop_last() =~= v.take(i as int));
                assert(v[i as int] == (attribs@[i as int].0@, attribs@[i as int].1@));
                if i == 0 {
                    assert(v.take(1)[0] == v[0]);
                }
                assert(r@ =~= attribs_text(v.take(i + 1)));
            }
            i = i + 1;
        }
        proof {
            assert(v.take(i as int) =~= v);
        }
        r
    }

    /// The opening tag `<name styles attribs>`, or `<name styles attribs/>`.
    fn tag(name: &str, styles: &[(String, String)], attribs: &[(String, String)], inline: bool) -> (r:
        String)
        ensures
            r@ == open_tag(name@, pairs_view(styles@), pairs_view(attribs@), inline),
    {
        let styles_text = Self::stringify_styles_attr(styles);
        let attribs_text = Self::stringify_attribs(attribs);
        let mut r = String::new();
        push_char(&mut r, '<');
        push_str(&mut r, name);
        push_char(&mut r, ' ');
        push_str(&mut r, styles_text.as_str());
        push_char(&mut r, ' ');
        push_str(&mut r, attribs_text.as_str());
        if inline {
            push_char(&mut r, '/');
        }
        push_char(&mut r, '>');
        proof {
            assert(r@ =~= open_tag(name@, pairs_view(styles@), pairs_view(attribs@), inline));
        }
        r
    }

    /// Writes the line `<name styles attribs/>`.
    pub fn inline_node(
        &self,
        name: &str,
        styles: &[(String, String)],
        attribs: &[(String, String)],
        out: &mut String,
        level: usize,
    )
        requires
            level * self.indent <= usize::MAX,
        ensures
            final(out)@ == old(out)@ + indented(
                level as nat,
                self.indent as nat,
                open_tag(name@, pairs_view(styles@), pairs_view(attribs@), true),
            ),
    {
        let line = Self::tag(name, styles, attribs, true);
        self.write_line(line.as_str(), out, level);
    }

    /// Writes the line `<name styles attribs>`.
    pub fn start_node(
        &self,
        name: &str,
        styles: &[(String, String)],
        attribs: &[(String, String)],
        out: &mut String,
        level: usize,
    )
        requires
            level * self.indent <= usize::MAX,
        ensures
            final(out)@ == old(out)@ + indented(
                level as nat,
                self.indent as nat,
                open_tag(name@, pairs_view(styles@), pairs_view(attribs@), false),
            ),
    {
        let line = Self::tag(name, styles, attribs, false);
        self.write_line(line.as_str(), out, level);
    }

    /// Writes the line `</name>`.
    pub fn stop_node(&self, name: &str, out: &mut String, level: usize)
        requires
            level * self.indent <= usize::MAX,
        ensures
            final(out)@ == old(out)@ + indented(level as nat, self.indent as nat, close_tag(name@)),
    {
        let mut line = String::new();
        push_char(&mut line, '<');
        push_char(&mut line, '/');
        push_str(&mut line, name);
        push_char(&mut line, '>');
        proof {
            assert(line@ =~= close_tag(name@));
        }
        self.write_line(line.as_str(), out, level);
    }
}

/// A child is no deeper than the deepest child.
proof fn lemma_child_depth(children: Seq<HtmlNode>, i: int)
    requires
        0 <= i < children.len(),
    ensures
        node_depth(children[i]) <= children_depth(children),
    decreases children.len(),
{
    if i < children.len() - 1 {
        lemma_child_depth(children.drop_last(), i);
        assert(children.drop_last()[i] == children[i]);
    }
}

/// One line's text.
proof fn lemma_single_line(x: (nat, Seq<char>), indent: nat)
    ensures
        lines_text(seq![x], indent) == indented(x.0, indent, x.1),
{
    let e = Seq::<(nat, Seq<char>)>::empty();
    assert(seq![x].drop_last() =~= e);
    assert(lines_text(e, indent) =~= Seq::<char>::empty());
    assert(lines_text(e, indent) + indented(x.0, indent, x.1) =~= indented(x.0, indent, x.1));
}

/// The text of a node's lines wrapped between an opening and a closing line.
proof fn lemma_wrapped_lines(
    a: (nat, Seq<char>),
    inner: Seq<(nat, Seq<char>)>,
    c: (nat, Seq<char>),
    indent: nat,
)
    ensures
        lines_text(seq![a] + inner + seq![c], indent) == indented(a.0, indent, a.1) + lines_text(
            inner,
            indent,
        ) + indented(c.0, indent, c.1),
{
    lemma_lines_text_concat(seq![a], inner, indent);
    lemma_lines_text_concat(seq![a] + inner, seq![c], indent);
    lemma_single_line(a, indent);
    lemma_single_line(c, indent);
}

/// The title's text, if any.
pub open spec fn title_view(title: Option<String>) -> Option<Seq<char>> {
    match title {
        Some(t) => Some(t@),
        None => None,
    }
}

impl HtmlRenderer {
    /// Writes the lines of `node` at `level`.
    #[verifier::rlimit(40)]
    pub fn write_node(&self, out: &mut String, node: &HtmlNode, level: usize)
        requires
            level + node_depth(*node) < usize::MAX,
            (level + node_depth(*node)) * self.indent <= usize::MAX,
        ensures
            final(out)@ == old(out)@ + lines_text(node_lines(*node, level as nat), self.indent as nat),
        decreases node,
    {
        let ghost indent = self.indent as nat;
        let ghost start = out@;
        let none: Vec<(String, String)> = Vec::new();
        proof {
            reveal_strlit("div");
            reveal_strlit("span");
            assert(pairs_view(none@) =~= Seq::<(Seq<char>, Seq<char>)>::empty());
            vstd::arithmetic::mul::lemma_mul_inequality(
                level as int,
                level + node_depth(*node),
                self.indent as int,
            );
        }
        match node {
            HtmlNode::Empty => {
                proof {
                    assert(out@ =~= start + lines_text(node_lines(*node, level as nat), indent));
                }
            },
            HtmlNode::Image => {
                self.start_node("div", none.as_slice(), none.as_slice(), out, level);
                self.stop_node("div", out, level);
                proof {
                    let e = Seq::<(nat, Seq<char>)>::empty();
                    lemma_wrapped_lines((level as nat, plain_open(div())), e, (level as nat, close_tag(div())), indent);
                    assert(seq![(level as nat, plain_open(div()))] + e + seq![(level as nat, close_tag(div()))] =~= node_lines(*node, level as nat));
                    assert(lines_text(e, indent) =~= Seq::<char>::empty());
                    assert(out@ =~= start + lines_text(node_lines(*node, level as nat), indent));
                }
            },
            HtmlNode::Text(t) => {
                proof {
                    vstd::arithmetic::mul::lemma_mul_inequality(
                        level + 1,
                        level + node_depth(*node),
                        self.indent as int,
                    );
                }
                self.start_node("span", none.as_slice(), none.as_slice(), out, level);
                self.write_line(t.as_str(), out, level + 1);
                self.stop_node("span", out, level);
                proof {
                    let mid = seq![((level + 1) as nat, t@)];
                    lemma_wrapped_lines((level as nat, plain_open(span())), mid, (level as nat, close_tag(span())), indent);
                    lemma_single_line(((level + 1) as nat, t@), indent);
                    assert(seq![(level as nat, plain_open(span()))] + mid + seq![(level as nat, close_tag(span()))] =~= node_lines(*node, level as nat));
                    assert(out@ =~= start + lines_text(node_lines(*node, level as nat), indent));
                }
            },
            HtmlNode::Container(children) => {
                self.start_node("div", none.as_slice(), none.as_slice(), out, level);
                let ghost head = out@;
                let ghost cs = children@;
                let mut i: usize = 0;
                while i < children.len()
                    invariant
                        i <= cs.len(),
                        cs == children@,
                        *node == HtmlNode::Container(*children),
                        level + node_depth(*node) < usize::MAX,
                        (level + node_depth(*node)) * self.indent <= usize::MAX,
                        node_depth(*node) == 1 + children_depth(cs),
                        out@ == head + lines_text(children_lines(cs.take(i as int), (level + 1) as nat), self.indent as nat),
                    decreases cs.len() - i,
                {
                    proof {
                        lemma_child_depth(cs, i as int);
                        vstd::arithmetic::mul::lemma_mul_inequality(
                            level + 1 + node_depth(cs[i as int]),
                            level + node_depth(*node),
                            self.indent as int,
                        );
                    }
                    let ghost before = out@;
                    self.write_node(out, &children[i], level + 1);
                    proof {
                        let taken = cs.take(i + 1);
                        assert(taken.drop_last() =~= cs.take(i as int));
                        assert(taken.last() == cs[i as int]);
                        lemma_lines_text_concat(
                            children_lines(cs.take(i as int), (level + 1) as nat),
                            node_lines(cs[i as int], (level + 1) as nat),
                            self.indent as nat,
                        );
                        assert(out@ =~= head + lines_text(children_lines(taken, (level + 1) as nat), self.indent as nat));
                    }
                    i = i + 1;
                }
                self.stop_node("div", out, level);
                proof {
                    assert(cs.take(i as int) =~= cs);
                    let inner = children_lines(cs, (level + 1) as nat);
                    lemma_wrapped_lines((level as nat, plain_open(div())), inner, (level as nat, close_tag(div())), indent);
                    assert(out@ =~= start + lines_text(node_lines(*node, level as nat), indent));
                }
            },
        }
    }
}

/// One more line.
proof fn lemma_lines_push(l: Seq<(nat, Seq<char>)>, x: (nat, Seq<char>), indent: nat)
    ensures
        lines_text(l.push(x), indent) == lines_text(l, indent) + indented(x.0, indent, x.1),
{
    assert(l.push(x).drop_last() =~= l);
}

impl HtmlRenderer {
    /// Writes a whole document holding `tree`: the doctype, then `html` with
    /// a `head` (character set and title) and a `body` holding the tree.
    #[verifier::rlimit(60)]
    pub fn write_document(&self, out: &mut String, tree: &HtmlNode)
        requires
            2 + node_depth(*tree) < usize::MAX,
            (2 + node_depth(*tree)) * self.indent <= usize::MAX,
        ensures
            final(out)@ == old(out)@ + lines_text(
                document_lines(title_view(self.title), *tree),
                self.indent as nat,
            ),
    {
        let ghost indent = self.indent as nat;
        let ghost start = out@;
        proof {
            vstd::arithmetic::mul::lemma_mul_inequality(
                2,
                2 + node_depth(*tree) as int,
                self.indent as int,
            );
            vstd::arithmetic::mul::lemma_mul_inequality(
                1,
                2 + node_depth(*tree) as int,
                self.indent as int,
            );
            reveal_strlit("html");
            reveal_strlit("head");
            reveal_strlit("body");
            reveal_strlit("lang");
            reveal_strlit("en");
            reveal_strlit("dir");
            reveal_strlit("ltr");
            reveal_strlit("<title>");
            reveal_strlit("</title>");
        }
        let none: Vec<(String, String)> = Vec::new();
        let lang = ("lang".to_owned(), "en".to_owned());
        let dir = ("dir".to_owned(), "ltr".to_owned());
        let ghost lang_v = (seq!['l', 'a', 'n', 'g'], seq!['e', 'n']);
        let ghost dir_v = (seq!['d', 'i', 'r'], seq!['l', 't', 'r']);
        proof {
            assert(lang.0@ =~= lang_v.0);
            assert(lang.1@ =~= lang_v.1);
            assert(dir.0@ =~= dir_v.0);
            assert(dir.1@ =~= dir_v.1);
        }
        let mut html_attribs: Vec<(String, String)> = Vec::new();
        html_attribs.push(lang);
        html_attribs.push(dir);
        let ghost html = seq!['h', 't', 'm', 'l'];
        let ghost head = seq!['h', 'e', 'a', 'd'];
        let ghost body = seq!['b', 'o', 'd', 'y'];
        proof {
            assert(pairs_view(none@) =~= Seq::<(Seq<char>, Seq<char>)>::empty());
            assert(pairs_view(html_attribs@) =~= seq![lang_v, dir_v]);
            assert("html"@ =~= html);
            assert("head"@ =~= head);
            assert("body"@ =~= body);
        }
        let ghost mut acc: Seq<(nat, Seq<char>)> = Seq::empty();
        proof {
            assert(out@ =~= start + lines_text(acc, indent));
        }
        self.write_line("<!DOCTYPE html>", out, 0);
        proof {
            lemma_lines_push(acc, (0nat, "<!DOCTYPE html>"@), indent);
            acc = acc.push((0nat, "<!DOCTYPE html>"@));
        }
        self.start_node("html", none.as_slice(), html_attribs.as_slice(), out, 0);
        proof {
            let x = (0nat, open_tag(html, Seq::empty(), seq![lang_v, dir_v], false));
            lemma_lines_push(acc, x, indent);
            acc = acc.push(x);
        }
        self.start_node("head", none.as_slice(), none.as_slice(), out, 1);
        proof {
            let x = (1nat, plain_open(head));
            lemma_lines_push(acc, x, indent);
            acc = acc.push(x);
        }
        self.write_line("<meta charset=\"utf-8\">", out, 2);
        proof {
            let x = (2nat, "<meta charset=\"utf-8\">"@);
            lemma_lines_push(acc, x, indent);
            acc = acc.push(x);
            assert(out@ =~= start + lines_text(acc, indent));
        }
        let ghost title_lines = match title_view(self.title) {
            Some(t) => seq![
                (2nat, seq!['<', 't', 'i', 't', 'l', 'e', '>'] + t + seq![
                    '<',
                    '/',
                    't',
                    'i',
                    't',
                    'l',
                    'e',
                    '>',
                ]),
            ],
            None => Seq::<(nat, Seq<char>)>::empty(),
        };
        match &self.title {
            Some(title) => {
                let mut line = String::new();
                push_str(&mut line, "<title>");
                push_str(&mut line, title.as_str());
                push_str(&mut line, "</title>");
                self.write_line(line.as_str(), out, 2);
                proof {
                    assert(line@ =~= title_lines[0].1);
                    lemma_lines_push(acc, title_lines[0], indent);
                    assert(acc.push(title_lines[0]) =~= acc + title_lines);
                }
            },
            None => {
                proof {
                    assert(acc + title_lines =~= acc);
                }
            },
        }
        proof {
            acc = acc + title_lines;
            assert(out@ =~= start + lines_text(acc, indent));
        }
        self.stop_node("head", out, 1);
        proof {
            let x = (1nat, close_tag(head));
            lemma_lines_push(acc, x, indent);
            acc = acc.push(x);
        }
        self.start_node("body", none.as_slice(), none.as_slice(), out, 1);
        proof {
            let x = (1nat, plain_open(body));
            lemma_lines_push(acc, x, indent);
            acc = acc.push(x);
            assert(out@ =~= start + lines_text(acc, indent));
        }
        self.write_node(out, tree, 2);
        proof {
            lemma_lines_text_concat(acc, node_lines(*tree, 2), indent);
            acc = acc + node_lines(*tree, 2);
            assert(out@ =~= start + lines_text(acc, indent));
        }
        self.stop_node("body", out, 1);
        proof {
            let x = (1nat, close_tag(body));
            lemma_lines_push(acc, x, indent);
            acc = acc.push(x);
        }
        self.stop_node("html", out, 0);
        proof {
            let x = (0nat, close_tag(html));
            lemma_lines_push(acc, x, indent);
            acc = acc.push(x);
            assert(out@ =~= start + lines_text(acc, indent));
            assert(acc =~= document_lines(title_view(self.title), *tree));
        }
    }

    /// The document for `tree`.
    pub fn render(&self, tree: &HtmlNode) -> (r: String)
        requires
            2 + node_depth(*tree) < usize::MAX,
            (2 + node_depth(*tree)) * self.indent <= usize::MAX,
        ensures
            r@ == lines_text(document_lines(title_view(self.title), *tree), self.indent as nat),
    {
        let mut out = String::new();
        self.write_document(&mut out, tree);
        proof {
            assert(out@ =~= lines_text(document_lines(title_view(self.title), *tree), self.indent as nat));
        }
        out
    }
}

} // verus!

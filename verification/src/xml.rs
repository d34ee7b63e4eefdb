//! XML string building.

use vstd::prelude::*;

verus! {

broadcast use vstd::seq::group_seq_axioms;

/// XML namespaces used in `word/document.xml`.
pub const NS_W: &'static str = "http://schemas.openxmlformats.org/wordprocessingml/2006/main";
pub const NS_R: &'static str = "http://schemas.openxmlformats.org/officeDocument/2006/relationships";
pub const NS_WP: &'static str = "http://schemas.openxmlformats.org/drawingml/2006/wordprocessingDrawing";
pub const NS_A: &'static str = "http://schemas.openxmlformats.org/drawingml/2006/main";
pub const NS_PIC: &'static str = "http://schemas.openxmlformats.org/drawingml/2006/picture";
pub const NS_WPS: &'static str = "http://schemas.microsoft.com/office/word/2010/wordprocessingShape";
pub const NS_MC: &'static str = "http://schemas.openxmlformats.org/markup-compatibility/2006";
pub const NS_W14: &'static str = "http://schemas.microsoft.com/office/word/2010/wordml";

/// The standard XML declaration written at the start of every part.
pub const XML_DECL: &'static str = "<?xml version=\"1.0\" encoding=\"UTF-8\" standalone=\"yes\"?>\r\n";

/// A whole part: the XML declaration followed by the root element.
pub open spec fn part(root: Node) -> Seq<char> {
    XML_DECL@ + ser(root)
}

/// A node of the XML tree that a builder has produced.
#[verifier::ext_equal]
pub enum Node {
    /// An element with its tag, its attributes (key, unescaped value) in
    /// writing order, and its children.
    Elem { tag: Seq<char>, attrs: Seq<(Seq<char>, Seq<char>)>, kids: Seq<Node> },
    /// Character data, written escaped.
    Text(Seq<char>),
    /// A prebuilt fragment, written verbatim.
    Raw(Seq<char>),
}

/// The abstract state of a builder: the elements that are still open,
/// innermost first, around the finished top-level nodes.
#[verifier::ext_equal]
pub enum Ctx {
    /// No element is open; the finished top-level nodes so far.
    Top(Seq<Node>),
    /// An element is open inside `parent`, with the attributes and finished
    /// children it has so far.
    In { parent: Box<Ctx>, tag: Seq<char>, attrs: Seq<(Seq<char>, Seq<char>)>, kids: Seq<Node> },
}

/// The escaped form of one character.
pub open spec fn escape_char(c: char) -> Seq<char> {
    if c == '&' {
        seq!['&', 'a', 'm', 'p', ';']
    } else if c == '<' {
        seq!['&', 'l', 't', ';']
    } else if c == '>' {
        seq!['&', 'g', 't', ';']
    } else if c == '"' {
        seq!['&', 'q', 'u', 'o', 't', ';']
    } else if c == '\'' {
        seq!['&', 'a', 'p', 'o', 's', ';']
    } else {
        seq![c]
    }
}

/// Text with the five XML special characters replaced by entities.
pub open spec fn escape(s: Seq<char>) -> Seq<char>
    decreases s.len(),
{
    if s.len() == 0 {
        Seq::empty()
    } else {
        escape(s.drop_last()) + escape_char(s.last())
    }
}

/// Escaped text holds no markup delimiter: no `<`, `>`, `"` or `'`, so
/// neither character data nor an attribute value can end early.
pub proof fn escape_is_inert(s: Seq<char>)
    ensures
        forall|i: int| 0 <= i < escape(s).len() ==> {
            let c = #[trigger] escape(s)[i];
            c != '<' && c != '>' && c != '"' && c != '\''
        },
    decreases s.len(),
{
    if s.len() > 0 {
        escape_is_inert(s.drop_last());
        let e = escape(s.drop_last());
        let t = escape_char(s.last());
        assert forall|i: int| 0 <= i < escape(s).len() implies {
            let c = #[trigger] escape(s)[i];
            c != '<' && c != '>' && c != '"' && c != '\''
        } by {
            if i < e.len() {
                assert(escape(s)[i] == e[i]);
            } else {
                assert(escape(s)[i] == t[i - e.len()]);
            }
        }
    }
}

/// Reads escaped text back: each of the five entities that `escape`
/// writes stands for its character, and every other character for itself.
pub open spec fn unescape(t: Seq<char>) -> Seq<char>
    decreases t.len(),
{
    if t.len() == 0 {
        Seq::empty()
    } else if t.len() >= 5 && t.take(5) == seq!['&', 'a', 'm', 'p', ';'] {
        seq!['&'] + unescape(t.skip(5))
    } else if t.len() >= 4 && t.take(4) == seq!['&', 'l', 't', ';'] {
        seq!['<'] + unescape(t.skip(4))
    } else if t.len() >= 4 && t.take(4) == seq!['&', 'g', 't', ';'] {
        seq!['>'] + unescape(t.skip(4))
    } else if t.len() >= 6 && t.take(6) == seq!['&', 'q', 'u', 'o', 't', ';'] {
        seq!['"'] + unescape(t.skip(6))
    } else if t.len() >= 6 && t.take(6) == seq!['&', 'a', 'p', 'o', 's', ';'] {
        seq!['\''] + unescape(t.skip(6))
    } else {
        seq![t[0]] + unescape(t.skip(1))
    }
}

proof fn lemma_escape_cons(c: char, s: Seq<char>)
    ensures
        escape(seq![c] + s) == escape_char(c) + escape(s),
    decreases s.len(),
{
    if s.len() == 0 {
        assert(seq![c] + s =~= seq![c]);
        assert(seq![c].drop_last() =~= Seq::<char>::empty());
        assert(escape(Seq::<char>::empty()) =~= Seq::<char>::empty());
        assert(escape(seq![c]) == escape(seq![c].drop_last()) + escape_char(seq![c].last()));
        assert(escape(seq![c]) =~= escape_char(c));
        assert(escape_char(c) + escape(s) =~= escape_char(c));
    } else {
        lemma_escape_cons(c, s.drop_last());
        assert((seq![c] + s).drop_last() =~= seq![c] + s.drop_last());
        assert((seq![c] + s).last() == s.last());
        assert(escape(seq![c] + s) == escape((seq![c] + s).drop_last()) + escape_char((seq![c] + s).last()));
        assert(escape_char(c) + escape(s.drop_last()) + escape_char(s.last())
            =~= escape_char(c) + (escape(s.drop_last()) + escape_char(s.last())));
    }
}

proof fn lemma_unescape_char(c: char, rest: Seq<char>)
    ensures
        unescape(escape_char(c) + rest) == seq![c] + unescape(rest),
{
    let t = escape_char(c) + rest;
    let amp = seq!['&', 'a', 'm', 'p', ';'];
    let lt = seq!['&', 'l', 't', ';'];
    let gt = seq!['&', 'g', 't', ';'];
    let quot = seq!['&', 'q', 'u', 'o', 't', ';'];
    let apos = seq!['&', 'a', 'p', 'o', 's', ';'];
    if c == '&' {
        assert(t.take(5) =~= amp);
        assert(t.skip(5) =~= rest);
    } else if c == '<' {
        assert(t.len() >= 5 ==> t.take(5)[1] != amp[1]);
        assert(t.take(4) =~= lt);
        assert(t.skip(4) =~= rest);
    } else if c == '>' {
        assert(t.len() >= 5 ==> t.take(5)[1] != amp[1]);
        assert(t.take(4)[1] != lt[1]);
        assert(t.take(4) =~= gt);
        assert(t.skip(4) =~= rest);
    } else if c == '"' {
        assert(t.take(5)[1] != amp[1]);
        assert(t.take(4)[1] != lt[1]);
        assert(t.take(4)[1] != gt[1]);
        assert(t.take(6) =~= quot);
        assert(t.skip(6) =~= rest);
    } else if c == '\'' {
        assert(t.take(5)[4] != amp[4]);
        assert(t.take(4)[1] != lt[1]);
        assert(t.take(4)[1] != gt[1]);
        assert(t.take(6)[1] != quot[1]);
        assert(t.take(6) =~= apos);
        assert(t.skip(6) =~= rest);
    } else {
        assert(t[0] == c);
        assert(t.len() >= 5 ==> t.take(5)[0] != amp[0]);
        assert(t.len() >= 4 ==> t.take(4)[0] != lt[0]);
        assert(t.len() >= 4 ==> t.take(4)[0] != gt[0]);
        assert(t.len() >= 6 ==> t.take(6)[0] != quot[0]);
        assert(t.len() >= 6 ==> t.take(6)[0] != apos[0]);
        assert(t.skip(1) =~= rest);
    }
}

/// Escaping loses nothing: reading escaped text back gives exactly the
/// text that was escaped, so every attribute value and every piece of
/// character data the builder writes reads back as it was passed.
pub proof fn escape_round_trip(s: Seq<char>)
    ensures
        unescape(escape(s)) == s,
    decreases s.len(),
{
    if s.len() > 0 {
        let rest = s.drop_first();
        assert(s =~= seq![s[0]] + rest);
        lemma_escape_cons(s[0], rest);
        lemma_unescape_char(s[0], escape(rest));
        escape_round_trip(rest);
    }
}

/// ` key="value"` with the value escaped.
pub open spec fn ser_attr(a: (Seq<char>, Seq<char>)) -> Seq<char> {
    seq![' '] + a.0 + seq!['=', '"'] + escape(a.1) + seq!['"']
}

pub open spec fn ser_attrs(attrs: Seq<(Seq<char>, Seq<char>)>) -> Seq<char>
    decreases attrs.len(),
{
    if attrs.len() == 0 {
        Seq::empty()
    } else {
        ser_attrs(attrs.drop_last()) + ser_attr(attrs.last())
    }
}

/// `<tag attrs` without the closing `>` of the start tag.
pub open spec fn start_tag(tag: Seq<char>, attrs: Seq<(Seq<char>, Seq<char>)>) -> Seq<char> {
    seq!['<'] + tag + ser_attrs(attrs)
}

/// The serialization of a node. An element without children is written as
/// an empty-element tag.
pub open spec fn ser(n: Node) -> Seq<char>
    decreases n,
{
    match n {
        Node::Elem { tag, attrs, kids } => if kids.len() == 0 {
            start_tag(tag, attrs) + seq!['/', '>']
        } else {
            start_tag(tag, attrs) + seq!['>'] + ser_seq(kids) + seq!['<', '/'] + tag + seq!['>']
        },
        Node::Text(t) => escape(t),
        Node::Raw(r) => r,
    }
}

/// The serialization of a sequence of sibling nodes.
pub open spec fn ser_seq(s: Seq<Node>) -> Seq<char>
    decreases s,
{
    if s.len() == 0 {
        Seq::empty()
    } else {
        ser_seq(s.drop_last()) + ser(s.last())
    }
}

/// What an element has written so far while it is the innermost open one.
pub open spec fn ser_open(tag: Seq<char>, attrs: Seq<(Seq<char>, Seq<char>)>, kids: Seq<Node>) -> Seq<char> {
    if kids.len() == 0 {
        start_tag(tag, attrs)
    } else {
        start_tag(tag, attrs) + seq!['>'] + ser_seq(kids)
    }
}

/// What the context has written once its innermost start tag is closed.
pub open spec fn ser_sealed(c: Ctx) -> Seq<char>
    decreases c,
{
    match c {
        Ctx::Top(s) => ser_seq(s),
        Ctx::In { parent, tag, attrs, kids } => ser_sealed(*parent) + start_tag(tag, attrs) + seq!['>'] + ser_seq(kids),
    }
}

/// The text a builder in state `c` has produced.
pub open spec fn ser_ctx(c: Ctx) -> Seq<char> {
    match c {
        Ctx::Top(s) => ser_seq(s),
        Ctx::In { parent, tag, attrs, kids } => ser_sealed(*parent) + ser_open(tag, attrs, kids),
    }
}

/// The tags of the open elements, outermost first.
pub open spec fn open_tags(c: Ctx) -> Seq<Seq<char>>
    decreases c,
{
    match c {
        Ctx::Top(_) => Seq::empty(),
        Ctx::In { parent, tag, .. } => open_tags(*parent).push(tag),
    }
}

/// Whether the innermost open element has no children yet, so that its
/// start tag is still open for attributes.
pub open spec fn start_pending(c: Ctx) -> bool {
    match c {
        Ctx::Top(_) => false,
        Ctx::In { kids, .. } => kids.len() == 0,
    }
}

/// The state after a finished node is appended to the innermost open
/// element, or to the top level when no element is open.
pub open spec fn add_node(c: Ctx, n: Node) -> Ctx {
    match c {
        Ctx::Top(s) => Ctx::Top(s.push(n)),
        Ctx::In { parent, tag, attrs, kids } => Ctx::In { parent, tag, attrs, kids: kids.push(n) },
    }
}

/// The state after finished nodes are appended one after another.
pub open spec fn add_nodes(c: Ctx, ns: Seq<Node>) -> Ctx {
    match c {
        Ctx::Top(s) => Ctx::Top(s + ns),
        Ctx::In { parent, tag, attrs, kids } => Ctx::In { parent, tag, attrs, kids: kids + ns },
    }
}

/// Appending nodes one at a time.
pub proof fn lemma_add_nodes_push(c: Ctx, ns: Seq<Node>, n: Node)
    ensures
        add_nodes(c, ns.push(n)) == add_node(add_nodes(c, ns), n),
        add_nodes(c, Seq::empty()) == c,
{
    match c {
        Ctx::Top(s) => {
            assert(s + ns.push(n) =~= (s + ns).push(n));
            assert(s + Seq::<Node>::empty() =~= s);
        },
        Ctx::In { parent, tag, attrs, kids } => {
            assert(kids + ns.push(n) =~= (kids + ns).push(n));
            assert(kids + Seq::<Node>::empty() =~= kids);
        },
    }
}

/// The state after an element is opened.
pub open spec fn push_frame(c: Ctx, tag: Seq<char>) -> Ctx {
    Ctx::In { parent: Box::new(c), tag, attrs: Seq::empty(), kids: Seq::empty() }
}

/// The state after an attribute is written on the innermost open element.
pub open spec fn add_attr(c: Ctx, key: Seq<char>, value: Seq<char>) -> Ctx {
    match c {
        Ctx::Top(s) => Ctx::Top(s),
        Ctx::In { parent, tag, attrs, kids } => Ctx::In { parent, tag, attrs: attrs.push((key, value)), kids },
    }
}

/// The state after the innermost open element is closed.
pub open spec fn pop_frame(c: Ctx) -> Ctx {
    match c {
        Ctx::Top(s) => Ctx::Top(s),
        Ctx::In { parent, tag, attrs, kids } => add_node(*parent, Node::Elem { tag, attrs, kids }),
    }
}

/// A minimal streaming XML builder.
///
/// Elements are opened with [`begin`](Self::begin) and closed with
/// [`end`](Self::end); attributes must be written directly after `begin`.
/// Prebuilt fragments can be injected verbatim with [`raw`](Self::raw).
pub struct Xml {
    buf: Vec<char>,
    stack: Vec<&'static str>,
    /// Whether the most recent start tag is still missing its closing `>`.
    open: bool,
    model: Ghost<Ctx>,
}

impl View for Xml {
    type V = Ctx;

    closed spec fn view(&self) -> Ctx {
        self.model@
    }
}

proof fn lemma_ser_seq_push(s: Seq<Node>, n: Node)
    ensures ser_seq(s.push(n)) == ser_seq(s) + ser(n),
{
    assert(s.push(n).drop_last() =~= s);
}

proof fn lemma_ser_attrs_push(a: Seq<(Seq<char>, Seq<char>)>, kv: (Seq<char>, Seq<char>))
    ensures ser_attrs(a.push(kv)) == ser_attrs(a) + ser_attr(kv),
{
    assert(a.push(kv).drop_last() =~= a);
}

/// A single node serializes as itself.
pub proof fn lemma_ser_single(n: Node)
    ensures
        ser_seq(seq![n]) == ser(n),
{
    assert(seq![n].drop_last() =~= Seq::<Node>::empty());
    assert(ser_seq(Seq::<Node>::empty()) =~= Seq::<char>::empty());
    assert(Seq::<char>::empty() + ser(n) =~= ser(n));
}

/// Sibling sequences whose members serialize alike serialize alike.
pub proof fn lemma_ser_seq_same(a: Seq<Node>, b: Seq<Node>)
    requires
        a.len() == b.len(),
        forall|i: int| 0 <= i < a.len() ==> ser(#[trigger] a[i]) == ser(b[i]),
    ensures
        ser_seq(a) == ser_seq(b),
    decreases a.len(),
{
    if a.len() > 0 {
        lemma_ser_seq_same(a.drop_last(), b.drop_last());
    }
}

/// The serialization of consecutive siblings is the concatenation.
pub proof fn lemma_ser_seq_concat(a: Seq<Node>, b: Seq<Node>)
    ensures
        ser_seq(a + b) == ser_seq(a) + ser_seq(b),
    decreases b.len(),
{
    if b.len() == 0 {
        assert(a + b =~= a);
        assert(ser_seq(a) + Seq::<char>::empty() =~= ser_seq(a));
    } else {
        lemma_ser_seq_concat(a, b.drop_last());
        assert((a + b).drop_last() =~= a + b.drop_last());
        assert(ser_seq(a) + ser_seq(b.drop_last()) + ser(b.last()) =~= ser_seq(a) + (ser_seq(b.drop_last()) + ser(b.last())));
    }
}

/// Closing the pending start tag turns what was written into the sealed form.
proof fn lemma_seal(c: Ctx)
    ensures
        ser_sealed(c) == ser_ctx(c) + (if start_pending(c) { seq!['>'] } else { Seq::<char>::empty() }),
{
    match c {
        Ctx::Top(s) => {
            assert(ser_sealed(c) =~= ser_ctx(c) + Seq::<char>::empty());
        },
        Ctx::In { parent, tag, attrs, kids } => {
            if kids.len() == 0 {
                assert(ser_seq(kids) =~= Seq::<char>::empty());
            }
            assert(ser_sealed(c) =~= ser_ctx(c) + (if start_pending(c) { seq!['>'] } else { Seq::<char>::empty() }));
        },
    }
}

/// Appending a finished node after sealing the innermost element.
proof fn lemma_add_node(c: Ctx, n: Node)
    ensures
        ser_ctx(add_node(c, n)) == ser_sealed(c) + ser(n),
        open_tags(add_node(c, n)) == open_tags(c),
        !start_pending(add_node(c, n)),
{
    match c {
        Ctx::Top(s) => {
            lemma_ser_seq_push(s, n);
        },
        Ctx::In { parent, tag, attrs, kids } => {
            lemma_ser_seq_push(kids, n);
            assert(ser_ctx(add_node(c, n)) =~= ser_sealed(c) + ser(n));
        },
    }
}

impl Xml {
    /// The builder's internal state agrees with its abstract state.
    pub closed spec fn wf(&self) -> bool {
        &&& self.buf@ == ser_ctx(self.model@)
        &&& self.stack@.len() == open_tags(self.model@).len()
        &&& forall|i: int| 0 <= i < self.stack@.len() ==> (#[trigger] self.stack@[i])@ == open_tags(self.model@)[i]
        &&& self.open == start_pending(self.model@)
    }

    pub fn new() -> (r: Self)
        ensures
            r.wf(),
            r@ == Ctx::Top(Seq::empty()),
    {
        Xml { buf: Vec::new(), stack: Vec::new(), open: false, model: Ghost(Ctx::Top(Seq::empty())) }
    }

    /// Close the pending start tag, if any.
    fn seal(&mut self)
        requires old(self).wf(),
        ensures
            final(self).stack@ == old(self).stack@,
            final(self).model@ == old(self).model@,
            !final(self).open,
            final(self).buf@ == ser_sealed(old(self).model@),
    {
        proof { lemma_seal(self.model@); }
        if self.open {
            self.buf.push('>');
            self.open = false;
        }
        assert(self.buf@ =~= ser_sealed(old(self).model@));
    }

    fn push_str(&mut self, s: &str)
        ensures
            final(self).buf@ == old(self).buf@ + s@,
            final(self).stack@ == old(self).stack@,
            final(self).open == old(self).open,
            final(self).model@ == old(self).model@,
    {
        let cs = chars_of(s);
        let mut i: usize = 0;
        while i < cs.len()
            invariant
                i <= cs@.len(),
                cs@ == s@,
                self.buf@ == old(self).buf@ + s@.take(i as int),
                self.stack@ == old(self).stack@,
                self.open == old(self).open,
                self.model@ == old(self).model@,
            decreases cs@.len() - i,
        {
            self.buf.push(cs[i]);
            i = i + 1;
            assert(s@.take(i as int) =~= s@.take(i - 1).push(cs@[i - 1]));
        }
        assert(s@.take(i as int) =~= s@);
    }

    /// Append the escaped form of `s`.
    fn push_escaped(&mut self, s: &str)
        ensures
            final(self).buf@ == old(self).buf@ + escape(s@),
            final(self).stack@ == old(self).stack@,
            final(self).open == old(self).open,
            final(self).model@ == old(self).model@,
    {
        let cs = chars_of(s);
        let mut i: usize = 0;
        assert(escape(s@.take(0)) =~= Seq::<char>::empty());
        assert(self.buf@ =~= old(self).buf@ + escape(s@.take(0)));
        while i < cs.len()
            invariant
                i <= cs@.len(),
                cs@ == s@,
                self.buf@ == old(self).buf@ + escape(s@.take(i as int)),
                self.stack@ == old(self).stack@,
                self.open == old(self).open,
                self.model@ == old(self).model@,
            decreases cs@.len() - i,
        {
            let c = cs[i];
            let ghost before = self.buf@;
            if c == '&' {
                self.buf.push('&'); self.buf.push('a'); self.buf.push('m'); self.buf.push('p'); self.buf.push(';');
            } else if c == '<' {
                self.buf.push('&'); self.buf.push('l'); self.buf.push('t'); self.buf.push(';');
            } else if c == '>' {
                self.buf.push('&'); self.buf.push('g'); self.buf.push('t'); self.buf.push(';');
            } else if c == '"' {
                self.buf.push('&'); self.buf.push('q'); self.buf.push('u'); self.buf.push('o'); self.buf.push('t'); self.buf.push(';');
            } else if c == '\'' {
                self.buf.push('&'); self.buf.push('a'); self.buf.push('p'); self.buf.push('o'); self.buf.push('s'); self.buf.push(';');
            } else {
                self.buf.push(c);
            }
            assert(self.buf@ =~= before + escape_char(c));
            i = i + 1;
            assert(s@.take(i as int).drop_last() =~= s@.take(i - 1));
            assert(escape(s@.take(i as int)) == escape(s@.take(i - 1)) + escape_char(c));
        }
        assert(s@.take(i as int) =~= s@);
    }

    /// Open an element. Must eventually be matched by [`end`](Self::end).
    pub fn begin(&mut self, tag: &'static str) -> (r: &mut Self)
        requires old(self).wf(),
        ensures
            *final(self) == *final(r),
            r.wf(),
            r@ == push_frame(old(self)@, tag@),
    {
        self.seal();
        self.buf.push('<');
        self.push_str(tag);
        self.stack.push(tag);
        self.open = true;
        proof {
            let c = old(self).model@;
            let t = push_frame(c, tag@);
            self.model@ = t;
            assert(ser_attrs(Seq::<(Seq<char>, Seq<char>)>::empty()) =~= Seq::<char>::empty());
            assert(self.buf@ =~= ser_ctx(t));
            assert forall|i: int| 0 <= i < self.stack@.len() implies (#[trigger] self.stack@[i])@ == open_tags(t)[i] by {
                if i < open_tags(c).len() {
                    assert(self.stack@[i] == old(self).stack@[i]);
                }
            }
        }
        self
    }

    /// Write an attribute on the currently opened element.
    pub fn attr(&mut self, key: &str, value: &str) -> (r: &mut Self)
        requires
            old(self).wf(),
            start_pending(old(self)@),
        ensures
            *final(self) == *final(r),
            r.wf(),
            r@ == add_attr(old(self)@, key@, value@),
    {
        self.push_str(" ");
        self.push_str(key);
        self.push_str("=\"");
        self.push_escaped(value);
        self.push_str("\"");
        proof {
            reveal_strlit(" ");
            reveal_strlit("=\"");
            reveal_strlit("\"");
            let c = old(self).model@;
            let t = add_attr(c, key@, value@);
            self.model@ = t;
            match c {
                Ctx::In { parent, tag, attrs, kids } => {
                    lemma_ser_attrs_push(attrs, (key@, value@));
                },
                _ => {},
            }
            assert(self.buf@ =~= ser_ctx(t));
        }
        self
    }

    /// Write an integer-valued attribute on the currently opened element.
    pub fn attr_int(&mut self, key: &str, value: i64) -> (r: &mut Self)
        requires
            old(self).wf(),
            start_pending(old(self)@),
        ensures
            *final(self) == *final(r),
            r.wf(),
            r@ == add_attr(old(self)@, key@, decimal(value as int)),
    {
        let v = int_string(value);
        self.attr(key, v.as_str())
    }

    /// Close the most recently opened element.
    pub fn end(&mut self) -> (r: &mut Self)
        requires
            old(self).wf(),
            old(self)@ is In,
        ensures
            *final(self) == *final(r),
            r.wf(),
            r@ == pop_frame(old(self)@),
    {
        let tag = self.stack.pop().unwrap();
        let ghost c = old(self).model@;
        let ghost before = self.buf@;
        if self.open {
            self.push_str("/>");
            self.open = false;
            proof { reveal_strlit("/>"); }
        } else {
            self.push_str("</");
            self.push_str(tag);
            self.push_str(">");
            proof { reveal_strlit("</"); reveal_strlit(">"); }
        }
        proof {
            match c {
                Ctx::In { parent, tag: ctag, attrs, kids } => {
                    let n = Node::Elem { tag: ctag, attrs, kids };
                    let t = pop_frame(c);
                    self.model@ = t;
                    assert(open_tags(c) == open_tags(*parent).push(ctag));
                    assert(tag@ == ctag);
                    lemma_add_node(*parent, n);
                    assert(ser(n) =~= ser_open(ctag, attrs, kids) + self.buf@.skip(before.len() as int));
                    assert(self.buf@ =~= before + self.buf@.skip(before.len() as int));
                    assert(self.buf@ =~= ser_ctx(t));
                    assert(self.stack@ =~= old(self).stack@.drop_last());
                    assert forall|i: int| 0 <= i < self.stack@.len() implies (#[trigger] self.stack@[i])@ == open_tags(t)[i] by {
                        assert(self.stack@[i] == old(self).stack@[i]);
                    }
                },
                _ => {},
            }
        }
        self
    }

    /// Write an empty element without attributes.
    pub fn leaf(&mut self, tag: &'static str) -> (r: &mut Self)
        requires old(self).wf(),
        ensures
            *final(self) == *final(r),
            r.wf(),
            r@ == add_node(old(self)@, Node::Elem { tag: tag@, attrs: Seq::empty(), kids: Seq::empty() }),
    {
        self.begin(tag);
        self.end()
    }

    /// Write escaped character data.
    pub fn text(&mut self, text: &str) -> (r: &mut Self)
        requires old(self).wf(),
        ensures
            *final(self) == *final(r),
            r.wf(),
            r@ == add_node(old(self)@, Node::Text(text@)),
    {
        self.seal();
        self.push_escaped(text);
        self.record_node(Ghost(old(self).model@), Ghost(Node::Text(text@)));
        self
    }

    /// Inject a prebuilt XML fragment verbatim.
    pub fn raw(&mut self, xml: &str) -> (r: &mut Self)
        requires old(self).wf(),
        ensures
            *final(self) == *final(r),
            r.wf(),
            r@ == add_node(old(self)@, Node::Raw(xml@)),
    {
        self.seal();
        self.push_str(xml);
        self.record_node(Ghost(old(self).model@), Ghost(Node::Raw(xml@)));
        self
    }

    fn record_node(&mut self, Ghost(c): Ghost<Ctx>, Ghost(n): Ghost<Node>)
        requires
            old(self).model@ == c,
            old(self).buf@ == ser_sealed(c) + ser(n),
            old(self).stack@.len() == open_tags(c).len(),
            forall|i: int| 0 <= i < old(self).stack@.len() ==> (#[trigger] old(self).stack@[i])@ == open_tags(c)[i],
            !old(self).open,
        ensures
            final(self).wf(),
            final(self).model@ == add_node(c, n),
            final(self).buf@ == old(self).buf@,
            final(self).stack@ == old(self).stack@,
            final(self).open == old(self).open,
    {
        proof {
            self.model@ = add_node(c, n);
            lemma_add_node(c, n);
        }
    }

    /// Finish building a part that consists of one root element, and
    /// return it behind the XML declaration.
    pub fn finish_part(self) -> (r: String)
        requires
            self.wf(),
            self@ is Top,
            self@->Top_0.len() == 1,
        ensures
            r@ == part(self@->Top_0[0]),
    {
        let ghost top = self@->Top_0;
        let body = self.finish();
        proof {
            assert(top.drop_last() =~= Seq::<Node>::empty());
            assert(ser_seq(top.drop_last()) =~= Seq::<char>::empty());
            assert(ser_seq(top) =~= ser(top[0]));
        }
        concat(XML_DECL, body.as_str())
    }

    /// Finish building and return the XML string.
    pub fn finish(self) -> (r: String)
        requires
            self.wf(),
            self@ is Top,
        ensures
            r@ == ser_seq(self@->Top_0),
    {
        let mut me = self;
        me.seal();
        string_from_chars(&me.buf)
    }
} // impl Xml

} // verus!

verus! {

/// The decimal representation of a natural number.
pub open spec fn decimal_nat(n: nat) -> Seq<char>
    decreases n,
{
    if n < 10 {
        seq![digit(n)]
    } else {
        decimal_nat(n / 10).push(digit(n % 10))
    }
}

pub open spec fn digit(d: nat) -> char {
    (48 + d) as char
}

/// The number that a string of decimal digits denotes.
pub open spec fn digits_value(s: Seq<char>) -> int
    decreases s.len(),
{
    if s.len() == 0 {
        0
    } else {
        digits_value(s.drop_last()) * 10 + (s.last() as int - 48)
    }
}

/// Whether a character is a decimal digit.
pub open spec fn is_digit(c: char) -> bool {
    '0' <= c <= '9'
}

proof fn lemma_decimal_nat(n: nat)
    ensures
        digits_value(decimal_nat(n)) == n,
        decimal_nat(n).len() > 0,
        forall|i: int| 0 <= i < decimal_nat(n).len() ==> is_digit(#[trigger] decimal_nat(n)[i]),
    decreases n,
{
    if n < 10 {
        assert(digit(n) as int == 48 + n);
        let s = decimal_nat(n);
        assert(s.drop_last() =~= Seq::<char>::empty());
        assert(digits_value(s.drop_last()) == 0);
        assert(s.last() == digit(n));
        assert(digits_value(s) == digits_value(s.drop_last()) * 10 + (s.last() as int - 48));
    } else {
        lemma_decimal_nat(n / 10);
        let p = decimal_nat(n / 10);
        let s = decimal_nat(n);
        assert(s.drop_last() =~= p);
        assert(digit(n % 10) as int == 48 + n % 10);
        assert((n / 10) * 10 + n % 10 == n);
        assert(s.last() == digit(n % 10));
        assert(digits_value(s) == digits_value(s.drop_last()) * 10 + (s.last() as int - 48));
        assert forall|i: int| 0 <= i < s.len() implies is_digit(#[trigger] s[i]) by {
            if i < p.len() {
                assert(s[i] == p[i]);
            }
        }
    }
}

/// Distinct numbers have distinct decimal representations, made of digits
/// only.
pub proof fn decimal_is_injective(a: nat, b: nat)
    ensures
        decimal_nat(a) == decimal_nat(b) ==> a == b,
        forall|i: int| 0 <= i < decimal_nat(a).len() ==> is_digit(#[trigger] decimal_nat(a)[i]),
        decimal_nat(a).len() > 0,
{
    lemma_decimal_nat(a);
    lemma_decimal_nat(b);
}

/// The decimal representation of an integer, with a leading `-` if negative.
pub open spec fn decimal(v: int) -> Seq<char> {
    if v < 0 {
        seq!['-'] + decimal_nat((-v) as nat)
    } else {
        decimal_nat(v as nat)
    }
}

fn nat_chars(n: u64) -> (v: Vec<char>)
    ensures v@ == decimal_nat(n as nat),
    decreases n,
{
    let d = (n % 10) as u32;
    let c = char_from_digit(d);
    if n < 10 {
        let mut v: Vec<char> = Vec::new();
        v.push(c);
        v
    } else {
        let mut v = nat_chars(n / 10);
        v.push(c);
        v
    }
}

fn char_from_digit(d: u32) -> (c: char)
    requires d < 10,
    ensures c == digit(d as nat),
{
    if d == 0 { '0' } else if d == 1 { '1' } else if d == 2 { '2' } else if d == 3 { '3' }
    else if d == 4 { '4' } else if d == 5 { '5' } else if d == 6 { '6' } else if d == 7 { '7' }
    else if d == 8 { '8' } else { '9' }
}

/// The decimal representation of `n`.
pub fn nat_string(n: u64) -> (s: String)
    ensures s@ == decimal(n as int),
{
    let digits = nat_chars(n);
    string_from_chars(&digits)
}

/// The decimal representation of `v`.
pub fn int_string(v: i64) -> (s: String)
    ensures s@ == decimal(v as int),
{
    if v < 0 {
        let mag: u64 = if v == i64::MIN { 9223372036854775808u64 } else { (-v) as u64 };
        let mut out: Vec<char> = Vec::new();
        out.push('-');
        let digits = nat_chars(mag);
        let mut i: usize = 0;
        while i < digits.len()
            invariant
                i <= digits@.len(),
                out@ == seq!['-'] + digits@.take(i as int),
            decreases digits@.len() - i,
        {
            out.push(digits[i]);
            i = i + 1;
            assert(digits@.take(i as int) =~= digits@.take(i - 1).push(digits@[i - 1]));
            assert(out@ =~= seq!['-'] + digits@.take(i as int));
        }
        assert(digits@.take(i as int) =~= digits@);
        string_from_chars(&out)
    } else {
        let digits = nat_chars(v as u64);
        string_from_chars(&digits)
    }
}

/// Collects characters into a `String` (`FromIterator<char> for String`).
#[verifier::external_body]
pub(crate) fn string_from_chars(v: &Vec<char>) -> (s: String)
    ensures s@ == v@,
{
    v.iter().collect()
}

pub fn chars_of(s: &str) -> (v: Vec<char>)
    ensures v@ == s@,
{
    broadcast use vstd::string::group_string_axioms;
    let mut v: Vec<char> = Vec::new();
    for c in it: s.chars()
        invariant
            v@ == it.seq().take(it.index() as int),
            it.seq() == s@,
    {
        v.push(c);
    }
    v
}

} // verus!

verus! {

/// The value of the first attribute named `key`, if there is one.
pub open spec fn attr_value(attrs: Seq<(Seq<char>, Seq<char>)>, key: Seq<char>) -> Option<Seq<char>>
    decreases attrs.len(),
{
    if attrs.len() == 0 {
        None
    } else if attrs[0].0 == key {
        Some(attrs[0].1)
    } else {
        attr_value(attrs.drop_first(), key)
    }
}

/// An attribute is found under its key when no earlier attribute has
/// that key.
pub proof fn lemma_attr_value_at(attrs: Seq<(Seq<char>, Seq<char>)>, i: int)
    requires
        0 <= i < attrs.len(),
        forall|j: int| 0 <= j < i ==> (#[trigger] attrs[j]).0 != attrs[i].0,
    ensures
        attr_value(attrs, attrs[i].0) == Some(attrs[i].1),
    decreases i,
{
    if i > 0 {
        let d = attrs.drop_first();
        assert forall|j: int| 0 <= j < i - 1 implies (#[trigger] d[j]).0 != d[i - 1].0 by {
            assert(d[j] == attrs[j + 1]);
        }
        lemma_attr_value_at(d, i - 1);
        assert(attrs[0].0 != attrs[i].0);
    }
}

/// Whether `n` is an element with a child element tagged `tag`.
pub open spec fn has_child(n: Node, tag: Seq<char>) -> bool {
    n is Elem && exists|i: int| 0 <= i < n->kids.len() && (#[trigger] n->kids[i]) is Elem && n->kids[i]->tag == tag
}

/// An element node.
pub open spec fn el(tag: Seq<char>, attrs: Seq<(Seq<char>, Seq<char>)>, kids: Seq<Node>) -> Node {
    Node::Elem { tag, attrs, kids }
}

/// An integer-valued attribute.
pub open spec fn ai(key: Seq<char>, v: int) -> (Seq<char>, Seq<char>) {
    (key, decimal(v))
}

/// A string-valued attribute.
pub open spec fn a_s(key: Seq<char>, v: Seq<char>) -> (Seq<char>, Seq<char>) {
    (key, v)
}

pub open spec fn max1(v: int) -> int {
    if v < 1 { 1 } else { v }
}

/// Parameters of an anchored drawing object.
pub struct Anchor<'a> {
    /// Page offset in EMU.
    pub x: i64,
    pub y: i64,
    /// Extent in EMU.
    pub cx: i64,
    pub cy: i64,
    /// Unique `wp:docPr` id and name.
    pub id: u32,
    pub name: &'a str,
    /// z-order; higher is on top.
    pub z: u32,
    /// Whether the drawing goes behind the text layer.
    pub behind: bool,
    /// The `a:graphicData` uri.
    pub uri: &'a str,
    /// The graphic fragment (`wps:wsp` or `pic:pic`).
    pub inner: &'a str,
}

/// The `w:r` run that anchors a drawing: `wp:anchor` with its children in
/// the order the schema fixes, extents of at least 1 EMU, and the graphic
/// fragment injected verbatim.
pub open spec fn anchor_node(x: int, y: int, cx: int, cy: int, id: int, name: Seq<char>, z: int,
    behind: bool, uri: Seq<char>, inner: Seq<char>) -> Node
{
    el("w:r"@, seq![], seq![
        el("w:drawing"@, seq![], seq![
            el("wp:anchor"@, seq![
                ai("distT"@, 0), ai("distB"@, 0), ai("distL"@, 0), ai("distR"@, 0),
                ai("simplePos"@, 0), ai("relativeHeight"@, z),
                ai("behindDoc"@, if behind { 1 } else { 0 }), ai("locked"@, 1),
                ai("layoutInCell"@, 0), ai("allowOverlap"@, 1),
            ], seq![
                el("wp:simplePos"@, seq![ai("x"@, 0), ai("y"@, 0)], seq![]),
                el("wp:positionH"@, seq![a_s("relativeFrom"@, "page"@)], seq![
                    el("wp:posOffset"@, seq![], seq![Node::Text(decimal(x))]),
                ]),
                el("wp:positionV"@, seq![a_s("relativeFrom"@, "page"@)], seq![
                    el("wp:posOffset"@, seq![], seq![Node::Text(decimal(y))]),
                ]),
                el("wp:extent"@, seq![ai("cx"@, max1(cx)), ai("cy"@, max1(cy))], seq![]),
                el("wp:effectExtent"@, seq![ai("l"@, 0), ai("t"@, 0), ai("r"@, 0), ai("b"@, 0)], seq![]),
                el("wp:wrapNone"@, seq![], seq![]),
                el("wp:docPr"@, seq![ai("id"@, id), a_s("name"@, name)], seq![]),
                el("wp:cNvGraphicFramePr"@, seq![], seq![]),
                el("a:graphic"@, seq![], seq![
                    el("a:graphicData"@, seq![a_s("uri"@, uri)], seq![Node::Raw(inner)]),
                ]),
            ]),
        ]),
    ])
}

/// Every anchored drawing has a positive extent, whatever size it was
/// given.
pub proof fn extents_are_positive(x: int, y: int, cx: int, cy: int, id: int, name: Seq<char>, z: int,
    behind: bool, uri: Seq<char>, inner: Seq<char>)
    ensures
        anchor_node(x, y, cx, cy, id, name, z, behind, uri, inner)->kids[0]->kids[0]->kids[3]
            == el("wp:extent"@, seq![ai("cx"@, max1(cx)), ai("cy"@, max1(cy))], seq![]),
        max1(cx) >= 1,
        max1(cy) >= 1,
        cx >= 1 ==> max1(cx) == cx,
        cy >= 1 ==> max1(cy) == cy,
{
}

/// The run of an anchor's parameters.
pub open spec fn anchor_run(a: Anchor) -> Node {
    anchor_node(a.x as int, a.y as int, a.cx as int, a.cy as int, a.id as int, a.name@, a.z as int,
        a.behind, a.uri@, a.inner@)
}

/// Build a `<w:r><w:drawing><wp:anchor>…</w:r>` run around a graphic fragment.
#[verifier::rlimit(60)]
pub fn drawing_run(anchor: &Anchor) -> (r: String)
    ensures r@ == ser(anchor_run(*anchor)),
{
    let ghost a = *anchor;
    let mut xml = Xml::new();
    xml.begin("w:r").begin("w:drawing");
    xml.begin("wp:anchor")
        .attr_int("distT", 0)
        .attr_int("distB", 0)
        .attr_int("distL", 0)
        .attr_int("distR", 0)
        .attr_int("simplePos", 0)
        .attr_int("relativeHeight", anchor.z as i64)
        .attr_int("behindDoc", if anchor.behind { 1 } else { 0 })
        .attr_int("locked", 1)
        .attr_int("layoutInCell", 0)
        .attr_int("allowOverlap", 1);
    let ghost c0 = xml@;
    xml.begin("wp:simplePos").attr_int("x", 0).attr_int("y", 0).end();
    let ghost c1 = xml@;
    assert(c1 =~~= add_node(c0, el("wp:simplePos"@, seq![ai("x"@, 0), ai("y"@, 0)], seq![])));
    xml.begin("wp:positionH").attr("relativeFrom", "page");
    let x = int_string(anchor.x);
    xml.begin("wp:posOffset").text(x.as_str()).end();
    xml.end();
    let ghost c2 = xml@;
    assert(c2 =~~= add_node(c1, el("wp:positionH"@, seq![a_s("relativeFrom"@, "page"@)], seq![
                    el("wp:posOffset"@, seq![], seq![Node::Text(decimal(a.x as int))])])));
    xml.begin("wp:positionV").attr("relativeFrom", "page");
    let y = int_string(anchor.y);
    xml.begin("wp:posOffset").text(y.as_str()).end();
    xml.end();
    let ghost c3 = xml@;
    assert(c3 =~~= add_node(c2, el("wp:positionV"@, seq![a_s("relativeFrom"@, "page"@)], seq![
                    el("wp:posOffset"@, seq![], seq![Node::Text(decimal(a.y as int))])])));
    let cx = if anchor.cx < 1 { 1 } else { anchor.cx };
    let cy = if anchor.cy < 1 { 1 } else { anchor.cy };
    xml.begin("wp:extent")
        .attr_int("cx", cx)
        .attr_int("cy", cy)
        .end();
    let ghost c4 = xml@;
    assert(c4 =~~= add_node(c3, el("wp:extent"@, seq![ai("cx"@, max1(a.cx as int)), ai("cy"@, max1(a.cy as int))], seq![])));
    xml.begin("wp:effectExtent")
        .attr_int("l", 0)
        .attr_int("t", 0)
        .attr_int("r", 0)
        .attr_int("b", 0)
        .end();
    xml.leaf("wp:wrapNone");
    let ghost c5 = xml@;
    assert(c5 =~~= add_node(add_node(c4, el("wp:effectExtent"@, seq![ai("l"@, 0), ai("t"@, 0), ai("r"@, 0), ai("b"@, 0)], seq![])),
        el("wp:wrapNone"@, seq![], seq![])));
    xml.begin("wp:docPr").attr_int("id", anchor.id as i64).attr("name", anchor.name).end();
    xml.leaf("wp:cNvGraphicFramePr");
    let ghost c6 = xml@;
    assert(c6 =~~= add_node(add_node(c5, el("wp:docPr"@, seq![ai("id"@, a.id as int), a_s("name"@, a.name@)], seq![])),
        el("wp:cNvGraphicFramePr"@, seq![], seq![])));
    xml.begin("a:graphic");
    xml.begin("a:graphicData").attr("uri", anchor.uri).raw(anchor.inner).end();
    xml.end();
    let ghost c7 = xml@;
    assert(c7 =~~= add_node(c6, el("a:graphic"@, seq![], seq![
                    el("a:graphicData"@, seq![a_s("uri"@, a.uri@)], seq![Node::Raw(a.inner@)])])));
    proof {
        match c7 {
            Ctx::In { parent, tag, attrs, kids } => {
                let an = anchor_run(a);
                let dr = an->Elem_kids[0];
                let anc = dr->Elem_kids[0];
                assert(attrs =~= anc->Elem_attrs);
                assert(kids =~= anc->Elem_kids);
                assert(tag == anc->Elem_tag);
            },
            _ => {},
        }
    }
    xml.end();
    xml.end().end();
    proof {
        assert(xml@ =~~= Ctx::Top(seq![anchor_run(*anchor)]));
        assert(ser_seq(seq![anchor_run(*anchor)]) =~= ser(anchor_run(*anchor))) by {
            assert(seq![anchor_run(*anchor)].drop_last() =~= Seq::<Node>::empty());
        }
    }
    xml.finish()
}

} // verus!

verus! {

/// A C0 control character other than tab: illegal in XML 1.0.
pub open spec fn is_c0_control(c: char) -> bool {
    (c as u32) < 0x20 && c != '\t'
}

/// `s` with every C0 control character other than tab removed.
pub open spec fn strip_c0(s: Seq<char>) -> Seq<char>
    decreases s.len(),
{
    if s.len() == 0 {
        Seq::empty()
    } else if is_c0_control(s.last()) {
        strip_c0(s.drop_last())
    } else {
        strip_c0(s.drop_last()).push(s.last())
    }
}

pub open spec fn has_c0_control(s: Seq<char>) -> bool {
    exists|i: int| 0 <= i < s.len() && is_c0_control(#[trigger] s[i])
}

/// Strip C0 control characters (except tab) from `text`.
///
/// These characters (`\u{0000}`–`\u{001F}`, tab excepted) are illegal in XML
/// 1.0 and are a common trigger for Word's repair dialog. Returns `Some` with
/// the cleaned string only if any character was removed, so callers can warn.
pub fn strip_c0_controls(text: &str) -> (r: Option<String>)
    ensures
        r is None <==> !has_c0_control(text@),
        r matches Some(s) ==> s@ == strip_c0(text@),
{
    let cs = chars_of(text);
    let mut out: Vec<char> = Vec::new();
    let mut found = false;
    let mut i: usize = 0;
    while i < cs.len()
        invariant
            i <= cs@.len(),
            cs@ == text@,
            out@ == strip_c0(text@.take(i as int)),
            found == has_c0_control(text@.take(i as int)),
        decreases cs@.len() - i,
    {
        let c = cs[i];
        let ghost prev = text@.take(i as int);
        let bad = (c as u32) < 0x20 && c != '\t';
        if bad {
            found = true;
        } else {
            out.push(c);
        }
        i = i + 1;
        proof {
            let cur = text@.take(i as int);
            assert(cur.drop_last() =~= prev);
            assert(cur.last() == c);
            if bad {
                assert(cur[i - 1] == c);
            } else if has_c0_control(cur) {
                let k = choose|k: int| 0 <= k < cur.len() && is_c0_control(#[trigger] cur[k]);
                assert(prev[k] == cur[k]);
            }
            if has_c0_control(prev) {
                let k = choose|k: int| 0 <= k < prev.len() && is_c0_control(#[trigger] prev[k]);
                assert(cur[k] == prev[k]);
            }
        }
    }
    assert(text@.take(i as int) =~= text@);
    if found {
        Some(string_from_chars(&out))
    } else {
        None
    }
}

/// Removing control characters leaves none behind, and text without any is
/// left as it is.
pub proof fn strip_c0_is_clean(s: Seq<char>)
    ensures
        !has_c0_control(strip_c0(s)),
        !has_c0_control(s) ==> strip_c0(s) == s,
        strip_c0(strip_c0(s)) == strip_c0(s),
    decreases s.len(),
{
    if s.len() > 0 {
        let p = s.drop_last();
        strip_c0_is_clean(p);
        if !has_c0_control(s) {
            assert forall|k: int| 0 <= k < p.len() implies !is_c0_control(#[trigger] p[k]) by {
                assert(p[k] == s[k]);
            }
            assert(!is_c0_control(s[s.len() - 1]));
            assert(strip_c0(s) =~= s);
        }
        if !is_c0_control(s.last()) {
            let r = strip_c0(p).push(s.last());
            assert forall|k: int| 0 <= k < r.len() implies !is_c0_control(#[trigger] r[k]) by {
                if k < r.len() - 1 {
                    assert(r[k] == strip_c0(p)[k]);
                }
            }
            assert(r.drop_last() =~= strip_c0(p));
        }
    } else {
        assert(strip_c0(s) =~= s);
    }
}

/// An sRGB color with 8-bit channels, as Typst writes it in hex.
#[derive(Clone, Copy, PartialEq, Eq, Debug)]
pub struct Rgba {
    pub r: u8,
    pub g: u8,
    pub b: u8,
    pub a: u8,
}

pub open spec fn hex_digit(d: nat) -> char {
    if d < 10 { (48 + d) as char } else { (87 + d) as char }
}

/// Two lowercase hex digits.
pub open spec fn hex2(v: u8) -> Seq<char> {
    seq![hex_digit(v as nat / 16), hex_digit(v as nat % 16)]
}

/// The six-digit lowercase `rrggbb` form of a color.
pub open spec fn hex6_spec(c: Rgba) -> Seq<char> {
    hex2(c.r) + hex2(c.g) + hex2(c.b)
}

fn hex_char(d: u8) -> (c: char)
    requires d < 16,
    ensures c == hex_digit(d as nat),
{
    let table: [char; 16] = ['0', '1', '2', '3', '4', '5', '6', '7', '8', '9', 'a', 'b', 'c', 'd', 'e', 'f'];
    let c = table[d as usize];
    proof {
        assert(table@ == seq!['0', '1', '2', '3', '4', '5', '6', '7', '8', '9', 'a', 'b', 'c', 'd', 'e', 'f']);
    }
    c
}

/// The six-digit RRGGBB hex representation of a color, without `#`.
/// Alpha is dropped.
pub fn hex6(color: &Rgba) -> (s: String)
    ensures s@ == hex6_spec(*color),
{
    let mut v: Vec<char> = Vec::new();
    v.push(hex_char(color.r / 16));
    v.push(hex_char(color.r % 16));
    v.push(hex_char(color.g / 16));
    v.push(hex_char(color.g % 16));
    v.push(hex_char(color.b / 16));
    v.push(hex_char(color.b % 16));
    assert(v@ =~= hex6_spec(*color));
    string_from_chars(&v)
}

/// The value of a hexadecimal digit, in either case.
pub open spec fn hex_value(c: char) -> Option<u8> {
    if '0' <= c <= '9' {
        Some((c as u32 - 48) as u8)
    } else if 'a' <= c <= 'f' {
        Some((c as u32 - 87) as u8)
    } else if 'A' <= c <= 'F' {
        Some((c as u32 - 55) as u8)
    } else {
        None
    }
}

/// The byte two hexadecimal digits spell.
pub open spec fn hex_pair(hi: char, lo: char) -> Option<u8> {
    match (hex_value(hi), hex_value(lo)) {
        (Some(h), Some(l)) => Some((h * 16 + l) as u8),
        _ => None,
    }
}

/// The color a `#rrggbb` or `#rrggbbaa` string spells; without an alpha
/// pair the color is opaque.
pub open spec fn parsed_rgba(s: Seq<char>) -> Option<Rgba> {
    if (s.len() == 7 || s.len() == 9) && s[0] == '#'
        && hex_pair(s[1], s[2]) is Some && hex_pair(s[3], s[4]) is Some && hex_pair(s[5], s[6]) is Some
        && (s.len() == 9 ==> hex_pair(s[7], s[8]) is Some)
    {
        Some(Rgba {
            r: hex_pair(s[1], s[2])->0,
            g: hex_pair(s[3], s[4])->0,
            b: hex_pair(s[5], s[6])->0,
            a: if s.len() == 9 { hex_pair(s[7], s[8])->0 } else { 255 },
        })
    } else {
        None
    }
}

fn hex_digit_value(c: char) -> (r: Option<u8>)
    ensures
        r == hex_value(c),
{
    if '0' <= c && c <= '9' {
        Some((c as u32 - 48) as u8)
    } else if 'a' <= c && c <= 'f' {
        Some((c as u32 - 87) as u8)
    } else if 'A' <= c && c <= 'F' {
        Some((c as u32 - 55) as u8)
    } else {
        None
    }
}

fn hex_byte(hi: char, lo: char) -> (r: Option<u8>)
    ensures
        r == hex_pair(hi, lo),
{
    match (hex_digit_value(hi), hex_digit_value(lo)) {
        (Some(h), Some(l)) => Some(h * 16 + l),
        _ => None,
    }
}

/// Read a color from its `#rrggbb` or `#rrggbbaa` hex form.
pub fn rgba_from_hex(hex: &str) -> (r: Option<Rgba>)
    ensures
        r == parsed_rgba(hex@),
{
    let cs = chars_of(hex);
    let n = cs.len();
    if (n != 7 && n != 9) || cs[0] != '#' {
        return None;
    }
    let r = hex_byte(cs[1], cs[2]);
    let g = hex_byte(cs[3], cs[4]);
    let b = hex_byte(cs[5], cs[6]);
    let a = if n == 9 { hex_byte(cs[7], cs[8]) } else { Some(255u8) };
    match (r, g, b, a) {
        (Some(r), Some(g), Some(b), Some(a)) => Some(Rgba { r, g, b, a }),
        _ => None,
    }
}

/// DrawingML's alpha in thousandths of a percent: `round(a / 255 * 100000)`.
pub open spec fn alpha_100k(a: u8) -> int {
    (a as int * 200000 + 255) / 510
}

/// `<a:srgbClr val="rrggbb">`, with an `a:alpha` child for translucent colors.
pub open spec fn srgb_node(c: Rgba) -> Node {
    if c.a != 255 {
        el("a:srgbClr"@, seq![a_s("val"@, hex6_spec(c))], seq![el("a:alpha"@, seq![ai("val"@, alpha_100k(c.a))], seq![])])
    } else {
        el("a:srgbClr"@, seq![a_s("val"@, hex6_spec(c))], seq![])
    }
}

/// `<a:solidFill>` around a color.
pub open spec fn solid_fill_node(c: Rgba) -> Node {
    el("a:solidFill"@, seq![], seq![srgb_node(c)])
}

/// Write `<a:srgbClr val="RRGGBB">[<a:alpha…/>]</a:srgbClr>`.
pub fn srgb(xml: &mut Xml, color: &Rgba)
    requires old(xml).wf(),
    ensures
        final(xml).wf(),
        final(xml)@ =~~= add_node(old(xml)@, srgb_node(*color)),
{
    let hex = hex6(color);
    xml.begin("a:srgbClr").attr("val", hex.as_str());
    if color.a != 255 {
        let val: i64 = (color.a as i64 * 200000 + 255) / 510;
        xml.begin("a:alpha").attr_int("val", val).end();
    }
    xml.end();
}

/// Write `<a:solidFill>` with the given color.
pub fn solid_fill(xml: &mut Xml, color: &Rgba)
    requires old(xml).wf(),
    ensures
        final(xml).wf(),
        final(xml)@ =~~= add_node(old(xml)@, solid_fill_node(*color)),
{
    xml.begin("a:solidFill");
    srgb(xml, color);
    xml.end();
}

} // verus!

verus! {

/// `a` followed by `b`.
pub fn concat(a: &str, b: &str) -> (s: String)
    ensures s@ == a@ + b@,
{
    let mut s = a.to_owned();
    s.append(b);
    s
}

/// `a`, `b` and `c` one after another.
pub fn concat3(a: &str, b: &str, c: &str) -> (s: String)
    ensures s@ == a@ + b@ + c@,
{
    let mut s = a.to_owned();
    s.append(b);
    s.append(c);
    s
}

} // verus!

//! Reading written XML back: a reader for the fragments the builder
//! writes, and the law that what was written reads back as it was built.

use vstd::prelude::*;

use crate::xml::{escape, escape_is_inert, escape_round_trip, lemma_ser_seq_concat, lemma_ser_single, ser,
    ser_attr, ser_attrs, ser_seq, unescape, Node};

verus! {

broadcast use vstd::seq::group_seq_axioms;

/// Characters that may stand in a tag or an attribute name: none of those
/// that end a name in written XML.
pub open spec fn name_char(c: char) -> bool {
    c != '<' && c != '>' && c != '/' && c != '=' && c != '"' && c != ' '
}

/// A non-empty name made of name characters.
pub open spec fn is_name(s: Seq<char>) -> bool {
    s.len() > 0 && forall|i: int| 0 <= i < s.len() ==> name_char(#[trigger] s[i])
}

/// The characters of a name.
pub open spec fn name_chars() -> spec_fn(char) -> bool {
    |c: char| name_char(c)
}

/// The characters of character data: anything but the start of a tag.
pub open spec fn text_chars() -> spec_fn(char) -> bool {
    |c: char| c != '<'
}

/// The characters of a quoted attribute value: anything but the quote.
pub open spec fn value_chars() -> spec_fn(char) -> bool {
    |c: char| c != '"'
}

/// The length of the longest prefix of `t` whose characters satisfy `p`.
pub open spec fn span(t: Seq<char>, p: spec_fn(char) -> bool) -> nat
    decreases t.len(),
{
    if t.len() > 0 && p(t[0]) {
        1 + span(t.skip(1), p)
    } else {
        0
    }
}

/// Whether `t` ends a list of siblings: it is empty or an end tag begins.
pub open spec fn closes(t: Seq<char>) -> bool {
    t.len() == 0 || (t.len() >= 2 && t[0] == '<' && t[1] == '/')
}

/// Reads the attributes at the start of `t`, each ` key="value"`, with the
/// text after them; the value is read back through `unescape`.
pub open spec fn read_attrs(t: Seq<char>, fuel: nat) -> Option<(Seq<(Seq<char>, Seq<char>)>, Seq<char>)>
    decreases fuel,
{
    if fuel == 0 {
        None
    } else if t.len() > 0 && t[0] == ' ' {
        let k = span(t.skip(1), name_chars()) as int;
        let r = t.skip(1 + k);
        if k > 0 && r.len() >= 2 && r[0] == '=' && r[1] == '"' {
            let v = span(r.skip(2), value_chars()) as int;
            let r2 = r.skip(2 + v);
            if r2.len() >= 1 && r2[0] == '"' {
                match read_attrs(r2.skip(1), (fuel - 1) as nat) {
                    Some((more, r3)) => Some((seq![(t.subrange(1, 1 + k), unescape(r.skip(2).take(v)))] + more, r3)),
                    None => None,
                }
            } else {
                None
            }
        } else {
            None
        }
    } else {
        Some((Seq::empty(), t))
    }
}

/// The length of `u` when `u` is made of characters satisfying `p` and what
/// follows does not continue it.
proof fn lemma_span(u: Seq<char>, r: Seq<char>, p: spec_fn(char) -> bool)
    requires
        forall|i: int| 0 <= i < u.len() ==> p(#[trigger] u[i]),
        r.len() == 0 || !p(r[0]),
    ensures
        span(u + r, p) == u.len(),
    decreases u.len(),
{
    if u.len() == 0 {
        assert(u + r =~= r);
    } else {
        assert((u + r).skip(1) =~= u.skip(1) + r);
        assert((u + r)[0] == u[0]);
        lemma_span(u.skip(1), r, p);
    }
}

proof fn lemma_ser_attrs_cons(a: (Seq<char>, Seq<char>), s: Seq<(Seq<char>, Seq<char>)>)
    ensures
        ser_attrs(seq![a] + s) == ser_attr(a) + ser_attrs(s),
    decreases s.len(),
{
    if s.len() == 0 {
        assert(seq![a] + s =~= seq![a]);
        assert(seq![a].drop_last() =~= Seq::<(Seq<char>, Seq<char>)>::empty());
        assert(ser_attrs(seq![a]) == ser_attrs(seq![a].drop_last()) + ser_attr(seq![a].last()));
        assert(ser_attrs(seq![a]) =~= ser_attr(a));
        assert(ser_attr(a) + ser_attrs(s) =~= ser_attr(a));
    } else {
        lemma_ser_attrs_cons(a, s.drop_last());
        assert((seq![a] + s).drop_last() =~= seq![a] + s.drop_last());
        assert((seq![a] + s).last() == s.last());
        assert(ser_attrs(seq![a] + s) == ser_attrs((seq![a] + s).drop_last()) + ser_attr((seq![a] + s).last()));
        assert(ser_attr(a) + ser_attrs(s.drop_last()) + ser_attr(s.last())
            =~= ser_attr(a) + (ser_attrs(s.drop_last()) + ser_attr(s.last())));
    }
}

/// Escaped text holds no `<` and no `"`.
proof fn lemma_escaped_chars(v: Seq<char>)
    ensures
        forall|i: int| 0 <= i < escape(v).len() ==> text_chars()(#[trigger] escape(v)[i]) && value_chars()(escape(v)[i]),
{
    escape_is_inert(v);
}

/// What the reader meets in one written attribute followed by `after`.
proof fn lemma_attr_shape(a0: (Seq<char>, Seq<char>), after: Seq<char>)
    requires
        is_name(a0.0),
    ensures ({
        let t = ser_attr(a0) + after;
        let k = span(t.skip(1), name_chars()) as int;
        let r = t.skip(1 + k);
        let v = span(r.skip(2), value_chars()) as int;
        &&& t.len() > 0 && t[0] == ' '
        &&& k == a0.0.len()
        &&& r.len() >= 2 && r[0] == '=' && r[1] == '"'
        &&& r.skip(2 + v).len() >= 1 && r.skip(2 + v)[0] == '"'
        &&& r.skip(2 + v).skip(1) == after
        &&& t.subrange(1, 1 + k) == a0.0
        &&& unescape(r.skip(2).take(v)) == a0.1
    }),
{
    let key = a0.0;
    let ev = escape(a0.1);
    let t = ser_attr(a0) + after;
    assert(t =~= seq![' '] + key + (seq!['=', '"'] + ev + seq!['"'] + after));
    assert(t.skip(1) =~= key + (seq!['=', '"'] + ev + seq!['"'] + after));
    lemma_span(key, seq!['=', '"'] + ev + seq!['"'] + after, name_chars());
    let k = key.len() as int;
    let r = t.skip(1 + k);
    assert(r =~= seq!['=', '"'] + ev + seq!['"'] + after);
    assert(r.skip(2) =~= ev + (seq!['"'] + after));
    lemma_escaped_chars(a0.1);
    lemma_span(ev, seq!['"'] + after, value_chars());
    let v = ev.len() as int;
    assert(r.skip(2 + v) =~= seq!['"'] + after);
    assert(r.skip(2 + v).skip(1) =~= after);
    assert(r.skip(2).take(v) =~= ev);
    escape_round_trip(a0.1);
    assert(t.subrange(1, 1 + k) =~= key);
}

/// Written attributes read back as they were written.
proof fn lemma_read_attrs(a: Seq<(Seq<char>, Seq<char>)>, rest: Seq<char>, fuel: nat)
    requires
        forall|i: int| 0 <= i < a.len() ==> is_name(#[trigger] a[i].0),
        fuel > ser_attrs(a).len(),
        rest.len() == 0 || rest[0] != ' ',
    ensures
        read_attrs(ser_attrs(a) + rest, fuel) == Some((a, rest)),
    decreases fuel,
{
    if a.len() == 0 {
        assert(ser_attrs(a) =~= Seq::<char>::empty());
        assert(ser_attrs(a) + rest =~= rest);
        assert(a =~= Seq::<(Seq<char>, Seq<char>)>::empty());
    } else {
        let a0 = a[0];
        let tail = a.drop_first();
        assert(a =~= seq![a0] + tail);
        lemma_ser_attrs_cons(a0, tail);
        assert(is_name(a0.0));
        assert forall|i: int| 0 <= i < tail.len() implies is_name(#[trigger] tail[i].0) by {
            assert(tail[i] == a[i + 1]);
        }
        let after = ser_attrs(tail) + rest;
        let t = ser_attrs(a) + rest;
        assert(t =~= ser_attr(a0) + after);
        lemma_attr_shape(a0, after);
        assert(ser_attr(a0).len() >= 4);
        lemma_read_attrs(tail, rest, (fuel - 1) as nat);
    }
}

/// Reads the sibling nodes at the start of `t`, up to the end of `t` or
/// the first end tag, with the text from there on.
pub open spec fn read_nodes(t: Seq<char>, fuel: nat) -> Option<(Seq<Node>, Seq<char>)>
    decreases fuel,
{
    if fuel == 0 {
        None
    } else if closes(t) {
        Some((Seq::empty(), t))
    } else {
        match read_node(t, (fuel - 1) as nat) {
            Some((n, r)) => match read_nodes(r, (fuel - 1) as nat) {
                Some((ns, r2)) => Some((seq![n] + ns, r2)),
                None => None,
            },
            None => None,
        }
    }
}

/// Reads one node at the start of `t`, with the text after it: an element
/// (`<tag attrs/>`, or `<tag attrs>` children `</tag>`), or character data
/// up to the next `<`, read back through `unescape`.
pub open spec fn read_node(t: Seq<char>, fuel: nat) -> Option<(Node, Seq<char>)>
    decreases fuel,
{
    if fuel == 0 || t.len() == 0 {
        None
    } else if t[0] == '<' {
        let k = span(t.skip(1), name_chars()) as int;
        let tag = t.subrange(1, 1 + k);
        if k == 0 {
            None
        } else {
            match read_attrs(t.skip(1 + k), (fuel - 1) as nat) {
                None => None,
                Some((attrs, r)) => if r.len() >= 2 && r[0] == '/' && r[1] == '>' {
                    Some((Node::Elem { tag, attrs, kids: Seq::empty() }, r.skip(2)))
                } else if r.len() >= 1 && r[0] == '>' {
                    match read_nodes(r.skip(1), (fuel - 1) as nat) {
                        None => None,
                        Some((kids, r2)) => {
                            let end = seq!['<', '/'] + tag + seq!['>'];
                            if r2.len() >= end.len() && r2.take(end.len() as int) == end {
                                Some((Node::Elem { tag, attrs, kids }, r2.skip(end.len() as int)))
                            } else {
                                None
                            }
                        },
                    }
                } else {
                    None
                },
            }
        }
    } else {
        let k = span(t, text_chars()) as int;
        Some((Node::Text(unescape(t.take(k))), t.skip(k)))
    }
}

/// Reads a whole fragment: the sibling nodes it is made of, if it is one.
pub open spec fn read_fragment(t: Seq<char>) -> Option<Seq<Node>> {
    match read_nodes(t, t.len() + 1) {
        Some((ns, r)) => if r.len() == 0 {
            Some(ns)
        } else {
            None
        },
        None => None,
    }
}

/// A node written without raw fragments: tags and attribute keys are
/// names, and every text is non-empty and never follows another text.
pub open spec fn plain_node(n: Node) -> bool
    decreases n,
{
    match n {
        Node::Elem { tag, attrs, kids } => {
            &&& is_name(tag)
            &&& forall|i: int| 0 <= i < attrs.len() ==> is_name(#[trigger] attrs[i].0)
            &&& plain_seq(kids)
        },
        Node::Text(t) => t.len() > 0,
        Node::Raw(_) => false,
    }
}

/// Siblings that are all plain, with no two texts in a row.
pub open spec fn plain_seq(s: Seq<Node>) -> bool
    decreases s,
{
    if s.len() == 0 {
        true
    } else {
        &&& plain_seq(s.drop_last())
        &&& plain_node(s.last())
        &&& (s.len() >= 2 && s.last() is Text ==> !(s[s.len() - 2] is Text))
    }
}

proof fn lemma_plain_index(s: Seq<Node>)
    requires
        plain_seq(s),
    ensures
        forall|i: int| 0 <= i < s.len() ==> plain_node(#[trigger] s[i]),
        forall|i: int| 0 <= i < s.len() - 1 && #[trigger] s[i] is Text ==> !(s[i + 1] is Text),
    decreases s.len(),
{
    if s.len() > 0 {
        lemma_plain_index(s.drop_last());
        assert forall|i: int| 0 <= i < s.len() implies plain_node(#[trigger] s[i]) by {
            if i < s.len() - 1 {
                assert(s[i] == s.drop_last()[i]);
            }
        }
        assert forall|i: int| 0 <= i < s.len() - 1 && #[trigger] s[i] is Text implies !(s[i + 1] is Text) by {
            if i < s.len() - 2 {
                assert(s[i] == s.drop_last()[i]);
                assert(s[i + 1] == s.drop_last()[i + 1]);
            }
        }
    }
}

proof fn lemma_plain_from_index(s: Seq<Node>)
    requires
        forall|i: int| 0 <= i < s.len() ==> plain_node(#[trigger] s[i]),
        forall|i: int| 0 <= i < s.len() - 1 && #[trigger] s[i] is Text ==> !(s[i + 1] is Text),
    ensures
        plain_seq(s),
    decreases s.len(),
{
    if s.len() > 0 {
        let d = s.drop_last();
        assert forall|i: int| 0 <= i < d.len() implies plain_node(#[trigger] d[i]) by {
            assert(d[i] == s[i]);
        }
        assert forall|i: int| 0 <= i < d.len() - 1 && #[trigger] d[i] is Text implies !(d[i + 1] is Text) by {
            assert(d[i] == s[i]);
            assert(d[i + 1] == s[i + 1]);
        }
        lemma_plain_from_index(d);
        if s.len() >= 2 && s.last() is Text {
            assert(s[s.len() - 2] is Text ==> !(s[s.len() - 1] is Text));
        }
    }
}

/// The serialization of a plain node: its first character, and the second
/// for an element.
proof fn lemma_ser_start(n: Node)
    requires
        plain_node(n),
    ensures
        ser(n).len() > 0,
        n is Elem ==> ser(n).len() >= 2 && ser(n)[0] == '<' && name_char(ser(n)[1]),
        n is Text ==> ser(n)[0] != '<',
{
    match n {
        Node::Elem { tag, attrs, kids } => {
            assert(name_char(tag[0]));
        },
        Node::Text(t) => {
            escape_is_inert(t);
            assert(escape(t).len() > 0) by {
                assert(t.drop_last().len() < t.len());
            }
        },
        Node::Raw(_) => {},
    }
}

/// Written attributes begin with a space, if there are any.
proof fn lemma_attrs_start(a: Seq<(Seq<char>, Seq<char>)>)
    ensures
        ser_attrs(a).len() == 0 || ser_attrs(a)[0] == ' ',
{
    if a.len() > 0 {
        assert(a =~= seq![a[0]] + a.drop_first());
        lemma_ser_attrs_cons(a[0], a.drop_first());
    } else {
        assert(ser_attrs(a) =~= Seq::<char>::empty());
    }
}

/// What the reader meets in a start tag followed by `after`.
proof fn lemma_tag_shape(tag: Seq<char>, attrs: Seq<(Seq<char>, Seq<char>)>, after: Seq<char>)
    requires
        is_name(tag),
        after.len() > 0,
        !name_char(after[0]),
    ensures ({
        let t = seq!['<'] + tag + ser_attrs(attrs) + after;
        let k = span(t.skip(1), name_chars()) as int;
        &&& t.len() > 0 && t[0] == '<'
        &&& k == tag.len()
        &&& t.subrange(1, 1 + k) == tag
        &&& t.skip(1 + k) == ser_attrs(attrs) + after
    }),
{
    let t = seq!['<'] + tag + ser_attrs(attrs) + after;
    let tail = ser_attrs(attrs) + after;
    lemma_attrs_start(attrs);
    assert(t.skip(1) =~= tag + tail);
    assert(tail.len() > 0);
    if ser_attrs(attrs).len() == 0 {
        assert(tail =~= after);
    } else {
        assert(tail[0] == ser_attrs(attrs)[0]);
    }
    lemma_span(tag, tail, name_chars());
    assert(t.subrange(1, 1 + tag.len() as int) =~= tag);
    assert(t.skip(1 + tag.len() as int) =~= tail);
}

/// A written element without children reads back as itself.
proof fn lemma_read_empty_elem(tag: Seq<char>, attrs: Seq<(Seq<char>, Seq<char>)>, rest: Seq<char>, fuel: nat)
    requires
        plain_node(Node::Elem { tag, attrs, kids: Seq::empty() }),
        fuel >= ser(Node::Elem { tag, attrs, kids: Seq::empty() }).len(),
    ensures
        read_node(ser(Node::Elem { tag, attrs, kids: Seq::empty() }) + rest, fuel)
            == Some((Node::Elem { tag, attrs, kids: Seq::empty() }, rest)),
{
    let n = Node::Elem { tag, attrs, kids: Seq::empty() };
    let after = seq!['/', '>'] + rest;
    let t = ser(n) + rest;
    assert(t =~= seq!['<'] + tag + ser_attrs(attrs) + after);
    lemma_tag_shape(tag, attrs, after);
    lemma_read_attrs(attrs, after, (fuel - 1) as nat);
    assert(after.skip(2) =~= rest);
}

/// A written element with children reads back as itself, once its
/// children do.
proof fn lemma_read_full_elem(tag: Seq<char>, attrs: Seq<(Seq<char>, Seq<char>)>, kids: Seq<Node>,
    rest: Seq<char>, fuel: nat)
    requires
        kids.len() > 0,
        plain_node(Node::Elem { tag, attrs, kids }),
        fuel >= ser(Node::Elem { tag, attrs, kids }).len(),
        read_nodes(ser_seq(kids) + (seq!['<', '/'] + tag + seq!['>'] + rest), (fuel - 1) as nat)
            == Some((kids, seq!['<', '/'] + tag + seq!['>'] + rest)),
    ensures
        read_node(ser(Node::Elem { tag, attrs, kids }) + rest, fuel) == Some((Node::Elem { tag, attrs, kids }, rest)),
{
    let n = Node::Elem { tag, attrs, kids };
    let end = seq!['<', '/'] + tag + seq!['>'];
    let after = seq!['>'] + ser_seq(kids) + end + rest;
    let t = ser(n) + rest;
    assert(t =~= seq!['<'] + tag + ser_attrs(attrs) + after);
    lemma_tag_shape(tag, attrs, after);
    lemma_read_attrs(attrs, after, (fuel - 1) as nat);
    assert(after.skip(1) =~= ser_seq(kids) + (end + rest));
    assert((end + rest).take(end.len() as int) =~= end);
    assert((end + rest).skip(end.len() as int) =~= rest);
}

/// A written text reads back as itself, when a tag or nothing follows.
proof fn lemma_read_text(txt: Seq<char>, rest: Seq<char>, fuel: nat)
    requires
        txt.len() > 0,
        fuel > 0,
        rest.len() == 0 || rest[0] == '<',
    ensures
        read_node(ser(Node::Text(txt)) + rest, fuel) == Some((Node::Text(txt), rest)),
{
    lemma_ser_start(Node::Text(txt));
    let ev = escape(txt);
    let t = ev + rest;
    assert(t[0] == ev[0]);
    lemma_escaped_chars(txt);
    lemma_span(ev, rest, text_chars());
    assert(t.take(ev.len() as int) =~= ev);
    assert(t.skip(ev.len() as int) =~= rest);
    escape_round_trip(txt);
}

/// A written node reads back as itself, with what follows left over.
proof fn lemma_read_node(n: Node, rest: Seq<char>, fuel: nat)
    requires
        plain_node(n),
        fuel >= ser(n).len(),
        n is Text ==> rest.len() == 0 || rest[0] == '<',
    ensures
        read_node(ser(n) + rest, fuel) == Some((n, rest)),
    decreases fuel,
{
    lemma_ser_start(n);
    match n {
        Node::Elem { tag, attrs, kids } => {
            if kids.len() == 0 {
                assert(kids =~= Seq::<Node>::empty());
                lemma_read_empty_elem(tag, attrs, rest, fuel);
            } else {
                let end = seq!['<', '/'] + tag + seq!['>'];
                lemma_read_nodes(kids, end + rest, (fuel - 1) as nat);
                lemma_read_full_elem(tag, attrs, kids, rest, fuel);
            }
        },
        Node::Text(txt) => {
            lemma_read_text(txt, rest, fuel);
        },
        Node::Raw(_) => {},
    }
}

/// Written siblings read back as themselves, up to where they end.
proof fn lemma_read_nodes(s: Seq<Node>, rest: Seq<char>, fuel: nat)
    requires
        plain_seq(s),
        fuel > ser_seq(s).len(),
        closes(rest),
    ensures
        read_nodes(ser_seq(s) + rest, fuel) == Some((s, rest)),
    decreases fuel,
{
    if s.len() == 0 {
        assert(ser_seq(s) =~= Seq::<char>::empty());
        assert(ser_seq(s) + rest =~= rest);
        assert(s =~= Seq::<Node>::empty());
    } else {
        let s0 = s[0];
        let tail = s.drop_first();
        assert(s =~= seq![s0] + tail);
        lemma_ser_seq_concat(seq![s0], tail);
        lemma_ser_single(s0);
        lemma_plain_index(s);
        assert forall|i: int| 0 <= i < tail.len() implies plain_node(#[trigger] tail[i]) by {
            assert(tail[i] == s[i + 1]);
        }
        assert forall|i: int| 0 <= i < tail.len() - 1 && #[trigger] tail[i] is Text implies !(tail[i + 1] is Text) by {
            assert(tail[i] == s[i + 1]);
            assert(tail[i + 1] == s[i + 2]);
        }
        lemma_plain_from_index(tail);
        assert(plain_node(s0));
        lemma_ser_start(s0);
        let after = ser_seq(tail) + rest;
        let t = ser_seq(s) + rest;
        assert(t =~= ser(s0) + after);
        assert(t[0] == ser(s0)[0]);
        if s0 is Elem {
            assert(t[1] == ser(s0)[1]);
        }
        assert(!closes(t));
        if s0 is Text {
            if tail.len() > 0 {
                assert(!(s[1] is Text));
                assert(tail[0] == s[1]);
                assert(plain_node(tail[0]));
                lemma_ser_start(tail[0]);
                assert(tail =~= seq![tail[0]] + tail.drop_first());
                lemma_ser_seq_concat(seq![tail[0]], tail.drop_first());
                lemma_ser_single(tail[0]);
                assert(after[0] == ser(tail[0])[0]);
            } else {
                assert(ser_seq(tail) =~= Seq::<char>::empty());
                assert(after =~= rest);
            }
        }
        lemma_read_node(s0, after, (fuel - 1) as nat);
        lemma_read_nodes(tail, rest, (fuel - 1) as nat);
    }
}

/// XML written without raw fragments, with names for its tags and
/// attribute keys, and with no empty text and no two texts in a row, reads
/// back as exactly the nodes that were written: the elements nest and
/// follow each other as they were built, each carries its attributes in the
/// order they were written, and every attribute value and every text reads
/// back as the string that was passed. (Two texts written in a row read
/// back as one.) `Xml::finish` returns `ser_seq` of the nodes the builder
/// recorded, so this holds of every string a builder finishes with.
pub proof fn written_xml_reads_back(s: Seq<Node>)
    requires
        plain_seq(s),
    ensures
        read_fragment(ser_seq(s)) == Some(s),
{
    lemma_read_nodes(s, Seq::empty(), ser_seq(s).len() + 1);
    assert(ser_seq(s) + Seq::<char>::empty() =~= ser_seq(s));
}

} // verus!

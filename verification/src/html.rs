//! The template engine: parsing of `{% .. %}` markers and rendering.
//!
//! Markers:
//!
//! * `{% str %}` - unescaped output;
//! * `{%+ str %}` - escaped output;
//! * `{%# comment %}` - comment;
//! * `{%? bool %}` - if, `{%?~%}` - else, `{%?%}` - end if;
//! * `{%@ arr %}` - loop over a list, `{%@%}` - end loop.

use std::borrow::Cow;
use std::collections::BTreeMap;
use std::sync::Arc;
use vstd::prelude::*;
use vstd::string::StringSliceAdditionalSpecFns;
use vstd::utf8::{decode_utf8, encode_utf8, is_char_boundary, valid_utf8};

use crate::action::Answer;
use crate::controller::{has_template, template_nodes};
use crate::data::Data;
use crate::text::{bytes_of, decimal, push_char, signed_decimal, string_from_utf8};
use vstd::string::StringExecFns;
use crate::utf8_lemmas::{
    lemma_after_ascii_is_boundary, lemma_ascii_is_boundary, lemma_boundary_from_suffix,
    lemma_boundary_in_suffix, lemma_piece_valid,
};
use crate::{fnv1a_64, spec_fnv1a_64};

verus! {

broadcast use {
    vstd::std_specs::btree::group_btree_axioms,
    vstd::laws_cmp::group_laws_cmp,
    vstd::utf8::encode_utf8_valid_utf8,
    vstd::utf8::encode_utf8_decode_utf8,
    vstd::utf8::decode_utf8_encode_utf8,
};

/// A node of a template.
#[derive(Debug, Clone)]
pub enum Node {
    /// Simple text.
    Text(String),
    /// Some value.
    Value(String),
    /// Escaped value: `&` => `&amp;`, `"` => `&quot;`, `'` => `&apos;`, `<` => `&lt;`, `>` => `&gt;`.
    ValueEscape(String),
    /// If node: if the `i64` key is `true` then the first list is used, else the second.
    If(i64, Arc<Vec<Node>>, Arc<Vec<Node>>),
    /// Loop node: the list is used for each element of the `i64` key.
    Loop(i64, Arc<Vec<Node>>),
}

/// A template node as a mathematical value: texts and names are bytes.
pub enum Tpl {
    Text(Seq<u8>),
    Value(Seq<u8>),
    ValueEscape(Seq<u8>),
    If(i64, Seq<Tpl>, Seq<Tpl>),
    Loop(i64, Seq<Tpl>),
}

/// The mathematical value of a node.
pub open spec fn node_view(n: Node) -> Tpl
    decreases n,
{
    match n {
        Node::Text(s) => Tpl::Text(bytes_of(&s)),
        Node::Value(s) => Tpl::Value(bytes_of(&s)),
        Node::ValueEscape(s) => Tpl::ValueEscape(bytes_of(&s)),
        Node::If(k, t, f) => Tpl::If(k, nodes_view((*t)@), nodes_view((*f)@)),
        Node::Loop(k, b) => Tpl::Loop(k, nodes_view((*b)@)),
    }
}

/// The mathematical value of a list of nodes.
pub open spec fn nodes_view(v: Seq<Node>) -> Seq<Tpl>
    decreases v,
{
    if v.len() == 0 {
        Seq::empty()
    } else {
        nodes_view(v.drop_last()).push(node_view(v.last()))
    }
}

/// The kind of a marker `{%..%}`, found by its bytes.
pub enum TypeNode {
    /// Value output found; the name lies between the two positions.
    Value(usize, usize),
    /// Escaped value output found; the name lies between the two positions.
    ValueEscape(usize, usize),
    /// If found; the name lies between the two positions.
    If(usize, usize),
    /// Else found.
    Else,
    /// EndIf found.
    EndIf,
    /// Loop found; the name lies between the two positions.
    Loop(usize, usize),
    /// EndLoop found.
    EndLoop,
    /// Comment found.
    Comment,
    /// Error recognizing the template.
    Error,
}

/// The kind of a marker as a mathematical value.
pub enum TagSpec {
    Value(Seq<u8>),
    ValueEscape(Seq<u8>),
    If(Seq<u8>),
    Else,
    EndIf,
    Loop(Seq<u8>),
    EndLoop,
    Comment,
    Error,
}

/// Whether `t[2..4]` is the given pair of bytes and `t[len - 3]` is a space.
pub open spec fn marks(t: Seq<u8>, a: u8) -> bool {
    t[2] == a && t[3] == 32u8 && t[t.len() - 3] == 32u8
}

/// The kind of a marker `t`, which starts with `{%` and ends with `%}`.
pub open spec fn tag_kind(t: Seq<u8>) -> TagSpec {
    let n = t.len();
    if n <= 4 {
        TagSpec::Error
    } else if n == 5 {
        if t[2] == 63u8 {
            TagSpec::EndIf
        } else if t[2] == 64u8 {
            TagSpec::EndLoop
        } else {
            TagSpec::Error
        }
    } else if n == 6 {
        if t[2] == 63u8 && t[3] == 126u8 {
            TagSpec::Else
        } else {
            TagSpec::Error
        }
    } else if t[2] == 32u8 && t[n - 3] == 32u8 {
        TagSpec::Value(t.subrange(3, n - 3))
    } else if marks(t, 43u8) {
        TagSpec::ValueEscape(t.subrange(4, n - 3))
    } else if marks(t, 35u8) {
        TagSpec::Comment
    } else if marks(t, 63u8) {
        TagSpec::If(t.subrange(4, n - 3))
    } else if marks(t, 64u8) {
        TagSpec::Loop(t.subrange(4, n - 3))
    } else {
        TagSpec::Error
    }
}

/// The mathematical value of a found kind, given the marker's bytes.
pub open spec fn type_view(r: TypeNode, t: Seq<u8>) -> TagSpec {
    match r {
        TypeNode::Value(a, b) => TagSpec::Value(t.subrange(a as int, b as int)),
        TypeNode::ValueEscape(a, b) => TagSpec::ValueEscape(t.subrange(a as int, b as int)),
        TypeNode::If(a, b) => TagSpec::If(t.subrange(a as int, b as int)),
        TypeNode::Else => TagSpec::Else,
        TypeNode::EndIf => TagSpec::EndIf,
        TypeNode::Loop(a, b) => TagSpec::Loop(t.subrange(a as int, b as int)),
        TypeNode::EndLoop => TagSpec::EndLoop,
        TypeNode::Comment => TagSpec::Comment,
        TypeNode::Error => TagSpec::Error,
    }
}

/// The positions a found kind carries lie in the marker, after `{%` and before `%}`.
pub open spec fn type_positions_ok(r: TypeNode, n: int) -> bool {
    match r {
        TypeNode::Value(a, b) => a == 3 && b == n - 3 && 3 <= n - 3,
        TypeNode::ValueEscape(a, b) => a == 4 && b == n - 3 && 4 <= n - 3,
        TypeNode::If(a, b) => a == 4 && b == n - 3 && 4 <= n - 3,
        TypeNode::Loop(a, b) => a == 4 && b == n - 3 && 4 <= n - 3,
        _ => true,
    }
}

/// Text and the markers found in it, by the position of the marker's first byte.
pub enum ConditionNode {
    /// End of template.
    End,
    /// EndIf of If Node, with the position after it.
    EndIf(usize),
    /// Else of If Node, with the position after it.
    ElseIf(usize),
    /// EndLoop of Loop Node, with the position after it.
    EndLoop(usize),
    /// Error recognizing the template.
    Error,
}

/// How a piece of template ended, as a mathematical value.
pub enum Cond {
    End,
    EndIf(int),
    ElseIf(int),
    EndLoop(int),
    Error,
}

pub open spec fn cond_view(c: ConditionNode) -> Cond {
    match c {
        ConditionNode::End => Cond::End,
        ConditionNode::EndIf(i) => Cond::EndIf(i as int),
        ConditionNode::ElseIf(i) => Cond::ElseIf(i as int),
        ConditionNode::EndLoop(i) => Cond::EndLoop(i as int),
        ConditionNode::Error => Cond::Error,
    }
}

/// The first position at or after `i` where the bytes `a`, `b` follow each other.
pub open spec fn find_pair(s: Seq<u8>, i: int, a: u8, b: u8) -> Option<int>
    decreases s.len() - i,
{
    if i < 0 || i + 1 >= s.len() {
        None
    } else if s[i] == a && s[i + 1] == b {
        Some(i)
    } else {
        find_pair(s, i + 1, a, b)
    }
}

/// Scans the template `s` from position `ind` on, with the nodes `acc`
/// found so far; returns all nodes found and how the piece ended.
///
/// Text before a marker becomes a text node. An unclosed `{%` ends the scan
/// with the text from `ind` on as a text node (so text before the `{%`
/// appears twice).
pub open spec fn scan(s: Seq<u8>, ind: int, acc: Seq<Tpl>) -> (Seq<Tpl>, Cond)
    decreases s.len() - ind, 2int,
{
    if ind < 0 || ind > s.len() {
        (acc, Cond::Error)
    } else {
        let tail_text = if ind < s.len() {
            seq![Tpl::Text(s.subrange(ind, s.len() as int))]
        } else {
            Seq::empty()
        };
        match find_pair(s, ind, 123u8, 37u8) {
            None => (acc + tail_text, Cond::End),
            Some(p) => {
                let acc1 = if p != ind {
                    acc.push(Tpl::Text(s.subrange(ind, p)))
                } else {
                    acc
                };
                match find_pair(s, p, 37u8, 125u8) {
                    None => (acc1 + tail_text, Cond::End),
                    Some(q) => if ind <= p < q {
                        scan_marker(s, p, q, acc1)
                    } else {
                        (acc1, Cond::Error)
                    },
                }
            },
        }
    }
}

/// Goes on with the scan after the marker `s[p..q + 2]`: a value or a
/// comment continues the scan; an `if` or `loop` marker scans its body up to
/// its closing marker; `else`, `end if` and `end loop` end the piece with the
/// position after them.
pub open spec fn scan_marker(s: Seq<u8>, p: int, q: int, acc1: Seq<Tpl>) -> (Seq<Tpl>, Cond)
    decreases s.len() - p, 1int,
{
    let after = q + 2;
    if p < 0 || after <= p || after > s.len() {
        (acc1, Cond::Error)
    } else {
        let rest = s.subrange(after, s.len() as int);
        match tag_kind(s.subrange(p, after)) {
            TagSpec::Value(name) => scan(s, after, acc1.push(Tpl::Value(name))),
            TagSpec::ValueEscape(name) => scan(s, after, acc1.push(Tpl::ValueEscape(name))),
            TagSpec::Comment => scan(s, after, acc1),
            TagSpec::Else => (acc1, Cond::ElseIf(after)),
            TagSpec::EndIf => (acc1, Cond::EndIf(after)),
            TagSpec::EndLoop => (acc1, Cond::EndLoop(after)),
            TagSpec::Error => (acc1, Cond::Error),
            TagSpec::If(name) => {
                let (vt, c1) = parse(rest);
                match c1 {
                    Cond::EndIf(i) => if 0 <= i && after + i <= s.len() {
                        scan(s, after + i, acc1.push(Tpl::If(spec_fnv1a_64(name), vt, Seq::empty())))
                    } else {
                        (acc1, Cond::Error)
                    },
                    Cond::ElseIf(i) => if 0 <= i && after + i <= s.len() {
                        let (vf, c2) = parse(s.subrange(after + i, s.len() as int));
                        match c2 {
                            Cond::EndIf(j) => if 0 <= j && after + i + j <= s.len() {
                                scan(s, after + i + j, acc1.push(Tpl::If(spec_fnv1a_64(name), vt, vf)))
                            } else {
                                (acc1, Cond::Error)
                            },
                            _ => (acc1, Cond::Error),
                        }
                    } else {
                        (acc1, Cond::Error)
                    },
                    _ => (acc1, Cond::Error),
                }
            },
            TagSpec::Loop(name) => {
                let (v, c1) = parse(rest);
                match c1 {
                    Cond::EndLoop(i) => if 0 <= i && after + i <= s.len() {
                        scan(s, after + i, acc1.push(Tpl::Loop(spec_fnv1a_64(name), v)))
                    } else {
                        (acc1, Cond::Error)
                    },
                    _ => (acc1, Cond::Error),
                }
            },
        }
    }
}

/// The nodes of the template `s` and how it ended.
pub open spec fn parse(s: Seq<u8>) -> (Seq<Tpl>, Cond)
    decreases s.len(), 3int,
{
    scan(s, 0, Seq::empty())
}

/// Escapes one character for HTML.
pub open spec fn escape_char(c: char) -> Seq<char> {
    if c == '&' {
        seq!['&', 'a', 'm', 'p', ';']
    } else if c == '"' {
        seq!['&', 'q', 'u', 'o', 't', ';']
    } else if c == '\'' {
        seq!['&', 'a', 'p', 'o', 's', ';']
    } else if c == '<' {
        seq!['&', 'l', 't', ';']
    } else if c == '>' {
        seq!['&', 'g', 't', ';']
    } else {
        seq![c]
    }
}

/// Escapes a text for HTML, character by character.
pub open spec fn escaped(s: Seq<char>) -> Seq<char>
    decreases s.len(),
{
    if s.len() == 0 {
        Seq::empty()
    } else {
        escaped(s.drop_last()) + escape_char(s.last())
    }
}

fn push_escaped(out: &mut String, c: char)
    ensures
        final(out)@ == old(out)@ + escape_char(c),
{
    if c == '&' {
        push_char(out, '&');
        push_char(out, 'a');
        push_char(out, 'm');
        push_char(out, 'p');
        push_char(out, ';');
    } else if c == '"' {
        push_char(out, '&');
        push_char(out, 'q');
        push_char(out, 'u');
        push_char(out, 'o');
        push_char(out, 't');
        push_char(out, ';');
    } else if c == '\'' {
        push_char(out, '&');
        push_char(out, 'a');
        push_char(out, 'p');
        push_char(out, 'o');
        push_char(out, 's');
        push_char(out, ';');
    } else if c == '<' {
        push_char(out, '&');
        push_char(out, 'l');
        push_char(out, 't');
        push_char(out, ';');
    } else if c == '>' {
        push_char(out, '&');
        push_char(out, 'g');
        push_char(out, 't');
        push_char(out, ';');
    } else {
        push_char(out, c);
    }
    assert(final(out)@ =~= old(out)@ + escape_char(c));
}

/// Builds a string from the bytes of `b` between two character boundaries.
fn piece(b: &[u8], x: usize, y: usize) -> (res: String)
    requires
        valid_utf8(b@),
        x <= y <= b@.len(),
        is_char_boundary(b@, x as int),
        is_char_boundary(b@, y as int),
    ensures
        bytes_of(&res) == b@.subrange(x as int, y as int),
{
    proof {
        lemma_piece_valid(b@, x as int, y as int);
    }
    let v = vstd::slice::slice_to_vec(&b[x..y]);
    match string_from_utf8(v) {
        Some(s) => s,
        None => {
            assert(false);
            String::new()
        },
    }
}

/// The first position at or after `start` where `x`, `y` follow each other.
fn find_pair_from(s: &[u8], start: usize, x: u8, y: u8) -> (res: Option<usize>)
    requires
        start <= s@.len(),
    ensures
        match res {
            Some(p) => {
                &&& find_pair(s@, start as int, x, y) == Some(p as int)
                &&& start <= p && p + 1 < s@.len() && s@[p as int] == x && s@[p + 1] == y
            },
            None => find_pair(s@, start as int, x, y) is None,
        },
{
    let mut i: usize = start;
    while s.len() > 1 && i < s.len() - 1
        invariant
            start <= i <= s@.len(),
            find_pair(s@, i as int, x, y) == find_pair(s@, start as int, x, y),
        decreases s@.len() - i,
    {
        if s[i] == x && s[i + 1] == y {
            return Some(i);
        }
        i = i + 1;
    }
    None
}

/// Positions carried by an ending lie in the text, on a character boundary.
pub open spec fn ending_ok(c: ConditionNode, s: Seq<u8>) -> bool {
    match c {
        ConditionNode::EndIf(i) => i <= s.len() && is_char_boundary(s, i as int),
        ConditionNode::ElseIf(i) => i <= s.len() && is_char_boundary(s, i as int),
        ConditionNode::EndLoop(i) => i <= s.len() && is_char_boundary(s, i as int),
        _ => true,
    }
}

proof fn lemma_nodes_view_push(v: Seq<Node>, n: Node)
    ensures
        nodes_view(v.push(n)) == nodes_view(v).push(node_view(n)),
{
    assert(v.push(n).drop_last() =~= v);
}

/// What a marker does to the scan: it goes on at a position, having added
/// nodes, or the piece ends.
enum Step {
    Continue(usize),
    Stop(ConditionNode),
}

/// Handles the marker `html[p..q + 2]`, pushing the nodes it gives to `vec`.
#[verifier::rlimit(30)]
fn marker_step(html: &[u8], p: usize, q: usize, vec: &mut Vec<Node>, Ghost(acc1): Ghost<Seq<Tpl>>) -> (res: (Step, Ghost<Seq<Tpl>>))
    requires
        valid_utf8(html@),
        p < q,
        q + 1 < html@.len(),
        html@[p as int] == 123u8,
        html@[p + 1] == 37u8,
        html@[q as int] == 37u8,
        html@[q + 1] == 125u8,
    ensures
        ({
            let (step, added) = res;
            match step {
                Step::Continue(k) => {
                    &&& p < k <= html@.len()
                    &&& is_char_boundary(html@, k as int)
                    &&& nodes_view(final(vec)@) == nodes_view(old(vec)@) + added@
                    &&& scan_marker(html@, p as int, q as int, acc1) == scan(html@, k as int, acc1 + added@)
                },
                Step::Stop(c) => {
                    &&& nodes_view(final(vec)@) == nodes_view(old(vec)@) + added@
                    &&& added@ == Seq::<Tpl>::empty()
                    &&& scan_marker(html@, p as int, q as int, acc1) == (acc1 + added@, cond_view(c))
                    &&& ending_ok(c, html@)
                },
            }
        }),
    decreases html@.len() - p, 0int,
{
    let ghost s = html@;
    let len = html.len();
    let after = q + 2;
    proof {
        lemma_ascii_is_boundary(s, p as int);
        lemma_after_ascii_is_boundary(s, q + 1);
    }
    let tag = &html[p..after];
    assert(tag@ == s.subrange(p as int, after as int));
    let kind = Html::get_type_node(tag);
    match kind {
        TypeNode::Value(a, b) => {
            proof {
                lemma_ascii_is_boundary(s, p + 2);
                lemma_after_ascii_is_boundary(s, p + 2);
                lemma_ascii_is_boundary(s, p + b);
            }
            let t = piece(html, p + a, p + b);
            let ghost n = Tpl::Value(tag@.subrange(a as int, b as int));
            proof {
                lemma_nodes_view_push(vec@, Node::Value(t));
                assert(tag@.subrange(a as int, b as int) =~= s.subrange(p + a, p + b));
                assert(acc1 + Seq::<Tpl>::empty().push(n) =~= acc1.push(n));
            }
            vec.push(Node::Value(t));
            (Step::Continue(after), Ghost(Seq::<Tpl>::empty().push(n)))
        },
        TypeNode::ValueEscape(a, b) => {
            proof {
                lemma_ascii_is_boundary(s, p + 3);
                lemma_after_ascii_is_boundary(s, p + 3);
                lemma_ascii_is_boundary(s, p + b);
            }
            let t = piece(html, p + a, p + b);
            let ghost n = Tpl::ValueEscape(tag@.subrange(a as int, b as int));
            proof {
                lemma_nodes_view_push(vec@, Node::ValueEscape(t));
                assert(tag@.subrange(a as int, b as int) =~= s.subrange(p + a, p + b));
                assert(acc1 + Seq::<Tpl>::empty().push(n) =~= acc1.push(n));
            }
            vec.push(Node::ValueEscape(t));
            (Step::Continue(after), Ghost(Seq::<Tpl>::empty().push(n)))
        },
        TypeNode::Comment => {
            assert(acc1 + Seq::<Tpl>::empty() =~= acc1);
            assert(nodes_view(vec@) =~= nodes_view(vec@) + Seq::<Tpl>::empty());
            (Step::Continue(after), Ghost(Seq::empty()))
        },
        TypeNode::Else => {
            assert(acc1 + Seq::<Tpl>::empty() =~= acc1);
            assert(nodes_view(vec@) + Seq::<Tpl>::empty() =~= nodes_view(vec@));
            (Step::Stop(ConditionNode::ElseIf(after)), Ghost(Seq::empty()))
        },
        TypeNode::EndIf => {
            assert(acc1 + Seq::<Tpl>::empty() =~= acc1);
            assert(nodes_view(vec@) + Seq::<Tpl>::empty() =~= nodes_view(vec@));
            (Step::Stop(ConditionNode::EndIf(after)), Ghost(Seq::empty()))
        },
        TypeNode::EndLoop => {
            assert(acc1 + Seq::<Tpl>::empty() =~= acc1);
            assert(nodes_view(vec@) + Seq::<Tpl>::empty() =~= nodes_view(vec@));
            (Step::Stop(ConditionNode::EndLoop(after)), Ghost(Seq::empty()))
        },
        TypeNode::Error => {
            assert(acc1 + Seq::<Tpl>::empty() =~= acc1);
            assert(nodes_view(vec@) + Seq::<Tpl>::empty() =~= nodes_view(vec@));
            (Step::Stop(ConditionNode::Error), Ghost(Seq::empty()))
        },
        TypeNode::If(a, b) => {
            let h = fnv1a_64(&tag[a..b]);
            proof {
                vstd::utf8::valid_utf8_split(s, after as int);
            }
            let rest = &html[after..len];
            assert(rest@ == s.subrange(after as int, len as int));
            let mut vt: Vec<Node> = Vec::new();
            let mut vf: Vec<Node> = Vec::new();
            assert(nodes_view(vt@) =~= Seq::<Tpl>::empty());
            assert(nodes_view(vf@) =~= Seq::<Tpl>::empty());
            match view_bytes(rest, &mut vt) {
                ConditionNode::EndIf(i) => {
                    proof {
                        lemma_boundary_from_suffix(s, after as int, i as int);
                        assert(nodes_view(vt@) =~= parse(rest@).0);
                    }
                    let node = Node::If(h, Arc::new(vt), Arc::new(vf));
                    let ghost n = node_view(node);
                    proof {
                        lemma_nodes_view_push(vec@, node);
                        assert(acc1 + Seq::<Tpl>::empty().push(n) =~= acc1.push(n));
                    }
                    vec.push(node);
                    (Step::Continue(after + i), Ghost(Seq::<Tpl>::empty().push(n)))
                },
                ConditionNode::ElseIf(i) => {
                    proof {
                        lemma_boundary_from_suffix(s, after as int, i as int);
                        vstd::utf8::valid_utf8_split(s, (after + i) as int);
                    }
                    let rest2 = &html[after + i..len];
                    assert(rest2@ == s.subrange((after + i) as int, len as int));
                    match view_bytes(rest2, &mut vf) {
                        ConditionNode::EndIf(j) => {
                            proof {
                                lemma_boundary_from_suffix(s, (after + i) as int, j as int);
                                assert(nodes_view(vt@) =~= parse(rest@).0);
                                assert(nodes_view(vf@) =~= parse(rest2@).0);
                            }
                            let node = Node::If(h, Arc::new(vt), Arc::new(vf));
                            let ghost n = node_view(node);
                            proof {
                                lemma_nodes_view_push(vec@, node);
                                assert(acc1 + Seq::<Tpl>::empty().push(n) =~= acc1.push(n));
                            }
                            vec.push(node);
                            (Step::Continue(after + i + j), Ghost(Seq::<Tpl>::empty().push(n)))
                        },
                        _ => {
                    assert(acc1 + Seq::<Tpl>::empty() =~= acc1);
                    assert(nodes_view(vec@) + Seq::<Tpl>::empty() =~= nodes_view(vec@));
                    (Step::Stop(ConditionNode::Error), Ghost(Seq::empty()))
                },
                    }
                },
                _ => {
                    assert(acc1 + Seq::<Tpl>::empty() =~= acc1);
                    assert(nodes_view(vec@) + Seq::<Tpl>::empty() =~= nodes_view(vec@));
                    (Step::Stop(ConditionNode::Error), Ghost(Seq::empty()))
                },
            }
        },
        TypeNode::Loop(a, b) => {
            let h = fnv1a_64(&tag[a..b]);
            proof {
                vstd::utf8::valid_utf8_split(s, after as int);
            }
            let rest = &html[after..len];
            assert(rest@ == s.subrange(after as int, len as int));
            let mut v: Vec<Node> = Vec::new();
            assert(nodes_view(v@) =~= Seq::<Tpl>::empty());
            match view_bytes(rest, &mut v) {
                ConditionNode::EndLoop(i) => {
                    proof {
                        lemma_boundary_from_suffix(s, after as int, i as int);
                        assert(nodes_view(v@) =~= parse(rest@).0);
                    }
                    let node = Node::Loop(h, Arc::new(v));
                    let ghost n = node_view(node);
                    proof {
                        lemma_nodes_view_push(vec@, node);
                        assert(acc1 + Seq::<Tpl>::empty().push(n) =~= acc1.push(n));
                    }
                    vec.push(node);
                    (Step::Continue(after + i), Ghost(Seq::<Tpl>::empty().push(n)))
                },
                _ => {
                    assert(acc1 + Seq::<Tpl>::empty() =~= acc1);
                    assert(nodes_view(vec@) + Seq::<Tpl>::empty() =~= nodes_view(vec@));
                    (Step::Stop(ConditionNode::Error), Ghost(Seq::empty()))
                },
            }
        },
    }
}

/// One step of the scan from `ind`: the text up to the next marker and the
/// marker itself.
#[verifier::rlimit(30)]
fn scan_step(html: &[u8], ind: usize, vec: &mut Vec<Node>, Ghost(acc): Ghost<Seq<Tpl>>) -> (res: (Step, Ghost<Seq<Tpl>>))
    requires
        valid_utf8(html@),
        ind <= html@.len(),
        is_char_boundary(html@, ind as int),
    ensures
        ({
            let (step, added) = res;
            &&& nodes_view(final(vec)@) == nodes_view(old(vec)@) + added@
            &&& match step {
                Step::Continue(k) => {
                    &&& ind < k <= html@.len()
                    &&& is_char_boundary(html@, k as int)
                    &&& scan(html@, ind as int, acc) == scan(html@, k as int, acc + added@)
                },
                Step::Stop(c) => {
                    &&& scan(html@, ind as int, acc) == (acc + added@, cond_view(c))
                    &&& ending_ok(c, html@)
                },
            }
        }),
    decreases html@.len() - ind, 1int,
{
    let ghost s = html@;
    let len = html.len();
    let ghost tail_text = if ind < len {
        seq![Tpl::Text(s.subrange(ind as int, len as int))]
    } else {
        Seq::<Tpl>::empty()
    };
    let ghost v0 = vec@;
    let found = find_pair_from(html, ind, 123u8, 37u8);
    if found.is_none() {
        assert(scan(s, ind as int, acc) == (acc + tail_text, Cond::End));
        if ind < len {
            proof {
                vstd::utf8::is_char_boundary_start_end_of_seq(s);
            }
            let t = piece(html, ind, len);
            proof {
                lemma_nodes_view_push(vec@, Node::Text(t));
            }
            vec.push(Node::Text(t));
        }
        assert(nodes_view(vec@) =~= nodes_view(v0) + tail_text);
        return (Step::Stop(ConditionNode::End), Ghost(tail_text));
    }
    let p = found.unwrap();
    proof {
        lemma_ascii_is_boundary(s, p as int);
    }
    let ghost pre = if p != ind {
        seq![Tpl::Text(s.subrange(ind as int, p as int))]
    } else {
        Seq::<Tpl>::empty()
    };
    if p != ind {
        let t = piece(html, ind, p);
        proof {
            lemma_nodes_view_push(vec@, Node::Text(t));
        }
        vec.push(Node::Text(t));
    }
    assert(nodes_view(vec@) =~= nodes_view(v0) + pre);
    let ghost acc1 = acc + pre;
    assert(acc1 == if p != ind {
        acc.push(Tpl::Text(s.subrange(ind as int, p as int)))
    } else {
        acc
    });
    assert(find_pair(s, ind as int, 123u8, 37u8) == Some(p as int));
    let found2 = find_pair_from(html, p, 37u8, 125u8);
    if found2.is_none() {
        assert(find_pair(s, p as int, 37u8, 125u8) is None);
        assert(scan(s, ind as int, acc) == (acc1 + tail_text, Cond::End));
        if ind < len {
            proof {
                vstd::utf8::is_char_boundary_start_end_of_seq(s);
            }
            let t = piece(html, ind, len);
            proof {
                lemma_nodes_view_push(vec@, Node::Text(t));
            }
            vec.push(Node::Text(t));
        }
        assert(nodes_view(vec@) =~= nodes_view(v0) + (pre + tail_text));
        assert(acc1 + tail_text =~= acc + (pre + tail_text));
        return (Step::Stop(ConditionNode::End), Ghost(pre + tail_text));
    }
    let q = found2.unwrap();
    assert(find_pair(s, p as int, 37u8, 125u8) == Some(q as int));
    assert(p < q);
    assert(scan(s, ind as int, acc) == scan_marker(s, p as int, q as int, acc1));
    let ghost v1 = vec@;
    assert(nodes_view(v1) == nodes_view(v0) + pre);
    let (step, Ghost(added)) = marker_step(html, p, q, vec, Ghost(acc1));
    assert(nodes_view(vec@) == nodes_view(v1) + added);
    assert((nodes_view(v0) + pre) + added =~= nodes_view(v0) + (pre + added));
    assert(acc1 + added =~= acc + (pre + added));
    (step, Ghost(pre + added))
}

/// Parses the template text `html` into `vec`.
fn view_bytes(html: &[u8], vec: &mut Vec<Node>) -> (res: ConditionNode)
    requires
        valid_utf8(html@),
    ensures
        nodes_view(final(vec)@) == nodes_view(old(vec)@) + parse(html@).0,
        cond_view(res) == parse(html@).1,
        ending_ok(res, html@),
    decreases html@.len(), 2int,
{
    let len = html.len();
    let mut ind: usize = 0;
    let ghost mut acc: Seq<Tpl> = Seq::empty();
    let ghost v0 = nodes_view(vec@);
    proof {
        vstd::utf8::is_char_boundary_start_end_of_seq(html@);
        assert(v0 + acc =~= v0);
    }
    loop
        invariant
            len == html@.len(),
            valid_utf8(html@),
            ind <= len,
            is_char_boundary(html@, ind as int),
            scan(html@, ind as int, acc) == parse(html@),
            nodes_view(vec@) == v0 + acc,
            v0 == nodes_view(old(vec)@),
        decreases len - ind,
    {
        let ghost vb = nodes_view(vec@);
        let (step, Ghost(added)) = scan_step(html, ind, vec, Ghost(acc));
        proof {
            assert(nodes_view(vec@) =~= v0 + (acc + added));
            acc = acc + added;
        }
        match step {
            Step::Continue(k) => {
                ind = k;
            },
            Step::Stop(c) => {
                return c;
            },
        }
    }
}

/// Parses a template into its nodes: `End` when the whole text was read.
pub fn get_view(html: &str, vec: &mut Vec<Node>) -> (res: ConditionNode)
    ensures
        nodes_view(final(vec)@) == nodes_view(old(vec)@) + parse(html.spec_bytes()).0,
        cond_view(res) == parse(html.spec_bytes()).1,
{
    view_bytes(html.as_bytes(), vec)
}

/// The additional values, as a mathematical map.
pub open spec fn add_view(add: Option<&BTreeMap<i64, Data>>) -> Option<Map<i64, Data>> {
    match add {
        Some(a) => Some(a@),
        None => None,
    }
}

/// Two optional pieces of output put together; nothing when both are nothing.
pub open spec fn join(a: Option<Seq<char>>, b: Option<Seq<char>>) -> Option<Seq<char>> {
    match (a, b) {
        (None, x) => x,
        (x, None) => x,
        (Some(x), Some(y)) => Some(x + y),
    }
}

/// The characters of a decimal text.
pub open spec fn ascii_chars(b: Seq<u8>) -> Seq<char> {
    b.map_values(|c: u8| c as char)
}

/// The text a value is shown by, escaped or not; `None` for a value that
/// is not shown.
pub open spec fn value_text(d: Data, escape: bool) -> Option<Seq<char>> {
    match d {
        Data::Usize(n) => Some(ascii_chars(decimal(n as nat))),
        Data::I16(n) => Some(ascii_chars(signed_decimal(n as int))),
        Data::I32(n) => Some(ascii_chars(signed_decimal(n as int))),
        Data::I64(n) => Some(ascii_chars(signed_decimal(n as int))),
        Data::String(s) => Some(if escape { escaped(s@) } else { s@ }),
        _ => None,
    }
}

/// The value named by `key`: from `data`, else from `add`.
pub open spec fn find_value(data: Map<i64, Data>, add: Option<Map<i64, Data>>, key: i64) -> Option<Data> {
    if data.contains_key(key) {
        Some(data[key])
    } else {
        match add {
            Some(a) => if a.contains_key(key) {
                Some(a[key])
            } else {
                None
            },
            None => None,
        }
    }
}

/// The output of a list of nodes.
pub open spec fn render_list(data: Map<i64, Data>, nodes: Seq<Node>, add: Option<Map<i64, Data>>) -> Option<Seq<char>>
    decreases nodes, 0int,
{
    if nodes.len() == 0 {
        None
    } else {
        join(render_list(data, nodes.drop_last(), add), render_one(data, nodes.last(), add))
    }
}

/// The output of one node: a value shows its data from `data` or `add`; an
/// `if` shows its first or second list by a boolean of `data` or `add`; a
/// loop shows its body for each map in a list of `data` or `add`.
pub open spec fn render_one(data: Map<i64, Data>, n: Node, add: Option<Map<i64, Data>>) -> Option<Seq<char>>
    decreases n, 0int,
{
    match n {
        Node::Text(t) => Some(t@),
        Node::Value(v) => match find_value(data, add, spec_fnv1a_64(bytes_of(&v))) {
            Some(d) => value_text(d, false),
            None => None,
        },
        Node::ValueEscape(v) => match find_value(data, add, spec_fnv1a_64(bytes_of(&v))) {
            Some(d) => value_text(d, true),
            None => None,
        },
        Node::If(k, t, f) => match find_value(data, add, k) {
            Some(Data::Bool(b)) => if b {
                render_list(data, (*t)@, add)
            } else {
                render_list(data, (*f)@, add)
            },
            _ => None,
        },
        Node::Loop(k, body) => match find_value(data, add, k) {
            Some(Data::Vec(items)) => render_items(data, (*body)@, items@),
            _ => None,
        },
    }
}

/// The output of a loop body for each map in `items`.
pub open spec fn render_items(data: Map<i64, Data>, body: Seq<Node>, items: Seq<Data>) -> Option<Seq<char>>
    decreases body, items.len() + 1,
{
    if items.len() == 0 {
        None
    } else {
        join(
            render_items(data, body, items.drop_last()),
            match items.last() {
                Data::KeyMap(m) => render_list(data, body, Some(m@)),
                _ => None,
            },
        )
    }
}

fn push_decimal_chars(out: &mut String, n: u64)
    ensures
        final(out)@ == old(out)@ + ascii_chars(decimal(n as nat)),
    decreases n,
{
    if n < 10 {
        push_char(out, ((n as u8) + 48u8) as char);
    } else {
        push_decimal_chars(out, n / 10);
        push_char(out, (((n % 10) as u8) + 48u8) as char);
    }
    assert(final(out)@ =~= old(out)@ + ascii_chars(decimal(n as nat)));
}

fn push_signed_chars(out: &mut String, n: i64)
    ensures
        final(out)@ == old(out)@ + ascii_chars(signed_decimal(n as int)),
{
    if n < 0 {
        push_char(out, '-');
        let m: u64 = (-(n as i128)) as u64;
        push_decimal_chars(out, m);
    } else {
        push_decimal_chars(out, n as u64);
    }
    assert(final(out)@ =~= old(out)@ + ascii_chars(signed_decimal(n as int)));
}

/// Appends the text of a value; whether anything was shown.
fn push_value(out: &mut String, d: &Data, escape: bool) -> (shown: bool)
    ensures
        match value_text(*d, escape) {
            Some(t) => shown && final(out)@ == old(out)@ + t,
            None => !shown && final(out)@ == old(out)@,
        },
{
    match d {
        Data::Usize(n) => {
            push_decimal_chars(out, *n as u64);
            true
        },
        Data::I16(n) => {
            push_signed_chars(out, *n as i64);
            true
        },
        Data::I32(n) => {
            push_signed_chars(out, *n as i64);
            true
        },
        Data::I64(n) => {
            push_signed_chars(out, *n);
            true
        },
        Data::String(s) => {
            if escape {
                match Html::escape(s.as_str()) {
                    Cow::Borrowed(e) => out.append(e),
                    Cow::Owned(e) => out.append(e.as_str()),
                }
            } else {
                out.append(s.as_str());
            }
            true
        },
        _ => false,
    }
}

fn lookup_value<'a>(data: &'a BTreeMap<i64, Data>, add: Option<&'a BTreeMap<i64, Data>>, key: i64) -> (res: Option<&'a Data>)
    ensures
        match res {
            Some(d) => find_value(data@, add_view(add), key) == Some(*d),
            None => find_value(data@, add_view(add), key) is None,
        },
{
    match data.get(&key) {
        Some(d) => Some(d),
        None => match add {
            Some(a) => a.get(&key),
            None => None,
        },
    }
}

/// The output so far, as an optional text: nothing when nothing was shown.
pub open spec fn shown_text(shown: bool, out: Seq<char>) -> Option<Seq<char>> {
    if shown {
        Some(out)
    } else {
        None
    }
}

proof fn lemma_join_shown(s0: bool, out0: Seq<char>, piece: Option<Seq<char>>)
    requires
        s0 || out0.len() == 0,
    ensures
        join(shown_text(s0, out0), piece) == match piece {
            Some(t) => shown_text(true, out0 + t),
            None => shown_text(s0, out0),
        },
{
    if !s0 {
        if let Some(t) = piece {
            assert(out0 + t =~= t);
        }
    }
}

/// Appends the output of `nodes`; whether anything was shown.
fn render_into(out: &mut String, data: &BTreeMap<i64, Data>, nodes: &Vec<Node>, add: Option<&BTreeMap<i64, Data>>) -> (shown: bool)
    ensures
        match render_list(data@, nodes@, add_view(add)) {
            Some(t) => shown && final(out)@ == old(out)@ + t,
            None => !shown && final(out)@ == old(out)@,
        },
    decreases nodes@, 1int,
{
    let ghost addv = add_view(add);
    let ghost start = out@;
    let mut shown = false;
    let mut i: usize = 0;
    while i < nodes.len()
        invariant
            i <= nodes@.len(),
            addv == add_view(add),
            shown_text(shown, out@.subrange(start.len() as int, out@.len() as int)) == render_list(
                data@,
                nodes@.subrange(0, i as int),
                addv,
            ),
            start.len() <= out@.len(),
            out@.subrange(0, start.len() as int) == start,
            shown || out@.len() == start.len(),
        decreases nodes@.len() - i,
    {
        let ghost out0 = out@;
        let ghost s0 = shown;
        let node = &nodes[i];
        assert(nodes@.subrange(0, i + 1).drop_last() =~= nodes@.subrange(0, i as int));
        assert(nodes@.subrange(0, i + 1).last() == *node);
        let piece_shown = render_node(out, data, node, add);
        proof {
            let rest0 = out0.subrange(start.len() as int, out0.len() as int);
            lemma_join_shown(s0, rest0, render_one(data@, *node, addv));
            if piece_shown {
                let t = render_one(data@, *node, addv)->0;
                assert(out@.subrange(start.len() as int, out@.len() as int) =~= rest0 + t);
            }
            assert(out@.subrange(0, start.len() as int) =~= start);
        }
        shown = shown || piece_shown;
        i = i + 1;
    }
    assert(nodes@.subrange(0, nodes@.len() as int) =~= nodes@);
    proof {
        if shown {
            assert(out@ =~= start + out@.subrange(start.len() as int, out@.len() as int));
        } else {
            assert(out@ =~= start);
        }
    }
    shown
}

/// Appends the output of one node; whether anything was shown.
fn render_node(out: &mut String, data: &BTreeMap<i64, Data>, node: &Node, add: Option<&BTreeMap<i64, Data>>) -> (shown: bool)
    ensures
        match render_one(data@, *node, add_view(add)) {
            Some(t) => shown && final(out)@ == old(out)@ + t,
            None => !shown && final(out)@ == old(out)@,
        },
    decreases *node, 1int,
{
    match node {
        Node::Text(t) => {
            out.append(t.as_str());
            true
        },
        Node::Value(v) => {
            let key = fnv1a_64(v.as_str().as_bytes());
            match lookup_value(data, add, key) {
                Some(d) => push_value(out, d, false),
                None => false,
            }
        },
        Node::ValueEscape(v) => {
            let key = fnv1a_64(v.as_str().as_bytes());
            match lookup_value(data, add, key) {
                Some(d) => push_value(out, d, true),
                None => false,
            }
        },
        Node::If(key, vec_true, vec_false) => {
            match lookup_value(data, add, *key) {
                Some(Data::Bool(b)) => {
                    if *b {
                        render_into(out, data, &**vec_true, add)
                    } else {
                        render_into(out, data, &**vec_false, add)
                    }
                },
                _ => false,
            }
        },
        Node::Loop(key, body) => {
            match lookup_value(data, add, *key) {
                Some(Data::Vec(items)) => render_loop(out, data, &**body, items),
                _ => false,
            }
        },
    }
}

/// Appends the output of a loop body for each map in `items`.
fn render_loop(out: &mut String, data: &BTreeMap<i64, Data>, body: &Vec<Node>, items: &Vec<Data>) -> (shown: bool)
    ensures
        match render_items(data@, body@, items@) {
            Some(t) => shown && final(out)@ == old(out)@ + t,
            None => !shown && final(out)@ == old(out)@,
        },
    decreases body@, items@.len() + 2,
{
    let ghost start = out@;
    let mut shown = false;
    let mut i: usize = 0;
    while i < items.len()
        invariant
            i <= items@.len(),
            shown_text(shown, out@.subrange(start.len() as int, out@.len() as int)) == render_items(
                data@,
                body@,
                items@.subrange(0, i as int),
            ),
            start.len() <= out@.len(),
            out@.subrange(0, start.len() as int) == start,
            shown || out@.len() == start.len(),
        decreases items@.len() - i,
    {
        let ghost out0 = out@;
        let ghost s0 = shown;
        assert(items@.subrange(0, i + 1).drop_last() =~= items@.subrange(0, i as int));
        let item = &items[i];
        let piece_shown = match item {
            Data::KeyMap(m) => render_into(out, data, body, Some(m)),
            _ => false,
        };
        proof {
            let rest0 = out0.subrange(start.len() as int, out0.len() as int);
            let piece = match items@[i as int] {
                Data::KeyMap(m) => render_list(data@, body@, Some(m@)),
                _ => None,
            };
            lemma_join_shown(s0, rest0, piece);
            if piece_shown {
                assert(out@.subrange(start.len() as int, out@.len() as int) =~= rest0 + piece->0);
            }
            assert(out@.subrange(0, start.len() as int) =~= start);
        }
        shown = shown || piece_shown;
        i = i + 1;
    }
    assert(items@.subrange(0, items@.len() as int) =~= items@);
    proof {
        if shown {
            assert(out@ =~= start + out@.subrange(start.len() as int, out@.len() as int));
        } else {
            assert(out@ =~= start);
        }
    }
    shown
}

/// Html template marker.
#[derive(Debug)]
pub struct Html {
    /// List of templates, by module ID, class ID and template ID.
    pub list: BTreeMap<i64, BTreeMap<i64, Arc<BTreeMap<i64, Vec<Node>>>>>,
}

impl Html {
    /// Renders a list of nodes with the values of `data`, or of `add` for a
    /// value that `data` does not hold; `Nothing` when nothing was shown.
    pub fn render(data: &BTreeMap<i64, Data>, list: &Vec<Node>, add: Option<&BTreeMap<i64, Data>>) -> (res: Answer)
        ensures
            match render_list(data@, list@, add_view(add)) {
                Some(t) => res matches Answer::String(s) && s@ == t,
                None => res is Nothing,
            },
    {
        let mut out = String::new();
        let shown = render_into(&mut out, data, list, add);
        if shown {
            assert(out@ =~= Seq::<char>::empty() + out@);
            Answer::String(out)
        } else {
            Answer::Nothing
        }
    }

    /// Escapes a text for HTML: `&` => `&amp;`, `"` => `&quot;`,
    /// `'` => `&apos;`, `<` => `&lt;`, `>` => `&gt;`. A text without any of
    /// these characters comes back borrowed, as it is.
    pub fn escape<'a>(text: &'a str) -> (res: Cow<'a, str>)
        ensures
            res@ == escaped(text@),
            (res matches Cow::Borrowed(b) && b@ == text@) <==> forall|i: int|
                0 <= i < text@.len() ==> !is_special(#[trigger] text@[i]),
    {
        let n = text.unicode_len();
        let mut i: usize = 0;
        while i < n && !is_special_char(text.get_char(i))
            invariant
                n == text@.len(),
                i <= n,
                forall|j: int| 0 <= j < i ==> !is_special(#[trigger] text@[j]),
            decreases n - i,
        {
            i = i + 1;
        }
        if i == n {
            proof {
                law_escape_plain_text(text@);
            }
            return Cow::Borrowed(text);
        }
        assert(is_special(text@[i as int]));
        Cow::Owned(Html::escape_owned(text))
    }

    /// Escapes a text for HTML into a new string (see `escape`).
    fn escape_owned(text: &str) -> (res: String)
        ensures
            res@ == escaped(text@),
    {
        let mut out = String::new();
        let n = text.unicode_len();
        let mut i: usize = 0;
        while i < n
            invariant
                n == text@.len(),
                i <= n,
                out@ == escaped(text@.subrange(0, i as int)),
            decreases n - i,
        {
            let c = text.get_char(i);
            assert(text@.subrange(0, i + 1).drop_last() =~= text@.subrange(0, i as int));
            push_escaped(&mut out, c);
            i = i + 1;
        }
        assert(text@.subrange(0, n as int) =~= text@);
        out
    }

    /// Detects the kind of a marker `{%..%}`.
    pub fn get_type_node(text: &[u8]) -> (res: TypeNode)
        requires
            text@.len() >= 3,
        ensures
            type_view(res, text@) == tag_kind(text@),
            type_positions_ok(res, text@.len() as int),
    {
        let len = text.len();
        if len <= 4 {
            return TypeNode::Error;
        }
        if len == 5 {
            if text[2] == 63u8 {
                return TypeNode::EndIf;
            } else if text[2] == 64u8 {
                return TypeNode::EndLoop;
            } else {
                return TypeNode::Error;
            }
        }
        if len == 6 {
            if text[2] == 63u8 && text[3] == 126u8 {
                return TypeNode::Else;
            } else {
                return TypeNode::Error;
            }
        }
        if text[2] == 32u8 && text[len - 3] == 32u8 {
            return TypeNode::Value(3, len - 3);
        }
        let closed = text[len - 3] == 32u8 && text[3] == 32u8;
        if closed && text[2] == 43u8 {
            return TypeNode::ValueEscape(4, len - 3);
        }
        if closed && text[2] == 35u8 {
            return TypeNode::Comment;
        }
        if closed && text[2] == 63u8 {
            return TypeNode::If(4, len - 3);
        }
        if closed && text[2] == 64u8 {
            return TypeNode::Loop(4, len - 3);
        }
        TypeNode::Error
    }
}

} // verus!

verus! {

/// Whether a character is changed by escaping.
pub open spec fn is_special(c: char) -> bool {
    c == '&' || c == '"' || c == '\'' || c == '<' || c == '>'
}

fn is_special_char(c: char) -> (res: bool)
    ensures
        res == is_special(c),
{
    c == '&' || c == '"' || c == '\'' || c == '<' || c == '>'
}

/// A text without special characters is its own escape.
pub proof fn law_escape_plain_text(s: Seq<char>)
    requires
        forall|i: int| 0 <= i < s.len() ==> !is_special(#[trigger] s[i]),
    ensures
        escaped(s) == s,
    decreases s.len(),
{
    if s.len() > 0 {
        law_escape_plain_text(s.drop_last());
        assert(!is_special(s[s.len() - 1]));
        assert(s.drop_last() + seq![s.last()] =~= s);
    } else {
        assert(s =~= Seq::<char>::empty());
    }
}

/// Escaping never shortens a text, and lengthens one that holds a special
/// character.
proof fn lemma_escaped_len(s: Seq<char>)
    ensures
        escaped(s).len() >= s.len(),
        (exists|i: int| 0 <= i < s.len() && is_special(#[trigger] s[i])) ==> escaped(s).len() > s.len(),
    decreases s.len(),
{
    if s.len() > 0 {
        let t = s.drop_last();
        lemma_escaped_len(t);
        if exists|i: int| 0 <= i < s.len() && is_special(#[trigger] s[i]) {
            let i = choose|i: int| 0 <= i < s.len() && is_special(#[trigger] s[i]);
            if i < s.len() - 1 {
                assert(is_special(t[i]));
            } else {
                assert(is_special(s.last()));
                assert(escape_char(s.last()).len() > 1);
            }
        }
    }
}

/// A text is its own escape exactly when it holds no special character.
pub proof fn law_escape_unchanged_iff_plain(s: Seq<char>)
    ensures
        escaped(s) == s <==> forall|i: int| 0 <= i < s.len() ==> !is_special(#[trigger] s[i]),
{
    if forall|i: int| 0 <= i < s.len() ==> !is_special(#[trigger] s[i]) {
        law_escape_plain_text(s);
    } else {
        lemma_escaped_len(s);
    }
}

/// Reads escaped text back: `&amp;`, `&quot;`, `&apos;`, `&lt;` and `&gt;`
/// stand for the characters they escape; every other character stands for
/// itself.
pub open spec fn unescaped(t: Seq<char>) -> Seq<char>
    decreases t.len(),
{
    if t.len() == 0 {
        Seq::empty()
    } else if t.len() >= 5 && t.subrange(0, 5) == seq!['&', 'a', 'm', 'p', ';'] {
        seq!['&'] + unescaped(t.subrange(5, t.len() as int))
    } else if t.len() >= 6 && t.subrange(0, 6) == seq!['&', 'q', 'u', 'o', 't', ';'] {
        seq!['"'] + unescaped(t.subrange(6, t.len() as int))
    } else if t.len() >= 6 && t.subrange(0, 6) == seq!['&', 'a', 'p', 'o', 's', ';'] {
        seq!['\''] + unescaped(t.subrange(6, t.len() as int))
    } else if t.len() >= 4 && t.subrange(0, 4) == seq!['&', 'l', 't', ';'] {
        seq!['<'] + unescaped(t.subrange(4, t.len() as int))
    } else if t.len() >= 4 && t.subrange(0, 4) == seq!['&', 'g', 't', ';'] {
        seq!['>'] + unescaped(t.subrange(4, t.len() as int))
    } else {
        seq![t[0]] + unescaped(t.drop_first())
    }
}

proof fn lemma_unescape_char(c: char, r: Seq<char>)
    ensures
        unescaped(escape_char(c) + r) == seq![c] + unescaped(r),
{
    let e = escape_char(c);
    let t = e + r;
    assert(t.len() > 0);
    if c == '&' {
        assert(t.subrange(0, 5) =~= e);
        assert(t.subrange(5, t.len() as int) =~= r);
    } else if c == '"' {
        assert(t.subrange(0, 5)[1] == 'q');
        assert(t.subrange(0, 5) != seq!['&', 'a', 'm', 'p', ';']);
        assert(t.subrange(0, 6) =~= e);
        assert(t.subrange(6, t.len() as int) =~= r);
    } else if c == '\'' {
        assert(t.subrange(0, 5)[2] == 'p');
        assert(t.subrange(0, 6)[1] == 'a');
        assert(t.subrange(0, 6) =~= e);
        assert(t.subrange(6, t.len() as int) =~= r);
    } else if c == '<' {
        if t.len() >= 5 {
            assert(t.subrange(0, 5)[1] == 'l');
        }
        if t.len() >= 6 {
            assert(t.subrange(0, 6)[1] == 'l');
        }
        assert(t.subrange(0, 4) =~= e);
        assert(t.subrange(4, t.len() as int) =~= r);
    } else if c == '>' {
        if t.len() >= 5 {
            assert(t.subrange(0, 5)[1] == 'g');
        }
        if t.len() >= 6 {
            assert(t.subrange(0, 6)[1] == 'g');
        }
        assert(t.subrange(0, 4)[1] == 'g');
        assert(t.subrange(0, 4) =~= e);
        assert(t.subrange(4, t.len() as int) =~= r);
    } else {
        assert(t[0] == c);
        if t.len() >= 4 {
            assert(t.subrange(0, 4)[0] == c);
        }
        if t.len() >= 5 {
            assert(t.subrange(0, 5)[0] == c);
        }
        if t.len() >= 6 {
            assert(t.subrange(0, 6)[0] == c);
        }
        assert(t.drop_first() =~= r);
    }
}

proof fn lemma_unescape_escaped(s: Seq<char>, r: Seq<char>)
    ensures
        unescaped(escaped(s) + r) == s + unescaped(r),
    decreases s.len(),
{
    if s.len() == 0 {
        assert(escaped(s) + r =~= r);
        assert(s + unescaped(r) =~= unescaped(r));
    } else {
        let x = s.last();
        lemma_unescape_escaped(s.drop_last(), escape_char(x) + r);
        lemma_unescape_char(x, r);
        assert(escaped(s) + r =~= escaped(s.drop_last()) + (escape_char(x) + r));
        assert(s.drop_last() + (seq![x] + unescaped(r)) =~= s + unescaped(r));
    }
}

/// Reading escaped text back gives the text.
pub proof fn law_escape_reads_back(s: Seq<char>)
    ensures
        unescaped(escaped(s)) == s,
{
    lemma_unescape_escaped(s, Seq::empty());
    assert(escaped(s) + Seq::<char>::empty() =~= escaped(s));
    assert(s + Seq::<char>::empty() =~= s);
}

/// Escaped text holds no `"`, `'`, `<` or `>`.
pub proof fn law_escape_removes_markup(s: Seq<char>)
    ensures
        forall|i: int|
            0 <= i < escaped(s).len() ==> {
                let c = #[trigger] escaped(s)[i];
                c != '"' && c != '\'' && c != '<' && c != '>'
            },
    decreases s.len(),
{
    if s.len() > 0 {
        law_escape_removes_markup(s.drop_last());
        let a = escaped(s.drop_last());
        let b = escape_char(s.last());
        assert forall|i: int| 0 <= i < escaped(s).len() implies {
            let c = #[trigger] escaped(s)[i];
            c != '"' && c != '\'' && c != '<' && c != '>'
        } by {
            if i < a.len() {
                assert(escaped(s)[i] == a[i]);
            } else {
                assert(escaped(s)[i] == b[i - a.len()]);
            }
        }
    }
}

/// A template without markers is a single text node (none when empty),
/// and reading it ends normally.
pub proof fn law_plain_template(s: Seq<u8>)
    requires
        find_pair(s, 0, 123u8, 37u8) is None,
    ensures
        parse(s).1 == Cond::End,
        s.len() > 0 ==> parse(s).0 == seq![Tpl::Text(s)],
        s.len() == 0 ==> parse(s).0 == Seq::<Tpl>::empty(),
{
    assert(s.subrange(0, s.len() as int) =~= s);
    assert(Seq::<Tpl>::empty() + seq![Tpl::Text(s)] =~= seq![Tpl::Text(s)]);
    assert(Seq::<Tpl>::empty() + Seq::<Tpl>::empty() =~= Seq::<Tpl>::empty());
}

} // verus!

verus! {

/// The name of a view: a file name ending in `.html`, without it.
pub open spec fn view_stem(name: Seq<u8>) -> Option<Seq<u8>> {
    if name.len() > 5 && name.subrange(name.len() - 5, name.len() as int) == seq![46u8, 104u8, 116u8, 109u8, 108u8] {
        Some(name.subrange(0, name.len() - 5))
    } else {
        None
    }
}

impl Html {
    /// A template file: its key (the hash of its name without `.html`) and
    /// its nodes; `None` for a file that is not a view or a template that
    /// does not read to its end.
    pub fn template(file_name: &str, text: &str) -> (res: Option<(i64, Vec<Node>)>)
        ensures
            match view_stem(file_name.spec_bytes()) {
                None => res is None,
                Some(stem) => match parse(text.spec_bytes()) {
                    (nodes, Cond::End) => res matches Some((k, v)) && k == spec_fnv1a_64(stem) && nodes_view(v@)
                        == nodes,
                    _ => res is None,
                },
            },
    {
        let b = file_name.as_bytes();
        let n = b.len();
        if n <= 5 || b[n - 5] != 46u8 || b[n - 4] != 104u8 || b[n - 3] != 116u8 || b[n - 2] != 109u8 || b[n - 1]
            != 108u8 {
            proof {
                if n > 5 {
                    let t = b@.subrange(n - 5, n as int);
                    if t == seq![46u8, 104u8, 116u8, 109u8, 108u8] {
                        assert(t[0] == b@[n - 5]);
                        assert(t[1] == b@[n - 4]);
                        assert(t[2] == b@[n - 3]);
                        assert(t[3] == b@[n - 2]);
                        assert(t[4] == b@[n - 1]);
                    }
                }
            }
            return None;
        }
        assert(b@.subrange(n - 5, n as int) =~= seq![46u8, 104u8, 116u8, 109u8, 108u8]);
        let key = fnv1a_64(&b[0..n - 5]);
        let mut v: Vec<Node> = Vec::new();
        assert(nodes_view(v@) =~= Seq::<Tpl>::empty());
        match get_view(text, &mut v) {
            ConditionNode::End => {
                assert(nodes_view(v@) =~= parse(text.spec_bytes()).0);
                Some((key, v))
            },
            _ => None,
        }
    }
}

} // verus!

verus! {

/// A template file: its name and its text.
pub type ViewFile = (String, String);

/// A class directory: its name and its template files.
pub type ClassDir = (String, Vec<ViewFile>);

/// A module directory: its name and its class directories.
pub type ModuleDir = (String, Vec<ClassDir>);

/// What a template file gives: its key and nodes, when it is a view whose
/// template reads to its end (see `Html::template`).
pub open spec fn file_view(f: ViewFile) -> Option<(i64, Seq<Tpl>)> {
    match view_stem(encode_utf8(f.0@)) {
        None => None,
        Some(stem) => match parse(encode_utf8(f.1@)) {
            (nodes, Cond::End) => Some((spec_fnv1a_64(stem), nodes)),
            _ => None,
        },
    }
}

/// The nodes of the last file of `files` that gives a template with key `k`.
pub open spec fn last_view(files: Seq<ViewFile>, k: i64) -> Option<Seq<Tpl>>
    decreases files.len(),
{
    if files.len() == 0 {
        None
    } else {
        match file_view(files.last()) {
            Some(p) => if p.0 == k {
                Some(p.1)
            } else {
                last_view(files.drop_last(), k)
            },
            None => last_view(files.drop_last(), k),
        }
    }
}

/// The files of the last class directory whose name hashes to `h`.
pub open spec fn last_class(classes: Seq<ClassDir>, h: i64) -> Option<Seq<ViewFile>>
    decreases classes.len(),
{
    if classes.len() == 0 {
        None
    } else if spec_fnv1a_64(encode_utf8(classes.last().0@)) == h {
        Some(classes.last().1@)
    } else {
        last_class(classes.drop_last(), h)
    }
}

/// The classes of the last module directory whose name hashes to `h`.
pub open spec fn last_module(modules: Seq<ModuleDir>, h: i64) -> Option<Seq<ClassDir>>
    decreases modules.len(),
{
    if modules.len() == 0 {
        None
    } else if spec_fnv1a_64(encode_utf8(modules.last().0@)) == h {
        Some(modules.last().1@)
    } else {
        last_module(modules.drop_last(), h)
    }
}

/// The templates of a class are those its files give, the last file
/// winning for a key.
pub open spec fn class_matches(m: Map<i64, Vec<Node>>, files: Seq<ViewFile>) -> bool {
    forall|k: i64| #![trigger m.contains_key(k)] #![trigger last_view(files, k)]
        (m.contains_key(k) == last_view(files, k) is Some) && (m.contains_key(k) ==> nodes_view(m[k]@)
            == last_view(files, k)->0)
}

/// The classes of a module are its class directories, the last one
/// winning for a name.
pub open spec fn module_matches(m: Map<i64, Arc<BTreeMap<i64, Vec<Node>>>>, classes: Seq<ClassDir>) -> bool {
    forall|h: i64| #![trigger m.contains_key(h)] #![trigger last_class(classes, h)]
        (m.contains_key(h) == last_class(classes, h) is Some) && (m.contains_key(h) ==> class_matches(
            m[h]@,
            last_class(classes, h)->0,
        ))
}

fn class_templates(files: &Vec<ViewFile>) -> (res: BTreeMap<i64, Vec<Node>>)
    ensures
        class_matches(res@, files@),
{
    let mut l: BTreeMap<i64, Vec<Node>> = BTreeMap::new();
    let mut i: usize = 0;
    while i < files.len()
        invariant
            i <= files@.len(),
            class_matches(l@, files@.subrange(0, i as int)),
        decreases files@.len() - i,
    {
        assert(files@.subrange(0, i + 1).drop_last() =~= files@.subrange(0, i as int));
        match Html::template(files[i].0.as_str(), files[i].1.as_str()) {
            Some((k, v)) => {
                l.insert(k, v);
            },
            None => {},
        }
        i = i + 1;
    }
    assert(files@.subrange(0, files@.len() as int) =~= files@);
    l
}

fn module_classes(classes: &Vec<ClassDir>) -> (res: BTreeMap<i64, Arc<BTreeMap<i64, Vec<Node>>>>)
    ensures
        module_matches(res@, classes@),
{
    let mut ls: BTreeMap<i64, Arc<BTreeMap<i64, Vec<Node>>>> = BTreeMap::new();
    let mut i: usize = 0;
    while i < classes.len()
        invariant
            i <= classes@.len(),
            module_matches(ls@, classes@.subrange(0, i as int)),
        decreases classes@.len() - i,
    {
        assert(classes@.subrange(0, i + 1).drop_last() =~= classes@.subrange(0, i as int));
        let l = class_templates(&classes[i].1);
        ls.insert(fnv1a_64(classes[i].0.as_str().as_bytes()), Arc::new(l));
        i = i + 1;
    }
    assert(classes@.subrange(0, classes@.len() as int) =~= classes@);
    ls
}

impl Html {
    /// Whether a file is a view: its name ends in `.html` after at least
    /// one character.
    pub fn is_view(file_name: &str) -> (res: bool)
        ensures
            res == view_stem(file_name.spec_bytes()) is Some,
    {
        let b = file_name.as_bytes();
        let n = b.len();
        if n <= 5 {
            return false;
        }
        let r = b[n - 5] == 46u8 && b[n - 4] == 104u8 && b[n - 3] == 116u8 && b[n - 2] == 109u8 && b[n - 1] == 108u8;
        proof {
            let t = b@.subrange(n - 5, n as int);
            if t == seq![46u8, 104u8, 116u8, 109u8, 108u8] {
                assert(t[0] == b@[n - 5]);
                assert(t[1] == b@[n - 4]);
                assert(t[2] == b@[n - 3]);
                assert(t[3] == b@[n - 2]);
                assert(t[4] == b@[n - 1]);
            }
            if r {
                assert(t =~= seq![46u8, 104u8, 116u8, 109u8, 108u8]);
            }
        }
        r
    }

    /// The templates of a class, when its module and class are listed.
    pub fn class_views(&self, module_id: i64, class_id: i64) -> (res: Option<BTreeMap<i64, Vec<Node>>>)
        ensures
            if self.list@.contains_key(module_id) && self.list@[module_id]@.contains_key(class_id) {
                res matches Some(m) && m@ == self.list@[module_id]@[class_id]@
            } else {
                res is None
            },
    {
        match self.list.get(&module_id) {
            Some(m) => match m.get(&class_id) {
                Some(c) => Some((**c).clone()),
                None => None,
            },
            None => None,
        }
    }

    /// The templates of the application's directories: under each module's
    /// name hash, each of its classes' name hash, with the templates of its
    /// files by key; a later directory or file wins over an earlier one of
    /// the same hash. Every class directory is listed, with or without
    /// templates.
    pub fn new(modules: &Vec<ModuleDir>) -> (res: Html)
        ensures
            forall|h: i64| #![trigger res.list@.contains_key(h)] #![trigger last_module(modules@, h)]
                (res.list@.contains_key(h) == last_module(modules@, h) is Some) && (res.list@.contains_key(h)
                    ==> module_matches(res.list@[h]@, last_module(modules@, h)->0)),
    {
        let mut list: BTreeMap<i64, BTreeMap<i64, Arc<BTreeMap<i64, Vec<Node>>>>> = BTreeMap::new();
        let mut i: usize = 0;
        while i < modules.len()
            invariant
                i <= modules@.len(),
                forall|h: i64| #![trigger list@.contains_key(h)] #![trigger last_module(modules@.subrange(0, i as int), h)]
                    (list@.contains_key(h) == last_module(modules@.subrange(0, i as int), h) is Some) && (
                    list@.contains_key(h) ==> module_matches(list@[h]@, last_module(modules@.subrange(0, i as int), h)->0)),
            decreases modules@.len() - i,
        {
            assert(modules@.subrange(0, i + 1).drop_last() =~= modules@.subrange(0, i as int));
            let ls = module_classes(&modules[i].1);
            list.insert(fnv1a_64(modules[i].0.as_str().as_bytes()), ls);
            i = i + 1;
        }
        assert(modules@.subrange(0, modules@.len() as int) =~= modules@);
        Html { list }
    }
}


/// The nodes a controller holds under the key `k` for the module `mh` and
/// class `ch` of the application's directories: those of the last template
/// file that gives one, in the last directories of those names.
pub open spec fn dir_view(modules: Seq<ModuleDir>, mh: i64, ch: i64, k: i64) -> Option<Seq<Tpl>> {
    match last_module(modules, mh) {
        Some(cs) => match last_class(cs, ch) {
            Some(fs) => last_view(fs, k),
            None => None,
        },
        None => None,
    }
}

/// A controller given the templates of a class (as `Html::class_views`
/// gives them) of the application's directories (as `Html::new` reads them)
/// holds a template under a key exactly when a file of that class gives
/// one, and its nodes are those of the last such file.
pub proof fn law_loaded_template_seen(
    html: Html,
    modules: Seq<ModuleDir>,
    mh: i64,
    ch: i64,
    views: Option<BTreeMap<i64, Vec<Node>>>,
    k: i64,
)
    requires
        forall|h: i64| #![trigger html.list@.contains_key(h)] #![trigger last_module(modules, h)]
            (html.list@.contains_key(h) == last_module(modules, h) is Some) && (html.list@.contains_key(h)
                ==> module_matches(html.list@[h]@, last_module(modules, h)->0)),
        if html.list@.contains_key(mh) && html.list@[mh]@.contains_key(ch) {
            views matches Some(m) && m@ == html.list@[mh]@[ch]@
        } else {
            views is None
        },
    ensures
        has_template(views, k) == dir_view(modules, mh, ch, k) is Some,
        has_template(views, k) ==> nodes_view(template_nodes(views, k)) == dir_view(modules, mh, ch, k)->0,
{
    if html.list@.contains_key(mh) {
        let cs = last_module(modules, mh)->0;
        assert(module_matches(html.list@[mh]@, cs));
        if html.list@[mh]@.contains_key(ch) {
            assert(last_class(cs, ch) is Some);
            assert(class_matches(html.list@[mh]@[ch]@, last_class(cs, ch)->0));
            assert(html.list@[mh]@[ch]@.contains_key(k) == last_view(last_class(cs, ch)->0, k) is Some);
        } else {
            assert(last_class(cs, ch) is None);
        }
    } else {
        assert(last_module(modules, mh) is None);
    }
}

} // verus!

//! The protocol description document, as plain values: named elements with
//! attributes, nested elements and text.
//!
//! The parser works on this tree; whatever markup reader produced it stays
//! outside the library and only converts.

use vstd::prelude::*;
use vstd::string::StringSliceAdditionalSpecFns;

verus! {

/// One child of an element.
#[derive(Debug)]
pub enum DocNode {
    /// A nested element.
    Element(DocElement),
    /// A run of character data.
    Text(String),
    /// Anything else the document may carry (a comment, an instruction);
    /// ignored by design.
    Other,
}

/// One element: a name, ordered attributes, ordered children.
#[derive(Debug)]
pub struct DocElement {
    /// The element's name.
    pub name: String,
    /// The attributes, in document order.
    pub attributes: Vec<(String, String)>,
    /// The children, in document order.
    pub children: Vec<DocNode>,
}

/// The value of the first attribute with the given name, if any.
pub open spec fn spec_attr(attrs: Seq<(String, String)>, name: Seq<char>) -> Option<Seq<char>>
    decreases attrs.len(),
{
    if attrs.len() == 0 {
        None
    } else if attrs.first().0@ == name {
        Some(attrs.first().1@)
    } else {
        spec_attr(attrs.drop_first(), name)
    }
}

/// Compares two strings by value.
pub fn str_equal(a: &str, b: &str) -> (r: bool)
    ensures
        r <==> a@ == b@,
{
    let ab = a.as_bytes();
    let bb = b.as_bytes();
    if ab.len() != bb.len() {
        proof {
            lemma_str_bytes_injective(a, b);
        }
        return false;
    }
    let mut i: usize = 0;
    while i < ab.len()
        invariant
            0 <= i <= ab@.len(),
            ab@.len() == bb@.len(),
            ab@ == a.spec_bytes(),
            bb@ == b.spec_bytes(),
            forall|j: int| 0 <= j < i ==> ab@[j] == bb@[j],
        decreases ab@.len() - i,
    {
        if ab[i] != bb[i] {
            proof {
                lemma_str_bytes_injective(a, b);
            }
            return false;
        }
        i += 1;
    }
    proof {
        assert(a.spec_bytes() =~= b.spec_bytes());
        lemma_str_bytes_injective(a, b);
    }
    true
}

/// Two strings are equal exactly when their UTF-8 bytes are.
proof fn lemma_str_bytes_injective(a: &str, b: &str)
    ensures
        a.spec_bytes() == b.spec_bytes() <==> a@ == b@,
{
    if a.spec_bytes() == b.spec_bytes() {
        broadcast use vstd::utf8::encode_utf8_valid_utf8;

        vstd::utf8::encode_utf8_decode_utf8(a@);
        vstd::utf8::encode_utf8_decode_utf8(b@);
    }
}

impl DocElement {
    /// The value of the first attribute with the given name, if any.
    pub fn attribute_value(&self, name: &str) -> (r: Option<&String>)
        ensures
            match r {
                Some(v) => spec_attr(self.attributes@, name@) == Some(v@),
                None => spec_attr(self.attributes@, name@) is None,
            },
    {
        proof {
            assert(self.attributes@.skip(0) =~= self.attributes@);
        }
        let mut i: usize = 0;
        while i < self.attributes.len()
            invariant
                0 <= i <= self.attributes@.len(),
                spec_attr(self.attributes@, name@) == spec_attr(
                    self.attributes@.skip(i as int),
                    name@,
                ),
            decreases self.attributes@.len() - i,
        {
            proof {
                assert(self.attributes@.skip(i as int).first() == self.attributes@[i as int]);
                assert(self.attributes@.skip(i as int).drop_first() =~= self.attributes@.skip(
                    i + 1,
                ));
            }
            if str_equal(self.attributes[i].0.as_str(), name) {
                return Some(&self.attributes[i].1);
            }
            i += 1;
        }
        proof {
            assert(self.attributes@.skip(self.attributes@.len() as int).len() == 0);
        }
        None
    }

    /// Whether this element's name is the given one.
    pub fn is_named(&self, name: &str) -> (r: bool)
        ensures
            r <==> self.name@ == name@,
    {
        str_equal(self.name.as_str(), name)
    }
}

/// The character data under a sequence of nodes, in order, elements
/// traversed recursively, comments and instructions skipped.
pub open spec fn spec_text_of_children(children: Seq<DocNode>) -> Seq<char>
    decreases children, children.len(),
{
    if children.len() == 0 {
        Seq::empty()
    } else {
        spec_text_of_children(children.drop_last()) + spec_text_of_node(children.last())
    }
}

/// The character data under one node.
pub open spec fn spec_text_of_node(node: DocNode) -> Seq<char>
    decreases node,
{
    match node {
        DocNode::Element(e) => spec_text_of_children(e.children@),
        DocNode::Text(t) => t@,
        DocNode::Other => Seq::empty(),
    }
}

/// Appends the character data under `elem` to `out`.
fn collect_text_recurse(elem: &DocElement, out: &mut String)
    ensures
        final(out)@ == old(out)@ + spec_text_of_children(elem.children@),
    decreases *elem,
{
    let ghost orig = out@;
    let mut i: usize = 0;
    while i < elem.children.len()
        invariant
            0 <= i <= elem.children@.len(),
            out@ == orig + spec_text_of_children(elem.children@.take(i as int)),
        decreases elem.children@.len() - i,
    {
        proof {
            assert(elem.children@.take(i + 1).drop_last() =~= elem.children@.take(i as int));
            assert(elem.children@.take(i + 1).last() == elem.children@[i as int]);
        }
        let node = &elem.children[i];
        proof {
            assert(*node == elem.children@[i as int]);
        }
        match node {
            DocNode::Element(child_elem) => {
                collect_text_recurse(child_elem, out);
                proof {
                    assert(spec_text_of_node(elem.children@[i as int])
                        == spec_text_of_children(child_elem.children@));
                }
            },
            DocNode::Text(text) => {
                out.append(text.as_str());
                proof {
                    assert(spec_text_of_node(elem.children@[i as int]) == text@);
                }
            },
            DocNode::Other => {},
        }
        proof {
            assert(elem.children@.take(i + 1).len() == i + 1);
            assert(spec_text_of_children(elem.children@.take(i + 1)) == spec_text_of_children(
                elem.children@.take(i + 1).drop_last(),
            ) + spec_text_of_node(elem.children@.take(i + 1).last()));
            assert(spec_text_of_children(elem.children@.take(i + 1)) == spec_text_of_children(
                elem.children@.take(i as int),
            ) + spec_text_of_node(elem.children@[i as int]));
            assert(out@ =~= orig + spec_text_of_children(elem.children@.take(i + 1)));
        }
        i += 1;
    }
    proof {
        assert(elem.children@.take(elem.children@.len() as int) =~= elem.children@);
    }
}

/// The character data under `elem`, in document order.
pub fn collect_text(elem: &DocElement) -> (r: String)
    ensures
        r@ == spec_text_of_children(elem.children@),
{
    let mut ret = String::new();
    collect_text_recurse(elem, &mut ret);
    ret
}

} // verus!

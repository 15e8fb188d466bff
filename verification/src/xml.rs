//! The template XML, reduced to a plain tree.
//!
//! The XML parser hands over a tree of elements — tag name, attributes,
//! child elements — and the template compiler works on that tree alone.
use vstd::prelude::*;

use crate::bytesutil::str_eq;
use crate::errors::Error;

verus! {

/// One XML element: its tag name, attributes in document order, and child
/// elements in document order.
pub struct XmlElement {
    pub name: String,
    pub attributes: Vec<(String, String)>,
    pub children: Vec<XmlElement>,
}

#[verifier::external_type_specification]
#[verifier::external_body]
pub struct ExXmlNode<'a, 'input: 'a>(roxmltree::Node<'a, 'input>);

/// How deep an element tree may nest.  The conversion below recurses once
/// per level, and roxmltree itself puts no bound on element nesting, so a
/// deeply nested document would otherwise overflow the stack.
pub const MAX_XML_DEPTH: u32 = 256;

/// Convert one parsed element and its subtree into the plain form, down to
/// the given remaining depth.
///
/// Relies on roxmltree::Node: `tag_name().name()` is the local tag name,
/// `attributes()` the attributes in document order, `children()` the child
/// nodes in document order, of which the elements are kept.
#[verifier::external_body]
fn node_to_element(n: roxmltree::Node, depth: u32) -> Result<XmlElement, Error> {
    if depth == 0 {
        return Err(Error::Static("template XML nests too deeply".to_string()));
    }
    Ok(XmlElement {
        name: n.tag_name().name().to_string(),
        attributes: n.attributes().map(|a| (a.name().to_string(), a.value().to_string())).collect(),
        children: n.children().filter(|c| c.is_element()).map(
            |c| node_to_element(c, depth - 1),
        ).collect::<Result<Vec<XmlElement>, Error>>()?,
    })
}

/// Whether the text is a well-formed XML document within the conversion's
/// depth bound — a function of the text alone.
pub uninterp spec fn xml_parses(text: Seq<char>) -> bool;

/// Parse an XML document into its root element; a document nesting deeper
/// than [`MAX_XML_DEPTH`] is refused as a static error.
///
/// Relies on roxmltree::Document::parse, which accepts exactly the
/// well-formed XML documents and is deterministic in its input; what the
/// returned tree holds is checked downstream by the template compiler.
#[verifier::external_body]
pub fn parse_xml(text: &str) -> (r: Result<XmlElement, Error>)
    ensures
        r is Ok <==> xml_parses(text@),
        r matches Err(e) ==> e is Static,
{
    match roxmltree::Document::parse(text) {
        Ok(doc) => node_to_element(doc.root_element(), MAX_XML_DEPTH),
        Err(e) => Err(Error::Static(e.to_string())),
    }
}

/// The value of the first attribute with the given name.
pub open spec fn spec_find_attr(attrs: Seq<(String, String)>, name: Seq<char>) -> Option<Seq<char>>
    decreases attrs.len(),
{
    if attrs.len() == 0 {
        None
    } else if attrs[0].0@ == name {
        Some(attrs[0].1@)
    } else {
        spec_find_attr(attrs.skip(1), name)
    }
}

impl XmlElement {
    /// Look an attribute up by name.
    pub fn attribute<'x>(&'x self, name: &str) -> (r: Option<&'x String>)
        ensures
            match r {
                Some(v) => spec_find_attr(self.attributes@, name@) == Some(v@),
                None => spec_find_attr(self.attributes@, name@) is None,
            },
    {
        let mut i: usize = 0;
        proof {
            assert(self.attributes@.skip(0) =~= self.attributes@);
        }
        while i < self.attributes.len()
            invariant
                i <= self.attributes@.len(),
                spec_find_attr(self.attributes@, name@) == spec_find_attr(
                    self.attributes@.skip(i as int),
                    name@,
                ),
            decreases self.attributes@.len() - i,
        {
            if str_eq(self.attributes[i].0.as_str(), name) {
                proof {
                    assert(self.attributes@.skip(i as int)[0] == self.attributes@[i as int]);
                }
                return Some(&self.attributes[i].1);
            }
            proof {
                assert(self.attributes@.skip(i as int)[0] == self.attributes@[i as int]);
                assert(self.attributes@.skip(i as int).skip(1) =~= self.attributes@.skip(i + 1));
            }
            i = i + 1;
        }
        proof {
            assert(self.attributes@.skip(i as int).len() == 0);
        }
        None
    }
}

} // verus!

//! The program file: an XML document whose root holds one element for each
//! command of the session.
use crate::text::str_eq;
use vstd::prelude::*;

verus! {

/// An element: its name without any namespace, and its attributes in the order of
/// the document.
pub struct XmlElement {
    pub name: String,
    pub attributes: Vec<(String, String)>,
}

/// A child of the root: an element, or something else, such as a comment or text.
pub enum XmlNode {
    Element(XmlElement),
    Other,
}

/// What an element holds.
pub struct ElementModel {
    pub name: Seq<char>,
    pub attributes: Seq<(Seq<char>, Seq<char>)>,
}

impl View for XmlElement {
    type V = ElementModel;

    open spec fn view(&self) -> ElementModel {
        ElementModel { name: self.name@, attributes: attribute_models(self.attributes@) }
    }
}

impl View for XmlNode {
    type V = Option<ElementModel>;

    open spec fn view(&self) -> Option<ElementModel> {
        match self {
            XmlNode::Element(element) => Some(element@),
            XmlNode::Other => None,
        }
    }
}

/// The names and values of attributes.
pub open spec fn attribute_models(attributes: Seq<(String, String)>) -> Seq<
    (Seq<char>, Seq<char>),
> {
    attributes.map_values(|a: (String, String)| (a.0@, a.1@))
}

/// The elements among nodes, each in its place.
pub open spec fn node_models(nodes: Seq<XmlNode>) -> Seq<Option<ElementModel>> {
    nodes.map_values(|node: XmlNode| node@)
}

/// The nodes of a document that could be parsed.
pub open spec fn parsed_models(res: Result<Vec<XmlNode>, xmltree::ParseError>) -> Option<
    Seq<Option<ElementModel>>,
> {
    match res {
        Ok(nodes) => Some(node_models(nodes@)),
        Err(_) => None,
    }
}

/// The children of the first root of the XML document `document`, in order, or
/// nothing where `document` is no XML document that can be parsed.
pub uninterp spec fn xml_root_children(document: Seq<u8>) -> Option<Seq<Option<ElementModel>>>;

/// The reason why `xmltree` could not parse a document, carried through and never
/// looked into.
#[verifier::external_type_specification]
#[verifier::external_body]
pub struct ExParseError(xmltree::ParseError);

/// `Element::parse` of the `xmltree` crate, with its feature `attribute-order`: it
/// parses a document, or says why it cannot, as the bytes of the document alone
/// determine. Of the root that it returns, the first one of the document, the
/// children are kept: of an element its name and its attributes, which that
/// feature leaves in the order of the document.
///
/// Not stated are what the grammar of XML makes of given bytes, and which reason
/// is given for a failure. The crate parses nested elements by recursion, so a
/// document nested deeper than the stack allows ends the process.
#[verifier::external_body]
fn parse_document(document: &[u8]) -> (res: Result<Vec<XmlNode>, xmltree::ParseError>)
    ensures
        parsed_models(res) == xml_root_children(document@),
{
    let root = xmltree::Element::parse(document)?;
    let nodes = root.children.into_iter().map(|node| match node {
        xmltree::XMLNode::Element(e) => XmlNode::Element(
            XmlElement { name: e.name, attributes: e.attributes.into_iter().collect() },
        ),
        xmltree::XMLNode::Comment(_) => XmlNode::Other,
        xmltree::XMLNode::CData(_) => XmlNode::Other,
        xmltree::XMLNode::Text(_) => XmlNode::Other,
        xmltree::XMLNode::ProcessingInstruction(_, _) => XmlNode::Other,
    });
    Ok(nodes.collect())
}

/// Why a program file cannot be used.
pub enum ProgramError {
    /// It is no XML document that can be parsed.
    Xml(xmltree::ParseError),
}

/// The children of the root of the program file `document`.
pub fn parse_program(document: &[u8]) -> (res: Result<Vec<XmlNode>, ProgramError>)
    ensures
        match res {
            Ok(nodes) => xml_root_children(document@) == Some(node_models(nodes@)),
            Err(ProgramError::Xml(_)) => xml_root_children(document@) is None,
        },
{
    match parse_document(document) {
        Ok(nodes) => Ok(nodes),
        Err(e) => Err(ProgramError::Xml(e)),
    }
}

/// The value of the first attribute called `name`, if there is one.
pub open spec fn attribute(attributes: Seq<(Seq<char>, Seq<char>)>, name: Seq<char>) -> Option<
    Seq<char>,
>
    decreases attributes.len(),
{
    if attributes.len() == 0 {
        None
    } else if attributes[0].0 == name {
        Some(attributes[0].1)
    } else {
        attribute(attributes.drop_first(), name)
    }
}

/// What an element and a node hold, by their parts.
pub proof fn law_node_models(nodes: Seq<XmlNode>, i: int, k: int)
    requires
        0 <= i < nodes.len(),
    ensures
        node_models(nodes).len() == nodes.len(),
        nodes[i] is Other ==> node_models(nodes)[i] is None,
        nodes[i] matches XmlNode::Element(element) ==> {
            &&& node_models(nodes)[i] matches Some(model)
            &&& model.name == element.name@
            &&& model.attributes.len() == element.attributes@.len()
            &&& 0 <= k < element.attributes@.len() ==> model.attributes[k] == (
                element.attributes@[k].0@,
                element.attributes@[k].1@,
            )
        },
{
}

/// An attribute is found by its name: the first of that name, and only where there
/// is one.
pub proof fn law_attribute(attributes: Seq<(Seq<char>, Seq<char>)>, name: Seq<char>, k: int)
    ensures
        0 <= k < attributes.len() && attributes[k].0 == name && (forall|j: int|
            0 <= j < k ==> (#[trigger] attributes[j]).0 != name) ==> attribute(attributes, name)
            == Some(attributes[k].1),
        (forall|j: int| 0 <= j < attributes.len() ==> (#[trigger] attributes[j]).0 != name)
            ==> attribute(attributes, name) is None,
    decreases attributes.len(),
{
    if attributes.len() > 0 {
        let left = attributes.drop_first();
        law_attribute(left, name, k - 1);
        assert(forall|j: int| 0 <= j < left.len() ==> left[j] == attributes[j + 1]);
        if attributes[0].0 != name {
            if 0 <= k < attributes.len() && attributes[k].0 == name && (forall|j: int|
                0 <= j < k ==> (#[trigger] attributes[j]).0 != name) {
                assert forall|j: int| 0 <= j < k - 1 implies (#[trigger] left[j]).0 != name by {
                    assert(attributes[j + 1].0 != name);
                }
            }
            if forall|j: int| 0 <= j < attributes.len() ==> (#[trigger] attributes[j]).0 != name {
                assert forall|j: int| 0 <= j < left.len() implies (#[trigger] left[j]).0
                    != name by {
                    assert(attributes[j + 1].0 != name);
                }
            }
        }
    }
}

/// The file of an element is the value of its first attribute called `filename`,
/// whatever other attributes it has.
pub proof fn law_file(element: ElementModel, k: int)
    requires
        0 <= k < element.attributes.len(),
        element.attributes[k].0 == "filename"@,
        forall|j: int| 0 <= j < k ==> (#[trigger] element.attributes[j]).0 != "filename"@,
    ensures
        element.attributes[k].1.len() > 0 ==> element.file() == Some(element.attributes[k].1),
        element.attributes[k].1.len() == 0 ==> element.file() is None,
{
    law_attribute(element.attributes, "filename"@, k);
}

/// An element without an attribute called `filename` has no file.
pub proof fn law_no_file(element: ElementModel)
    requires
        forall|j: int|
            0 <= j < element.attributes.len() ==> (#[trigger] element.attributes[j]).0
                != "filename"@,
    ensures
        element.file() is None,
{
    law_attribute(element.attributes, "filename"@, 0);
}

impl ElementModel {
    /// The name of the file whose contents the element's command sends, if it
    /// names one.
    pub open spec fn file(self) -> Option<Seq<char>> {
        match attribute(self.attributes, "filename"@) {
            Some(filename) => if filename.len() == 0 {
                None
            } else {
                Some(filename)
            },
            None => None,
        }
    }
}

impl XmlElement {
    /// The value of the first attribute called `name`, if there is one.
    pub fn attribute(&self, name: &str) -> (value: Option<&str>)
        ensures
            match value {
                Some(value) => attribute(self@.attributes, name@) == Some(value@),
                None => attribute(self@.attributes, name@) is None,
            },
    {
        let mut i: usize = 0;
        let ghost models = self@.attributes;
        assert(models.skip(0) =~= models);
        while i < self.attributes.len()
            invariant
                i <= self.attributes@.len(),
                models == self@.attributes,
                attribute(models.skip(i as int), name@) == attribute(models, name@),
            decreases self.attributes@.len() - i,
        {
            if str_eq(self.attributes[i].0.as_str(), name) {
                return Some(self.attributes[i].1.as_str());
            }
            assert(models.skip(i as int).drop_first() =~= models.skip(i + 1));
            i = i + 1;
        }
        None
    }

    /// The name of the file whose contents the element's command sends, if it
    /// names one.
    pub fn file(&self) -> (filename: Option<&str>)
        ensures
            match filename {
                Some(filename) => self@.file() == Some(filename@),
                None => self@.file() is None,
            },
    {
        match self.attribute("filename") {
            Some(filename) => if filename.is_empty() {
                None
            } else {
                Some(filename)
            },
            None => None,
        }
    }
}

} // verus!

//! The disc title, from the disc-info metadata (`bdmt_eng.xml`).

use vstd::prelude::*;
use vstd::string::*;

use crate::text::{eq_ignore_ascii_case, same, same_text, text_view};

verus! {

/// The longest text whose byte positions fit the 32 bits that the XML parser keeps.
pub const MAX_XML_CHARS: usize = 0x3FFF_FFFF;

/// One node of an XML document. A node's number is its place in document order; the
/// document itself is the first.
#[derive(Debug)]
pub struct XmlNode {
    /// The number of the parent node; the document has none.
    pub parent: Option<usize>,
    /// Whether the node is an element.
    pub is_element: bool,
    /// Whether the node is a text.
    pub is_text: bool,
    /// The namespace of an element's name, where it has one.
    pub namespace: Option<String>,
    /// The local part of an element's name.
    pub name: String,
    /// The node's text: that of a text or a comment, and of an element that of its first
    /// child, where that is a text.
    pub text: Option<String>,
}

/// What an [`XmlNode`] holds.
pub struct XmlNodeView {
    pub parent: Option<usize>,
    pub is_element: bool,
    pub is_text: bool,
    pub namespace: Option<Seq<char>>,
    pub name: Seq<char>,
    pub text: Option<Seq<char>>,
}

impl View for XmlNode {
    type V = XmlNodeView;

    open spec fn view(&self) -> XmlNodeView {
        XmlNodeView {
            parent: self.parent,
            is_element: self.is_element,
            is_text: self.is_text,
            namespace: text_view(self.namespace),
            name: self.name@,
            text: text_view(self.text),
        }
    }
}

/// The views of a document's nodes.
pub open spec fn document_view(doc: Option<Vec<XmlNode>>) -> Option<Seq<XmlNodeView>> {
    match doc {
        Some(nodes) => Some(nodes@.map_values(|n: XmlNode| n@)),
        None => None,
    }
}

/// The nodes that `roxmltree::Document::parse` finds in a text, in document order; `None`
/// for a text that it does not take.
pub uninterp spec fn xml_nodes(xml: Seq<char>) -> Option<Seq<XmlNodeView>>;

/// Parses a document with `roxmltree::Document::parse` and gives its nodes, every one of
/// them once, in the order of `Document::descendants`, in which a node's position is its
/// `NodeId`. What the parser makes of a text is a function of the text alone.
#[verifier::external_body]
fn parse_document(xml: &str) -> (r: Option<Vec<XmlNode>>)
    requires
        xml@.len() <= MAX_XML_CHARS,
    ensures
        document_view(r) == xml_nodes(xml@),
{
    let doc = roxmltree::Document::parse(xml).ok()?;
    let mut nodes = Vec::new();
    for n in doc.descendants() {
        nodes.push(XmlNode {
            parent: n.parent().map(|p| p.id().get_usize()),
            is_element: n.is_element(),
            is_text: n.is_text(),
            namespace: n.tag_name().namespace().map(str::to_owned),
            name: n.tag_name().name().to_owned(),
            text: n.text().map(str::to_owned),
        });
    }
    Some(nodes)
}

/// The text that `String::from_utf8_lossy` makes of bytes.
pub uninterp spec fn lossy_text(bytes: Seq<u8>) -> Seq<char>;

/// Decodes bytes with `String::from_utf8_lossy`: a function of the bytes alone.
#[verifier::external_body]
fn decode_lossy(bytes: &[u8]) -> (r: String)
    ensures
        r@ == lossy_text(bytes@),
{
    String::from_utf8_lossy(bytes).into_owned()
}

/// The namespace of the disc-info elements.
pub open spec fn discinfo_namespace() -> Seq<char> {
    "urn:BDA:bdmv;discinfo"@
}

/// The first element from the `i`th node on whose parent is the node `parent`.
pub open spec fn first_element(nodes: Seq<XmlNodeView>, parent: usize, i: int) -> Option<int>
    decreases nodes.len() - i,
{
    if i < 0 || i >= nodes.len() {
        None
    } else if nodes[i].parent == Some(parent) && nodes[i].is_element {
        Some(i)
    } else {
        first_element(nodes, parent, i + 1)
    }
}

/// Whether a node is a child of the node `parent` and a disc-info element called `name`.
pub open spec fn is_named_child(n: XmlNodeView, parent: usize, name: Seq<char>) -> bool {
    n.parent == Some(parent) && n.is_element && n.namespace == Some(discinfo_namespace())
        && n.name == name
}

/// The first child of the node `parent`, from the `i`th node on, that is a disc-info
/// element called `name`.
pub open spec fn named_child(nodes: Seq<XmlNodeView>, parent: usize, name: Seq<char>, i: int) -> Option<
    int,
>
    decreases nodes.len() - i,
{
    if i < 0 || i >= nodes.len() {
        None
    } else if is_named_child(nodes[i], parent, name) {
        Some(i)
    } else {
        named_child(nodes, parent, name, i + 1)
    }
}

/// Whether the `i`th node is the node `top` or lies under it.
pub open spec fn is_under(nodes: Seq<XmlNodeView>, i: int, top: int) -> bool
    decreases i,
{
    if i == top {
        true
    } else if 0 <= i < nodes.len() {
        match nodes[i].parent {
            Some(p) => p < i && is_under(nodes, p as int, top),
            None => false,
        }
    } else {
        false
    }
}

/// The texts under the node `top` among the first `n` nodes, one behind the other.
pub open spec fn text_under(nodes: Seq<XmlNodeView>, top: int, n: int) -> Seq<char>
    decreases n,
{
    if n <= 0 {
        Seq::empty()
    } else {
        let before = text_under(nodes, top, n - 1);
        match nodes[n - 1].text {
            Some(t) => if nodes[n - 1].is_text && is_under(nodes, n - 1, top) {
                before + t
            } else {
                before
            },
            None => before,
        }
    }
}

/// The node of the title: `discinfo/title/name` under the root element, each the first of
/// its name.
pub open spec fn title_node(nodes: Seq<XmlNodeView>) -> Option<int> {
    match first_element(nodes, 0, 0) {
        Some(root) => match named_child(nodes, root as usize, "discinfo"@, 0) {
            Some(info) => match named_child(nodes, info as usize, "title"@, 0) {
                Some(title) => named_child(nodes, title as usize, "name"@, 0),
                None => None,
            },
            None => None,
        },
        None => None,
    }
}

/// The title that a document gives: all the text under the title's node. The placeholder
/// that authoring tools leave is none.
pub open spec fn title_of(nodes: Seq<XmlNodeView>) -> Option<Seq<char>> {
    match title_node(nodes) {
        Some(at) => {
            let title = text_under(nodes, at, nodes.len() as int);
            if same_text(title, "blu-ray"@) {
                None
            } else {
                Some(title)
            }
        },
        None => None,
    }
}

/// A text without the byte-order mark that it may start with.
pub open spec fn without_mark(xml: Seq<char>) -> Seq<char> {
    if xml.len() > 0 && xml[0] == '\u{feff}' {
        xml.subrange(1, xml.len() as int)
    } else {
        xml
    }
}

/// The title that an XML text gives; one that is no document gives none.
pub open spec fn title_in(xml: Seq<char>) -> Option<Seq<char>> {
    match xml_nodes(without_mark(xml)) {
        Some(nodes) => title_of(nodes),
        None => None,
    }
}

/// Whether a node's namespace is that of the disc-info elements.
fn in_discinfo(namespace: &Option<String>) -> (r: bool)
    ensures
        r == (text_view(*namespace) == Some(discinfo_namespace())),
{
    match namespace {
        Some(ns) => same(ns.as_str(), "urn:BDA:bdmv;discinfo"),
        None => false,
    }
}

/// Whether a node's parent is the node `parent`.
fn has_parent(node: &XmlNode, parent: usize) -> (r: bool)
    ensures
        r == (node.parent == Some(parent)),
{
    match node.parent {
        Some(p) => p == parent,
        None => false,
    }
}

/// The first element whose parent is the node `parent`.
fn find_element(nodes: &Vec<XmlNode>, parent: usize) -> (r: Option<usize>)
    ensures
        match first_element(nodes@.map_values(|n: XmlNode| n@), parent, 0) {
            Some(at) => r is Some && r->Some_0 as int == at,
            None => r is None,
        },
{
    let ghost views = nodes@.map_values(|n: XmlNode| n@);
    let mut i: usize = 0;
    while i < nodes.len()
        invariant
            i <= nodes@.len(),
            views == nodes@.map_values(|n: XmlNode| n@),
            first_element(views, parent, i as int) == first_element(views, parent, 0),
        decreases nodes@.len() - i,
    {
        assert(views[i as int] == nodes@[i as int]@);
        if has_parent(&nodes[i], parent) && nodes[i].is_element {
            return Some(i);
        }
        i = i + 1;
    }
    None
}

/// The first child of the node `parent` that is a disc-info element called `name`.
fn find_child(nodes: &Vec<XmlNode>, parent: usize, name: &str) -> (r: Option<usize>)
    ensures
        match named_child(nodes@.map_values(|n: XmlNode| n@), parent, name@, 0) {
            Some(at) => r is Some && r->Some_0 as int == at,
            None => r is None,
        },
{
    let ghost views = nodes@.map_values(|n: XmlNode| n@);
    let mut i: usize = 0;
    while i < nodes.len()
        invariant
            i <= nodes@.len(),
            views == nodes@.map_values(|n: XmlNode| n@),
            named_child(views, parent, name@, i as int) == named_child(views, parent, name@, 0),
        decreases nodes@.len() - i,
    {
        assert(views[i as int] == nodes@[i as int]@);
        if has_parent(&nodes[i], parent) && nodes[i].is_element && in_discinfo(&nodes[i].namespace)
            && same(nodes[i].name.as_str(), name) {
            return Some(i);
        }
        i = i + 1;
    }
    None
}

/// The texts under the node `top`, one behind the other.
fn collect_text(nodes: &Vec<XmlNode>, top: usize) -> (r: String)
    requires
        top < nodes@.len(),
    ensures
        r@ == text_under(nodes@.map_values(|n: XmlNode| n@), top as int, nodes@.len() as int),
{
    let ghost views = nodes@.map_values(|n: XmlNode| n@);
    let mut under: Vec<bool> = Vec::new();
    let mut out = String::new();
    let mut i: usize = 0;
    while i < nodes.len()
        invariant
            i <= nodes@.len(),
            views == nodes@.map_values(|n: XmlNode| n@),
            under@.len() == i,
            forall|k: int| 0 <= k < i ==> #[trigger] under@[k] == is_under(views, k, top as int),
            out@ == text_under(views, top as int, i as int),
        decreases nodes@.len() - i,
    {
        assert(views[i as int] == nodes@[i as int]@);
        let inside = i == top || match nodes[i].parent {
            Some(p) => p < i && under[p],
            None => false,
        };
        under.push(inside);
        if nodes[i].is_text && inside {
            if let Some(t) = &nodes[i].text {
                out.append(t.as_str());
            }
        }
        i = i + 1;
    }
    out
}

/// The title that a document's nodes give.
pub fn title_of_nodes(nodes: &Vec<XmlNode>) -> (r: Option<String>)
    ensures
        text_view(r) == title_of(nodes@.map_values(|n: XmlNode| n@)),
{
    let ghost views = nodes@.map_values(|n: XmlNode| n@);
    proof {
        assert forall|p: usize, name: Seq<char>, i: int|
            0 <= i implies match #[trigger] named_child(views, p, name, i) {
            Some(at) => i <= at < nodes@.len(),
            None => true,
        } by {
            lemma_named_child_range(views, p, name, i);
        }
    }
    let root: usize = match find_element(nodes, 0) {
        Some(at) => at,
        None => {
            return None;
        },
    };
    let info: usize = match find_child(nodes, root, "discinfo") {
        Some(at) => at,
        None => {
            return None;
        },
    };
    let title: usize = match find_child(nodes, info, "title") {
        Some(at) => at,
        None => {
            return None;
        },
    };
    let name: usize = match find_child(nodes, title, "name") {
        Some(at) => at,
        None => {
            return None;
        },
    };
    let text = collect_text(nodes, name);
    if eq_ignore_ascii_case(text.as_str(), "blu-ray") {
        None
    } else {
        Some(text)
    }
}

proof fn lemma_named_child_range(nodes: Seq<XmlNodeView>, parent: usize, name: Seq<char>, i: int)
    requires
        0 <= i,
    ensures
        match named_child(nodes, parent, name, i) {
            Some(at) => i <= at < nodes.len(),
            None => true,
        },
    decreases nodes.len() - i,
{
    if i < nodes.len() && !is_named_child(nodes[i], parent, name) {
        lemma_named_child_range(nodes, parent, name, i + 1);
    }
}

/// Reads the disc title from the text of a `bdmt_*.xml` file. An empty title is a title.
pub fn read_disc_title(xml: &str) -> (r: Option<String>)
    requires
        xml@.len() <= MAX_XML_CHARS,
    ensures
        text_view(r) == title_in(xml@),
{
    let n: usize = xml.unicode_len();
    let text = if n > 0 && xml.get_char(0) == '\u{feff}' {
        xml.substring_char(1, n)
    } else {
        xml
    };
    match parse_document(text) {
        Some(nodes) => title_of_nodes(&nodes),
        None => None,
    }
}

/// Reads the disc title from the bytes of a `bdmt_*.xml` file. A file whose text is longer
/// than [`MAX_XML_CHARS`] has none.
pub fn read_disc_title_from(bytes: &[u8]) -> (r: Option<String>)
    ensures
        text_view(r) == (if lossy_text(bytes@).len() <= MAX_XML_CHARS {
            title_in(lossy_text(bytes@))
        } else {
            None
        }),
{
    let text = decode_lossy(bytes);
    if text.as_str().unicode_len() <= MAX_XML_CHARS {
        read_disc_title(text.as_str())
    } else {
        None
    }
}

/// The placeholder is no title, in whatever case it is spelled.
pub proof fn lemma_placeholder_is_no_title(nodes: Seq<XmlNodeView>)
    ensures
        match title_of(nodes) {
            Some(title) => !same_text(title, "blu-ray"@),
            None => true,
        },
{
}

} // verus!

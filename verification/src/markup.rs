//! Markup events as the pipeline sees them: plain bytes, in document order.

use vstd::prelude::*;

verus! {

/// One attribute of an element: its name and its value, both as the bytes
/// of the document.
#[derive(Debug, Clone, PartialEq, Eq)]
pub struct Attribute {
    pub name: Vec<u8>,
    pub value: Vec<u8>,
}

impl View for Attribute {
    type V = (Seq<u8>, Seq<u8>);

    open spec fn view(&self) -> (Seq<u8>, Seq<u8>) {
        (self.name@, self.value@)
    }
}

/// The views of a list of attributes, in order.
pub open spec fn attribute_views(attributes: Seq<Attribute>) -> Seq<(Seq<u8>, Seq<u8>)> {
    Seq::new(attributes.len(), |i: int| attributes[i]@)
}

/// An element as the contracts see it.
pub struct ElementView {
    pub tag: Seq<u8>,
    pub attributes: Seq<(Seq<u8>, Seq<u8>)>,
}

/// The opening of an element: its tag and its attributes, in the order in
/// which they were written.
#[derive(Debug, Clone, PartialEq, Eq)]
pub struct Element {
    pub tag: Vec<u8>,
    pub attributes: Vec<Attribute>,
}

impl View for Element {
    type V = ElementView;

    open spec fn view(&self) -> ElementView {
        ElementView { tag: self.tag@, attributes: attribute_views(self.attributes@) }
    }
}

/// One event of a document.
#[derive(Debug, Clone, PartialEq, Eq)]
pub enum MarkupEvent {
    /// The declaration that opens the document.
    DocumentStart(Vec<u8>),
    /// The opening tag of an element.
    ElementStart(Element),
    /// An element without content.
    ElementEmpty(Element),
    /// The closing tag of an element.
    ElementEnd(Vec<u8>),
    /// Character data.
    Text(Vec<u8>),
    Comment(Vec<u8>),
    ProcessingInstruction(Vec<u8>),
    /// The end of the document.
    DocumentEnd,
}

impl MarkupEvent {
    /// Whether the event is offered to the transformation units.
    pub open spec fn is_element(self) -> bool {
        self is ElementStart || self is ElementEmpty
    }

    /// The element that the event opens.
    pub open spec fn element(self) -> Element
        recommends
            self.is_element(),
    {
        match self {
            MarkupEvent::ElementStart(element) => element,
            MarkupEvent::ElementEmpty(element) => element,
            _ => arbitrary(),
        }
    }
}

} // verus!

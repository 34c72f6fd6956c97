//! The preformatted-text element: a trivial specialization of the generic
//! HTML element that adds no behaviour of its own.

use vstd::prelude::*;

verus! {

use crate::htmlelement::HTMLElement;

/// The `pre` element: the generic HTML element and nothing more.
#[derive(Clone, Debug)]
pub struct HTMLPreElement {
    pub htmlelement: HTMLElement,
}

impl HTMLPreElement {
    /// Wrap the underlying generic element.
    fn new_inherited(htmlelement: HTMLElement) -> (r: HTMLPreElement)
        ensures
            r.htmlelement == htmlelement,
    {
        HTMLPreElement { htmlelement }
    }

    /// A preformatted-text element over the given generic element.
    pub fn new(htmlelement: HTMLElement) -> (r: HTMLPreElement)
        ensures
            r.htmlelement == htmlelement,
    {
        HTMLPreElement::new_inherited(htmlelement)
    }
}

} // verus!

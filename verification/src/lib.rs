//! A verified slice of an HTML engine's attribute handling: the `data-*`
//! attribute name transcoding used by the dataset API, a plain-value model of
//! the generic HTML element with its dataset, label and directionality
//! queries, and the identifier case conversions used by derive helpers.

pub mod casing;
pub mod dataset;
pub mod htmlelement;
pub mod htmlpreelement;

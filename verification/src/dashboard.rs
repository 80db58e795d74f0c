//! Leaf content types. A `Dashboard` is a terminal, displayable item in a
//! workspace hierarchy; the remaining types describe its (future) content.

use vstd::prelude::*;

verus! {

/// A terminal, displayable item: a leaf of the hierarchy.
pub struct Dashboard {
    pub name: String,
}

/// Heading level of a section.
pub enum Level {
    One,
    Two,
    Three,
    Four,
    Five,
    Six,
}

/// A titled block of dashboard content.
pub struct Section {
    pub title: String,
    pub level: Level,
    pub subsections: Vec<Section>,
    pub content: Vec<ContentType>,
}

/// The kind of content a section can carry.
pub enum ContentType {
    Static,
    Simple,
    List,
    Table,
    Image,
}

} // verus!

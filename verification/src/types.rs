use vstd::prelude::*;

verus! {

/// The granularity of a text selection.
#[derive(Clone, Copy, Debug, PartialEq, Eq, Structural)]
pub enum Granularity {
    Character,
    Word,
    Sentence,
    Line,
    Paragraph,
}

/// Kinds of document elements a user can navigate by.
#[derive(Clone, Copy, Debug, PartialEq, Eq, Structural, Hash)]
pub enum ElementType {
    Heading,
    HeadingLevel1,
    HeadingLevel2,
    HeadingLevel3,
    HeadingLevel4,
    HeadingLevel5,
    HeadingLevel6,
    Button,
    Text,
    Table,
    TableCell,
    List,
    ListItem,
    Video,
    Audio,
    Link,
    Tab,
}

/// A text selection by start and end offsets.
#[derive(Clone, Copy, Debug, PartialEq, Eq, Structural)]
pub struct IndexesSelection {
    pub start: i32,
    pub end: i32,
}

/// A text selection by position and granularity.
#[derive(Clone, Copy, Debug, PartialEq, Eq, Structural)]
pub struct GranularSelection {
    pub index: i32,
    pub granularity: Granularity,
}

/// The area of text to select.
#[derive(Clone, Copy, Debug, PartialEq, Eq, Structural)]
pub enum TextSelectionArea {
    Index(IndexesSelection),
    Granular(GranularSelection),
}

} // verus!

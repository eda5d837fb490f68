//! What is said about a document as a whole.

use vstd::prelude::*;

verus! {

/// The direction in which the text of a document runs.
#[derive(Clone, Copy, PartialEq, Eq, Structural, Debug)]
pub enum TextDirection {
    /// From left to right.
    LeftToRight,
    /// From right to left.
    RightToLeft,
}

impl TextDirection {
    /// The name of the direction in the PDF format.
    pub open spec fn spec_to_pdf(self) -> Seq<char> {
        match self {
            TextDirection::LeftToRight => "L2R"@,
            TextDirection::RightToLeft => "R2L"@,
        }
    }

    /// The name of the direction in the PDF format.
    pub fn to_pdf(self) -> (name: &'static str)
        ensures
            name@ == self.spec_to_pdf(),
    {
        match self {
            TextDirection::LeftToRight => "L2R",
            TextDirection::RightToLeft => "R2L",
        }
    }
}

/// How a viewer lays out the pages of a document.
#[derive(Clone, Copy, PartialEq, Eq, Structural, Debug)]
pub enum PageLayout {
    /// One page at a time.
    SinglePage,
    /// One column of pages.
    OneColumn,
    /// Two columns, with odd pages on the left.
    TwoColumnLeft,
    /// Two columns, with odd pages on the right.
    TwoColumnRight,
    /// Two pages at a time, with odd pages on the left.
    TwoPageLeft,
    /// Two pages at a time, with odd pages on the right.
    TwoPageRight,
}

impl PageLayout {
    /// The name of the layout in the PDF format.
    pub open spec fn spec_to_pdf(self) -> Seq<char> {
        match self {
            PageLayout::SinglePage => "SinglePage"@,
            PageLayout::OneColumn => "OneColumn"@,
            PageLayout::TwoColumnLeft => "TwoColumnLeft"@,
            PageLayout::TwoColumnRight => "TwoColumnRight"@,
            PageLayout::TwoPageLeft => "TwoPageLeft"@,
            PageLayout::TwoPageRight => "TwoPageRight"@,
        }
    }

    /// The name of the layout in the PDF format.
    pub fn to_pdf(self) -> (name: &'static str)
        ensures
            name@ == self.spec_to_pdf(),
    {
        match self {
            PageLayout::SinglePage => "SinglePage",
            PageLayout::OneColumn => "OneColumn",
            PageLayout::TwoColumnLeft => "TwoColumnLeft",
            PageLayout::TwoColumnRight => "TwoColumnRight",
            PageLayout::TwoPageLeft => "TwoPageLeft",
            PageLayout::TwoPageRight => "TwoPageRight",
        }
    }
}

/// The metadata of a document.
pub struct Metadata {
    /// The title.
    pub title: Option<String>,
    /// The authors.
    pub authors: Option<Vec<String>>,
    /// The language of the text.
    pub language: Option<String>,
    /// An identifier that all versions of the document share.
    pub document_id: Option<String>,
    /// The direction in which the text runs.
    pub text_direction: Option<TextDirection>,
    /// How a viewer lays out the pages.
    pub page_layout: Option<PageLayout>,
}

} // verus!

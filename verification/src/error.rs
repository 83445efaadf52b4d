//! Errors of the library.
use vstd::prelude::*;

verus! {

/// What went wrong while reading, editing or writing a title.
#[derive(Debug, Clone, PartialEq, Eq)]
pub enum Error {
    /// Reading or writing bytes failed; the text is the cause.
    Io(String),
    /// The zip container could not be read or written; the text is the cause.
    Zip(String),
    /// The XML could not be tokenised; the text is the cause.
    Xml(String),
    /// An XML attribute could not be read; the text is the cause.
    XmlAttr(String),
    /// Bytes that should hold UTF-8 text do not.
    Utf8,
    /// Bytes that should hold UTF-16 text do not.
    Utf16,
    /// The input is neither a `.gtzip` nor a `.gtxml`.
    UnsupportedInput { path: String },
    /// The package holds no `document.xml`.
    MissingDocumentXml,
    /// The document's root element is not `Composition`.
    MissingComposition,
    /// The XML ended inside the named element.
    UnexpectedEof(String),
    /// JSON could not be read or written; the text is the cause.
    Json(String),
    /// A request that the library refuses; the text says why.
    Invalid(String),
}

} // verus!

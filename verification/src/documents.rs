//! The document formats that are compiled to PDF and cut into snippets.

use vstd::prelude::*;
use crate::text::str_eq;

verus! {

/// A document format: LaTeX sources live in `latex/` and end in `.tex`,
/// Typst sources live in `typst/` and end in `.typ`.
#[derive(PartialEq, Eq, Structural, Clone, Copy, Debug)]
pub enum DocumentFormat {
    Latex,
    Typst,
}

pub open spec fn format_name(f: DocumentFormat) -> Seq<char> {
    match f {
        DocumentFormat::Latex => "LaTeX"@,
        DocumentFormat::Typst => "Typst"@,
    }
}

pub open spec fn format_folder(f: DocumentFormat) -> Seq<char> {
    match f {
        DocumentFormat::Latex => "latex"@,
        DocumentFormat::Typst => "typst"@,
    }
}

pub open spec fn format_extension(f: DocumentFormat) -> Seq<char> {
    match f {
        DocumentFormat::Latex => "tex"@,
        DocumentFormat::Typst => "typ"@,
    }
}

/// The format of a file with this extension, if it is a document.
pub open spec fn format_of_extension(ext: Seq<char>) -> Option<DocumentFormat> {
    if ext == "tex"@ {
        Some(DocumentFormat::Latex)
    } else if ext == "typ"@ {
        Some(DocumentFormat::Typst)
    } else {
        None
    }
}

impl DocumentFormat {
    /// The name shown in messages.
    pub fn name(&self) -> (r: &'static str)
        ensures
            r@ == format_name(*self),
    {
        match self {
            DocumentFormat::Latex => "LaTeX",
            DocumentFormat::Typst => "Typst",
        }
    }

    /// The source folder that holds documents of this format.
    pub fn folder(&self) -> (r: &'static str)
        ensures
            r@ == format_folder(*self),
    {
        match self {
            DocumentFormat::Latex => "latex",
            DocumentFormat::Typst => "typst",
        }
    }

    /// The file extension of documents of this format.
    pub fn extension(&self) -> (r: &'static str)
        ensures
            r@ == format_extension(*self),
    {
        match self {
            DocumentFormat::Latex => "tex",
            DocumentFormat::Typst => "typ",
        }
    }
}

/// The format of a document with this file extension.
pub fn document_format(extension: &str) -> (r: Option<DocumentFormat>)
    ensures
        r == format_of_extension(extension@),
{
    if str_eq(extension, "tex") {
        Some(DocumentFormat::Latex)
    } else if str_eq(extension, "typ") {
        Some(DocumentFormat::Typst)
    } else {
        None
    }
}

/// Whether `folder` is the source folder of some document format.
pub fn is_document_folder(folder: &str) -> (r: bool)
    ensures
        r == (folder@ == "latex"@ || folder@ == "typst"@),
{
    str_eq(folder, "latex") || str_eq(folder, "typst")
}

/// A folder holds documents exactly when it is the folder of a format, and
/// each format is found again from its own extension.
pub proof fn lemma_formats_consistent(folder: Seq<char>, f: DocumentFormat)
    ensures
        (folder == "latex"@ || folder == "typst"@) <==> exists|g: DocumentFormat|
            format_folder(g) == folder,
        format_of_extension(format_extension(f)) == Some(f),
{
    if folder == "latex"@ {
        assert(format_folder(DocumentFormat::Latex) == folder);
    }
    if folder == "typst"@ {
        assert(format_folder(DocumentFormat::Typst) == folder);
    }
    reveal_strlit("tex");
    reveal_strlit("typ");
    assert("typ"@[2] != "tex"@[2]);
}

} // verus!

//! The class model: captures handed over by the query engine, and the classes
//! and fields assembled from them.
use vstd::prelude::*;

use crate::text::strings_view;

verus! {

/// The role a capture plays in a match.
#[derive(Clone, Copy, Debug, PartialEq, Eq, Structural)]
pub enum CaptureRole {
    Name,
    Attribute,
    Decl,
    Type,
    Default,
}

/// Why a sequence of matches could not be turned into classes.
#[derive(Clone, Copy, Debug, PartialEq, Eq, Structural)]
pub enum ParseError {
    /// The parser produced no syntax tree.
    TreeUnavailable,
    /// A match lacks a capture that every match must have.
    MissingCapture(CaptureRole),
    /// The text of a capture is not valid UTF-8.
    InvalidText(CaptureRole),
}

/// Errors of a generation run.
#[derive(Clone, Debug, PartialEq, Eq)]
pub enum CppDeriveError {
    /// No input file was named.
    NoInputFile,
    /// An input file could not be turned into classes.
    Parse(ParseError),
    /// A group has no template, or its template failed to render.
    Template { attribute: String },
}

/// A run needs at least one input file.
pub fn require_inputs(count: usize) -> (r: Result<(), CppDeriveError>)
    ensures
        r is Err <==> count == 0,
        r is Err ==> r->Err_0 == CppDeriveError::NoInputFile,
{
    if count == 0 {
        Err(CppDeriveError::NoInputFile)
    } else {
        Ok(())
    }
}

/// The view of an optional string.
pub open spec fn opt_view(o: Option<String>) -> Option<Seq<char>> {
    match o {
        Some(s) => Some(s@),
        None => None,
    }
}

/// One capture of a match: the index of its name among the query's capture
/// names, the identity of the captured node, the node's byte range in the
/// source, and the node's text (none where it is not UTF-8).
#[derive(Clone, Debug)]
pub struct RawCapture {
    pub index: u32,
    pub node: usize,
    pub start: usize,
    pub end: usize,
    pub text: Option<String>,
}

pub ghost struct CaptureView {
    pub index: u32,
    pub node: usize,
    pub start: usize,
    pub end: usize,
    pub text: Option<Seq<char>>,
}

impl View for RawCapture {
    type V = CaptureView;

    open spec fn view(&self) -> CaptureView {
        CaptureView {
            index: self.index,
            node: self.node,
            start: self.start,
            end: self.end,
            text: opt_view(self.text),
        }
    }
}

/// One member declaration of a class.
#[derive(Clone, Debug)]
pub struct Field {
    pub field_name: String,
    pub field_type: String,
    pub default_value: Option<String>,
}

pub ghost struct FieldView {
    pub name: Seq<char>,
    pub ty: Seq<char>,
    pub default: Option<Seq<char>>,
}

impl View for Field {
    type V = FieldView;

    open spec fn view(&self) -> FieldView {
        FieldView { name: self.field_name@, ty: self.field_type@, default: opt_view(self.default_value) }
    }
}

/// An annotated declaration: its name, the group names it opts into (each once,
/// in the order first declared) and its fields (each name once, in the order
/// first declared).
#[derive(Clone, Debug)]
pub struct Class {
    pub name: String,
    pub attributes: Vec<String>,
    pub fields: Vec<Field>,
}

pub ghost struct ClassView {
    pub name: Seq<char>,
    pub attributes: Seq<Seq<char>>,
    pub fields: Seq<FieldView>,
}

pub open spec fn fields_view(v: Seq<Field>) -> Seq<FieldView> {
    v.map_values(|f: Field| f@)
}

impl View for Class {
    type V = ClassView;

    open spec fn view(&self) -> ClassView {
        ClassView {
            name: self.name@,
            attributes: strings_view(self.attributes@),
            fields: fields_view(self.fields@),
        }
    }
}

pub open spec fn classes_view(v: Seq<Class>) -> Seq<ClassView> {
    v.map_values(|c: Class| c@)
}

pub open spec fn captures_view(v: Seq<RawCapture>) -> Seq<CaptureView> {
    v.map_values(|c: RawCapture| c@)
}

pub open spec fn matches_view(v: Seq<Vec<RawCapture>>) -> Seq<Seq<CaptureView>> {
    v.map_values(|m: Vec<RawCapture>| captures_view(m@))
}

/// No two fields share a name.
pub open spec fn field_names_unique(fs: Seq<FieldView>) -> bool {
    forall|i: int, j: int| 0 <= i < j < fs.len() ==> fs[i].name != fs[j].name
}

} // verus!

//! Running the annotation query over a source file with tree-sitter.
use vstd::prelude::*;
use vstd::utf8::{decode_utf8, valid_utf8};

use crate::attributes::DerivePattern;
use crate::builder::{build_classes, build_spec};
use crate::model::{
    classes_view, matches_view, CaptureView, Class, ClassView, CppDeriveError, ParseError, RawCapture,
};

verus! {

#[verifier::external_type_specification]
#[verifier::external_body]
pub struct ExParser(tree_sitter::Parser);

#[verifier::external_type_specification]
#[verifier::external_body]
pub struct ExQuery(tree_sitter::Query);

/// Relies on tree_sitter::Query::capture_names: the capture names of the query,
/// by capture index.
#[verifier::external_body]
fn query_capture_names(query: &tree_sitter::Query) -> (r: Vec<String>) {
    query.capture_names().iter().map(|n| n.to_string()).collect()
}

/// Every capture lies within `source`, and its text is the decoding of its
/// byte range where that range is UTF-8, and none otherwise.
pub open spec fn texts_from(source: Seq<u8>, ms: Seq<Seq<CaptureView>>) -> bool {
    forall|i: int, j: int|
        0 <= i < ms.len() && 0 <= j < ms[i].len() ==> {
            let c = #[trigger] ms[i][j];
            let bytes = source.subrange(c.start as int, c.end as int);
            &&& c.start <= c.end <= source.len()
            &&& c.text == if valid_utf8(bytes) {
                Some(decode_utf8(bytes))
            } else {
                None::<Seq<char>>
            }
        }
}

/// Relies on tree_sitter::Parser::parse and tree_sitter::QueryCursor::captures
/// over Tree::root_node, on one buffer: none where the parser gives no tree (no
/// language, or cancelled); else the matches of `query` over the whole tree of
/// `source`, in the order of their captures, each capture as its index, its
/// node's identity (Node::id), byte range (Node::start_byte, Node::end_byte)
/// and text (Node::utf8_text, which is str::from_utf8 on that range of the
/// buffer the tree was parsed from). Node identities are addresses, so nothing
/// is stated of them.
#[verifier::external_body]
fn parse_and_query(parser: &mut tree_sitter::Parser, query: &tree_sitter::Query, source: &Vec<u8>) -> (r:
    Option<Vec<Vec<RawCapture>>>)
    ensures
        r is Some ==> texts_from(source@, matches_view(r->Some_0@)),
{
    let tree = parser.parse(source, None)?;
    let mut cursor = tree_sitter::QueryCursor::new();
    let captures = cursor.captures(query, tree.root_node(), source.as_slice());
    Some(captures.map(|(m, _)| m.captures.iter().map(|c| RawCapture {
        index: c.index,
        node: c.node.id(),
        start: c.node.start_byte(),
        end: c.node.end_byte(),
        text: c.node.utf8_text(source).ok().map(String::from),
    }).collect()).collect())
}

/// Parses `source_code` and builds the classes that the annotation query finds
/// in it. What the parser and the query engine hand back is theirs to decide:
/// the classes returned are what `build_spec` makes of some capture names and
/// matches whose texts are all taken from `source_code`, and every failure is a
/// parse error.
pub fn parse_classes(
    parser: &mut tree_sitter::Parser,
    source_code: &Vec<u8>,
    query: &tree_sitter::Query,
    pattern: &DerivePattern,
) -> (r: Result<Vec<Class>, CppDeriveError>)
    ensures
        r is Ok ==> exists|names: Seq<Seq<char>>, ms: Seq<Seq<CaptureView>>|
            texts_from(source_code@, ms) && build_spec(names, ms) == Ok::<Seq<ClassView>, ParseError>(
                classes_view(r->Ok_0@),
            ),
        r is Err ==> r->Err_0 is Parse,
{
    let matches = match parse_and_query(parser, query, source_code) {
        Some(m) => m,
        None => {
            return Err(CppDeriveError::Parse(ParseError::TreeUnavailable));
        },
    };
    let names = query_capture_names(query);
    match build_classes(pattern, &names, &matches) {
        Ok(classes) => Ok(classes),
        Err(e) => Err(CppDeriveError::Parse(e)),
    }
}

} // verus!

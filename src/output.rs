//! The two generated files: their fixed preambles and the rendered fragments
//! of each group, in group order.
use vstd::prelude::*;
use vstd::string::*;

use crate::grouping::{groups_view, AttributeGroup, GroupView};
use crate::model::CppDeriveError;

verus! {

/// Which of the two templates of a group.
#[derive(Clone, Copy, Debug, PartialEq, Eq, Structural)]
pub enum Section {
    Source,
    Header,
}

/// The preamble of the header file.
pub open spec fn header_preamble_spec() -> Seq<char> {
    "#pragma once\n"@
}

/// The preamble of the source file, which includes the header `<stem>.hpp`.
pub open spec fn source_preamble_spec(stem: Seq<char>) -> Seq<char> {
    "#include \""@ + stem + ".hpp\"\n"@
}

/// The name of the template of `section` for the group `attribute`.
pub open spec fn template_name_spec(attribute: Seq<char>, section: Section) -> Seq<char> {
    match section {
        Section::Source => attribute + "/source.cpp"@,
        Section::Header => attribute + "/header.hpp"@,
    }
}

pub fn header_preamble() -> (r: String)
    ensures
        r@ == header_preamble_spec(),
{
    String::from_str("#pragma once\n")
}

/// `stem` is the file name of the output stem, without directories.
pub fn source_preamble(stem: &str) -> (r: String)
    ensures
        r@ == source_preamble_spec(stem@),
{
    let mut r = String::from_str("#include \"");
    r.append(stem);
    r.append(".hpp\"\n");
    r
}

pub fn template_name(attribute: &str, section: Section) -> (r: String)
    ensures
        r@ == template_name_spec(attribute@, section),
{
    let mut r = String::from_str(attribute);
    match section {
        Section::Source => r.append("/source.cpp"),
        Section::Header => r.append("/header.hpp"),
    }
    r
}

/// What the two templates of one group rendered to.
pub struct RenderedPair {
    pub source: String,
    pub header: String,
}

/// The contents of the source file and of the header file.
pub struct OutputPair {
    pub source: String,
    pub header: String,
}

pub open spec fn rendered_view(v: Seq<Option<RenderedPair>>) -> Seq<Option<(Seq<char>, Seq<char>)>> {
    v.map_values(
        |o: Option<RenderedPair>|
            match o {
                Some(p) => Some((p.source@, p.header@)),
                None => None,
            },
    )
}

/// The two files for groups `gs`, whose renderings are `rs` by position, or the
/// name of the first group without a rendering.
pub open spec fn emit_spec(
    stem: Seq<char>,
    gs: Seq<GroupView>,
    rs: Seq<Option<(Seq<char>, Seq<char>)>>,
) -> Result<(Seq<char>, Seq<char>), Seq<char>>
    decreases gs.len(),
{
    if gs.len() == 0 {
        Ok((source_preamble_spec(stem), header_preamble_spec()))
    } else {
        match emit_spec(stem, gs.drop_last(), rs) {
            Err(a) => Err(a),
            Ok(files) => {
                let i = gs.len() - 1;
                if i < rs.len() && rs[i] is Some {
                    Ok((files.0 + rs[i]->Some_0.0, files.1 + rs[i]->Some_0.1))
                } else {
                    Err(gs.last().attribute)
                }
            },
        }
    }
}

/// Assembles the two files: each preamble, then the rendered fragments of the
/// groups in order, with nothing between them. `rendered[i]` is what the
/// templates of `groups[i]` rendered to, or none where a template was missing or
/// failed; the first group without a rendering fails the whole assembly.
pub fn assemble_outputs(stem: &str, groups: &Vec<AttributeGroup>, rendered: &Vec<Option<RenderedPair>>) -> (r:
    Result<OutputPair, CppDeriveError>)
    ensures
        match emit_spec(stem@, groups_view(groups@), rendered_view(rendered@)) {
            Ok(files) => r is Ok && r->Ok_0.source@ == files.0 && r->Ok_0.header@ == files.1,
            Err(a) => r is Err && r->Err_0 is Template && r->Err_0->attribute@ == a,
        },
{
    let ghost gv = groups_view(groups@);
    let ghost rv = rendered_view(rendered@);
    let mut source = source_preamble(stem);
    let mut header = header_preamble();
    let mut i: usize = 0;
    assert(gv.take(0) =~= Seq::<GroupView>::empty());
    while i < groups.len()
        invariant
            gv == groups_view(groups@),
            rv == rendered_view(rendered@),
            i <= groups.len(),
            emit_spec(stem@, gv.take(i as int), rv) == Ok::<(Seq<char>, Seq<char>), Seq<char>>(
                (source@, header@),
            ),
        decreases groups.len() - i,
    {
        assert(gv.take(i + 1).drop_last() =~= gv.take(i as int));
        if i < rendered.len() && rendered[i].is_some() {
            match &rendered[i] {
                Some(p) => {
                    source.append(p.source.as_str());
                    header.append(p.header.as_str());
                },
                None => {},
            }
        } else {
            proof {
                assert(emit_spec(stem@, gv.take(i + 1), rv) is Err);
                lemma_emit_error_persists(stem@, gv, rv, i + 1);
            }
            return Err(CppDeriveError::Template { attribute: groups[i].attribute.clone() });
        }
        i = i + 1;
    }
    assert(gv.take(i as int) =~= gv);
    Ok(OutputPair { source, header })
}

/// Once a prefix of the groups fails, the whole assembly fails with the same name.
pub proof fn lemma_emit_error_persists(
    stem: Seq<char>,
    gs: Seq<GroupView>,
    rs: Seq<Option<(Seq<char>, Seq<char>)>>,
    k: int,
)
    requires
        0 <= k <= gs.len(),
        emit_spec(stem, gs.take(k), rs) is Err,
    ensures
        emit_spec(stem, gs, rs) == emit_spec(stem, gs.take(k), rs),
    decreases gs.len() - k,
{
    if k < gs.len() {
        assert(gs.take(k + 1).drop_last() =~= gs.take(k));
        lemma_emit_error_persists(stem, gs, rs, k + 1);
    } else {
        assert(gs.take(k) =~= gs);
    }
}

} // verus!

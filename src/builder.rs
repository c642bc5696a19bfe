//! Assembling classes from the matches of the annotation query.
use vstd::prelude::*;
use vstd::string::*;

use crate::attributes::{add_attribute_text, insert_attribute_names, DerivePattern};
use crate::model::{
    captures_view, classes_view, field_names_unique, fields_view, matches_view, opt_view, CaptureRole,
    CaptureView, Class, ClassView, Field, FieldView, ParseError, RawCapture,
};
use crate::text::strings_view;

verus! {

/// The role that a capture name stands for, if any.
pub open spec fn role_named(n: Seq<char>) -> Option<CaptureRole> {
    if n == "name"@ {
        Some(CaptureRole::Name)
    } else if n == "attribute"@ {
        Some(CaptureRole::Attribute)
    } else if n == "decl"@ {
        Some(CaptureRole::Decl)
    } else if n == "type"@ {
        Some(CaptureRole::Type)
    } else if n == "default"@ {
        Some(CaptureRole::Default)
    } else {
        None
    }
}

/// The role of the capture with name index `index`; captures of other names play none.
pub open spec fn role_of(names: Seq<Seq<char>>, index: u32) -> Option<CaptureRole> {
    if index < names.len() {
        role_named(names[index as int])
    } else {
        None
    }
}

/// What one match has said so far, capture by capture.
pub ghost struct MatchParts {
    pub id: Option<usize>,
    pub class_name: Option<Seq<char>>,
    pub attribute_texts: Seq<Seq<char>>,
    pub decl: Option<Seq<char>>,
    pub ty: Option<Seq<char>>,
    pub default: Option<Seq<char>>,
}

/// `p` after a capture of role `r` on node `node` with text `t`; a later
/// capture of a role replaces an earlier one, attribute texts accumulate.
pub open spec fn with_capture(p: MatchParts, r: CaptureRole, node: usize, t: Seq<char>) -> MatchParts {
    match r {
        CaptureRole::Name => MatchParts {
            id: Some(node),
            class_name: Some(t),
            attribute_texts: p.attribute_texts,
            decl: p.decl,
            ty: p.ty,
            default: p.default,
        },
        CaptureRole::Attribute => MatchParts {
            id: p.id,
            class_name: p.class_name,
            attribute_texts: p.attribute_texts.push(t),
            decl: p.decl,
            ty: p.ty,
            default: p.default,
        },
        CaptureRole::Decl => MatchParts {
            id: p.id,
            class_name: p.class_name,
            attribute_texts: p.attribute_texts,
            decl: Some(t),
            ty: p.ty,
            default: p.default,
        },
        CaptureRole::Type => MatchParts {
            id: p.id,
            class_name: p.class_name,
            attribute_texts: p.attribute_texts,
            decl: p.decl,
            ty: Some(t),
            default: p.default,
        },
        CaptureRole::Default => MatchParts {
            id: p.id,
            class_name: p.class_name,
            attribute_texts: p.attribute_texts,
            decl: p.decl,
            ty: p.ty,
            default: Some(t),
        },
    }
}

/// The parts of a match read from its captures in order.
pub open spec fn scan_captures(names: Seq<Seq<char>>, caps: Seq<CaptureView>) -> Result<MatchParts, ParseError>
    decreases caps.len(),
{
    if caps.len() == 0 {
        Ok(
            MatchParts {
                id: None,
                class_name: None,
                attribute_texts: Seq::empty(),
                decl: None,
                ty: None,
                default: None,
            },
        )
    } else {
        match scan_captures(names, caps.drop_last()) {
            Err(e) => Err(e),
            Ok(p) => {
                let c = caps.last();
                match role_of(names, c.index) {
                    None => Ok(p),
                    Some(r) => match c.text {
                        None => Err(ParseError::InvalidText(r)),
                        Some(t) => Ok(with_capture(p, r, c.node, t)),
                    },
                }
            },
        }
    }
}

/// Once a prefix of the captures is in error, the whole match is, with the same error.
pub proof fn lemma_scan_error_persists(names: Seq<Seq<char>>, caps: Seq<CaptureView>, k: int)
    requires
        0 <= k <= caps.len(),
        scan_captures(names, caps.take(k)) is Err,
    ensures
        scan_captures(names, caps) == scan_captures(names, caps.take(k)),
    decreases caps.len() - k,
{
    if k < caps.len() {
        assert(caps.take(k + 1).drop_last() =~= caps.take(k));
        lemma_scan_error_persists(names, caps, k + 1);
    } else {
        assert(caps.take(k) =~= caps);
    }
}

/// A complete match: the class it belongs to, the attribute texts bound with
/// it, and the field it declares.
pub ghost struct MatchView {
    pub id: usize,
    pub class_name: Seq<char>,
    pub attribute_texts: Seq<Seq<char>>,
    pub field: FieldView,
}

/// The meaning of one match, or the capture it lacks.
pub open spec fn interpret(names: Seq<Seq<char>>, caps: Seq<CaptureView>) -> Result<MatchView, ParseError> {
    match scan_captures(names, caps) {
        Err(e) => Err(e),
        Ok(p) => if p.id is None || p.class_name is None {
            Err(ParseError::MissingCapture(CaptureRole::Name))
        } else if p.decl is None {
            Err(ParseError::MissingCapture(CaptureRole::Decl))
        } else if p.ty is None {
            Err(ParseError::MissingCapture(CaptureRole::Type))
        } else {
            Ok(
                MatchView {
                    id: p.id->Some_0,
                    class_name: p.class_name->Some_0,
                    attribute_texts: p.attribute_texts,
                    field: FieldView { name: p.decl->Some_0, ty: p.ty->Some_0, default: p.default },
                },
            )
        },
    }
}

/// A match as executable values.
pub struct MatchRecord {
    pub id: usize,
    pub class_name: String,
    pub attribute_texts: Vec<String>,
    pub field: Field,
}

impl View for MatchRecord {
    type V = MatchView;

    open spec fn view(&self) -> MatchView {
        MatchView {
            id: self.id,
            class_name: self.class_name@,
            attribute_texts: strings_view(self.attribute_texts@),
            field: self.field@,
        }
    }
}

/// The role that the capture name `n` stands for, if any.
pub fn capture_role(n: &String) -> (r: Option<CaptureRole>)
    ensures
        r == role_named(n@),
{
    if *n == String::from_str("name") {
        Some(CaptureRole::Name)
    } else if *n == String::from_str("attribute") {
        Some(CaptureRole::Attribute)
    } else if *n == String::from_str("decl") {
        Some(CaptureRole::Decl)
    } else if *n == String::from_str("type") {
        Some(CaptureRole::Type)
    } else if *n == String::from_str("default") {
        Some(CaptureRole::Default)
    } else {
        None
    }
}

/// Reads one match: its class, attribute texts and field.
pub fn interpret_match(names: &Vec<String>, caps: &Vec<RawCapture>) -> (r: Result<MatchRecord, ParseError>)
    ensures
        match interpret(strings_view(names@), captures_view(caps@)) {
            Ok(m) => r is Ok && r->Ok_0@ == m,
            Err(e) => r == Err::<MatchRecord, ParseError>(e),
        },
{
    let ghost nv = strings_view(names@);
    let ghost cv = captures_view(caps@);
    let mut id: Option<usize> = None;
    let mut class_name: Option<String> = None;
    let mut attribute_texts: Vec<String> = Vec::new();
    let mut decl: Option<String> = None;
    let mut ty: Option<String> = None;
    let mut default: Option<String> = None;
    let mut k: usize = 0;
    assert(cv.take(0) =~= Seq::<CaptureView>::empty());
    assert(strings_view(attribute_texts@) =~= Seq::<Seq<char>>::empty());
    while k < caps.len()
        invariant
            nv == strings_view(names@),
            cv == captures_view(caps@),
            k <= caps.len(),
            scan_captures(nv, cv.take(k as int)) == Ok::<MatchParts, ParseError>(
                MatchParts {
                    id: id,
                    class_name: opt_view(class_name),
                    attribute_texts: strings_view(attribute_texts@),
                    decl: opt_view(decl),
                    ty: opt_view(ty),
                    default: opt_view(default),
                },
            ),
            id is Some <==> class_name is Some,
        decreases caps.len() - k,
    {
        let c = &caps[k];
        assert(cv.take(k + 1).drop_last() =~= cv.take(k as int));
        assert(cv.take(k + 1).last() == c@);
        let role = if (c.index as usize) < names.len() {
            capture_role(&names[c.index as usize])
        } else {
            None
        };
        assert(role == role_of(nv, c.index));
        match role {
            None => {},
            Some(r) => {
                match &c.text {
                    None => {
                        proof {
                            lemma_scan_error_persists(nv, cv, k + 1);
                        }
                        return Err(ParseError::InvalidText(r));
                    },
                    Some(t) => {
                        let t = t.clone();
                        match r {
                            CaptureRole::Name => {
                                id = Some(c.node);
                                class_name = Some(t);
                            },
                            CaptureRole::Attribute => {
                                proof {
                                    assert(strings_view(attribute_texts@.push(t)) =~= strings_view(
                                        attribute_texts@,
                                    ).push(t@));
                                }
                                attribute_texts.push(t);
                            },
                            CaptureRole::Decl => {
                                decl = Some(t);
                            },
                            CaptureRole::Type => {
                                ty = Some(t);
                            },
                            CaptureRole::Default => {
                                default = Some(t);
                            },
                        }
                    },
                }
            },
        }
        k = k + 1;
    }
    assert(cv.take(k as int) =~= cv);
    match (id, class_name, decl, ty) {
        (Some(id), Some(class_name), Some(field_name), Some(field_type)) => Ok(
            MatchRecord {
                id,
                class_name,
                attribute_texts,
                field: Field { field_name, field_type, default_value: default },
            },
        ),
        (None, _, _, _) => Err(ParseError::MissingCapture(CaptureRole::Name)),
        (_, None, _, _) => Err(ParseError::MissingCapture(CaptureRole::Name)),
        (_, _, None, _) => Err(ParseError::MissingCapture(CaptureRole::Decl)),
        (_, _, _, None) => Err(ParseError::MissingCapture(CaptureRole::Type)),
    }
}

} // verus!

verus! {

/// `set` with the group names of each attribute text added in turn.
pub open spec fn add_texts(set: Seq<Seq<char>>, texts: Seq<Seq<char>>) -> Seq<Seq<char>>
    decreases texts.len(),
{
    if texts.len() == 0 {
        set
    } else {
        add_attribute_text(add_texts(set, texts.drop_last()), texts.last())
    }
}

/// `fs` with `f` stored under its name: it replaces the field of that name
/// where there is one, and comes last otherwise.
pub open spec fn put_field(fs: Seq<FieldView>, f: FieldView) -> Seq<FieldView> {
    if exists|i: int| 0 <= i < fs.len() && fs[i].name == f.name {
        fs.update(choose|i: int| 0 <= i < fs.len() && fs[i].name == f.name, f)
    } else {
        fs.push(f)
    }
}

/// Class `c` after match `m`: its attribute texts and field added.
pub open spec fn absorb_match(c: ClassView, m: MatchView) -> ClassView {
    ClassView {
        name: c.name,
        attributes: add_texts(c.attributes, m.attribute_texts),
        fields: put_field(c.fields, m.field),
    }
}

/// The class that the first match of a node starts from.
pub open spec fn new_class(m: MatchView) -> ClassView {
    ClassView { name: m.class_name, attributes: Seq::empty(), fields: Seq::empty() }
}

/// The node identities seen so far, and the class of each, in first-seen order.
pub type BuildState = (Seq<usize>, Seq<ClassView>);

/// The state after match `m`: the class of its node absorbs it, or a new class
/// of that node comes last.
pub open spec fn step(st: BuildState, m: MatchView) -> BuildState {
    if exists|i: int| 0 <= i < st.0.len() && st.0[i] == m.id {
        let i = choose|i: int| 0 <= i < st.0.len() && st.0[i] == m.id;
        (st.0, st.1.update(i, absorb_match(st.1[i], m)))
    } else {
        (st.0.push(m.id), st.1.push(absorb_match(new_class(m), m)))
    }
}

/// The state after all matches in order, or the error of the first malformed one.
pub open spec fn build_state(names: Seq<Seq<char>>, ms: Seq<Seq<CaptureView>>) -> Result<BuildState, ParseError>
    decreases ms.len(),
{
    if ms.len() == 0 {
        Ok((Seq::empty(), Seq::empty()))
    } else {
        match build_state(names, ms.drop_last()) {
            Err(e) => Err(e),
            Ok(st) => match interpret(names, ms.last()) {
                Err(e) => Err(e),
                Ok(m) => Ok(step(st, m)),
            },
        }
    }
}

/// The classes built from the matches, in first-seen order.
pub open spec fn build_spec(names: Seq<Seq<char>>, ms: Seq<Seq<CaptureView>>) -> Result<Seq<ClassView>, ParseError> {
    match build_state(names, ms) {
        Err(e) => Err(e),
        Ok(st) => Ok(st.1),
    }
}

/// Within a class, group names are distinct and field names are distinct.
pub open spec fn class_wf(c: ClassView) -> bool {
    c.attributes.no_duplicates() && field_names_unique(c.fields)
}

/// What holds of every state: one class per identity, identities distinct,
/// field names distinct within each class.
pub open spec fn state_wf(st: BuildState) -> bool {
    &&& st.0.len() == st.1.len()
    &&& forall|i: int, j: int| 0 <= i < j < st.0.len() ==> st.0[i] != st.0[j]
    &&& forall|i: int| 0 <= i < st.1.len() ==> class_wf(#[trigger] st.1[i])
}

/// Stores `f` under its name.
pub fn store_field(fields: &mut Vec<Field>, f: Field)
    requires
        field_names_unique(fields_view(old(fields)@)),
    ensures
        fields_view(final(fields)@) == put_field(fields_view(old(fields)@), f@),
        field_names_unique(fields_view(final(fields)@)),
{
    let ghost fv = fields_view(fields@);
    let mut i: usize = 0;
    while i < fields.len()
        invariant
            fields@ == old(fields)@,
            fv == fields_view(fields@),
            field_names_unique(fv),
            i <= fields.len(),
            forall|j: int| 0 <= j < i ==> fv[j].name != f@.name,
        decreases fields.len() - i,
    {
        if fields[i].field_name == f.field_name {
            proof {
                assert(fv[i as int].name == f@.name);
                let k = choose|k: int| 0 <= k < fv.len() && fv[k].name == f@.name;
                if k < i {
                    assert(fv[k].name != fv[i as int].name);
                } else if k > i {
                    assert(fv[i as int].name != fv[k].name);
                }
            }
            let ghost fnew = f@;
            fields.set(i, f);
            proof {
                assert(fields_view(fields@) =~= fv.update(i as int, fnew));
                assert(field_names_unique(fields_view(fields@)));
            }
            return;
        }
        i = i + 1;
    }
    let ghost fnew = f@;
    fields.push(f);
    assert(fields_view(fields@) =~= fv.push(fnew));
    assert(field_names_unique(fields_view(fields@)));
}

/// Adds the group names of each attribute text to `set`.
pub fn insert_attribute_texts(pattern: &DerivePattern, set: &mut Vec<String>, texts: &Vec<String>)
    ensures
        strings_view(final(set)@) == add_texts(strings_view(old(set)@), strings_view(texts@)),
        strings_view(old(set)@).no_duplicates() ==> strings_view(final(set)@).no_duplicates(),
{
    let ghost tv = strings_view(texts@);
    let mut k: usize = 0;
    assert(tv.take(0) =~= Seq::<Seq<char>>::empty());
    while k < texts.len()
        invariant
            tv == strings_view(texts@),
            k <= texts.len(),
            strings_view(set@) == add_texts(strings_view(old(set)@), tv.take(k as int)),
            strings_view(old(set)@).no_duplicates() ==> strings_view(set@).no_duplicates(),
        decreases texts.len() - k,
    {
        assert(tv.take(k + 1).drop_last() =~= tv.take(k as int));
        assert(tv[k as int] == texts@[k as int]@);
        insert_attribute_names(pattern, set, texts[k].as_str());
        k = k + 1;
    }
    assert(tv.take(k as int) =~= tv);
}

/// Class `c` after absorbing match `m`.
pub fn absorb(pattern: &DerivePattern, c: Class, m: MatchRecord) -> (r: Class)
    requires
        class_wf(c@),
    ensures
        r@ == absorb_match(c@, m@),
        class_wf(r@),
{
    let mut c = c;
    insert_attribute_texts(pattern, &mut c.attributes, &m.attribute_texts);
    store_field(&mut c.fields, m.field);
    c
}

/// Builds the classes that the matches describe: one per node identity of the
/// `name` capture, in the order first seen, each with the union of the group
/// names of its matches and the last field stored under each name. The first
/// malformed match, in order, fails the whole build.
pub fn build_classes(pattern: &DerivePattern, names: &Vec<String>, matches: &Vec<Vec<RawCapture>>) -> (r: Result<Vec<Class>, ParseError>)
    ensures
        match build_spec(strings_view(names@), matches_view(matches@)) {
            Ok(cs) => r is Ok && classes_view(r->Ok_0@) == cs,
            Err(e) => r == Err::<Vec<Class>, ParseError>(e),
        },
        r is Ok ==> forall|i: int| 0 <= i < r->Ok_0@.len() ==> class_wf(#[trigger] r->Ok_0@[i]@),
{
    let ghost nv = strings_view(names@);
    let ghost mv = matches_view(matches@);
    let mut ids: Vec<usize> = Vec::new();
    let mut classes: Vec<Class> = Vec::new();
    let mut k: usize = 0;
    assert(mv.take(0) =~= Seq::<Seq<CaptureView>>::empty());
    assert(classes_view(classes@) =~= Seq::<ClassView>::empty());
    while k < matches.len()
        invariant
            nv == strings_view(names@),
            mv == matches_view(matches@),
            k <= matches.len(),
            build_state(nv, mv.take(k as int)) == Ok::<BuildState, ParseError>(
                (ids@, classes_view(classes@)),
            ),
            state_wf((ids@, classes_view(classes@))),
        decreases matches.len() - k,
    {
        assert(mv.take(k + 1).drop_last() =~= mv.take(k as int));
        assert(mv.take(k + 1).last() == captures_view(matches@[k as int]@));
        let m = match interpret_match(names, &matches[k]) {
            Ok(m) => m,
            Err(e) => {
                proof {
                    lemma_build_error_persists(nv, mv, k + 1);
                    assert(build_state(nv, mv.take(k + 1)) == Err::<BuildState, ParseError>(e));
                }
                return Err(e);
            },
        };
        let ghost mview = m@;
        let ghost cv = classes_view(classes@);
        let mut i: usize = 0;
        while i < ids.len() && ids[i] != m.id
            invariant
                forall|j: int| 0 <= j < i ==> ids@[j] != m.id,
                i <= ids.len(),
            decreases ids.len() - i,
        {
            i = i + 1;
        }
        if i < ids.len() {
            proof {
                let j = choose|j: int| 0 <= j < ids@.len() && ids@[j] == m.id;
                assert(ids@[i as int] == m.id);
                assert(j == i);
            }
            let c = classes.remove(i);
            assert(c@ == cv[i as int]);
            let c = absorb(pattern, c, m);
            classes.insert(i, c);
            proof {
                assert(classes_view(classes@) =~= cv.update(i as int, absorb_match(cv[i as int], mview)));
            }
        } else {
            let c = Class { name: m.class_name.clone(), attributes: Vec::new(), fields: Vec::new() };
            proof {
                assert(c@.attributes =~= Seq::<Seq<char>>::empty());
                assert(c@.fields =~= Seq::<FieldView>::empty());
                assert(c@.attributes.no_duplicates());
                assert(c@ == new_class(mview));
            }
            ids.push(m.id);
            let c = absorb(pattern, c, m);
            classes.push(c);
            proof {
                assert(classes_view(classes@) =~= cv.push(absorb_match(new_class(mview), mview)));
            }
        }
        k = k + 1;
    }
    assert(mv.take(k as int) =~= mv);
    assert forall|i: int| 0 <= i < classes@.len() implies class_wf(#[trigger] classes@[i]@) by {
        assert(classes_view(classes@)[i] == classes@[i]@);
    }
    Ok(classes)
}

/// Once a prefix of the matches fails, the whole build fails with the same error.
pub proof fn lemma_build_error_persists(names: Seq<Seq<char>>, ms: Seq<Seq<CaptureView>>, k: int)
    requires
        0 <= k <= ms.len(),
        build_state(names, ms.take(k)) is Err,
    ensures
        build_state(names, ms) == build_state(names, ms.take(k)),
    decreases ms.len() - k,
{
    if k < ms.len() {
        assert(ms.take(k + 1).drop_last() =~= ms.take(k));
        lemma_build_error_persists(names, ms, k + 1);
    } else {
        assert(ms.take(k) =~= ms);
    }
}

} // verus!

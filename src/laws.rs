//! Properties of the pipeline that relate several of its steps.
use vstd::prelude::*;

use crate::attributes::{
    add_attribute_text, add_lists, add_name, add_names, derive_lists, is_plain_name, list_entries,
};
use crate::builder::{add_texts, build_spec, build_state, interpret, role_of, scan_captures, step};
use crate::text::trim;
use crate::grouping::{add_class, add_member, group_names_unique, group_spec, GroupView};
use crate::model::{CaptureRole, CaptureView, ClassView, FieldView, ParseError};
use crate::output::{emit_spec, header_preamble_spec, lemma_emit_error_persists, source_preamble_spec};

verus! {

/// Where no match is found, there are no classes and no groups, and the two
/// files hold their preambles and nothing else.
pub proof fn lemma_no_matches_only_preamble(
    names: Seq<Seq<char>>,
    stem: Seq<char>,
    rendered: Seq<Option<(Seq<char>, Seq<char>)>>,
)
    ensures
        build_spec(names, Seq::empty()) == Ok::<Seq<ClassView>, ParseError>(Seq::empty()),
        group_spec(Seq::empty()) == Seq::<GroupView>::empty(),
        emit_spec(stem, Seq::empty(), rendered) == Ok::<(Seq<char>, Seq<char>), Seq<char>>(
            (source_preamble_spec(stem), header_preamble_spec()),
        ),
{
}

/// Where the templates of some group rendered nothing (one is missing or
/// failed), the assembly of the two files fails.
pub proof fn lemma_missing_rendering_fails(
    stem: Seq<char>,
    gs: Seq<GroupView>,
    rendered: Seq<Option<(Seq<char>, Seq<char>)>>,
    i: int,
)
    requires
        0 <= i < gs.len(),
        i >= rendered.len() || rendered[i] is None,
    ensures
        emit_spec(stem, gs, rendered) is Err,
{
    assert(gs.take(i + 1).drop_last() =~= gs.take(i));
    assert(gs.take(i + 1).len() == i + 1);
    assert(emit_spec(stem, gs.take(i + 1), rendered) is Err);
    lemma_emit_error_persists(stem, gs, rendered, i + 1);
}

/// Of two matches of one class that declare a field of the same name, the
/// field of the later match is the one kept, type and default included.
pub proof fn lemma_last_field_wins(names: Seq<Seq<char>>, first: Seq<CaptureView>, second: Seq<CaptureView>)
    requires
        interpret(names, first) is Ok,
        interpret(names, second) is Ok,
        interpret(names, first)->Ok_0.id == interpret(names, second)->Ok_0.id,
        interpret(names, first)->Ok_0.field.name == interpret(names, second)->Ok_0.field.name,
    ensures
        build_spec(names, seq![first, second]) is Ok,
        build_spec(names, seq![first, second])->Ok_0.len() == 1,
        build_spec(names, seq![first, second])->Ok_0[0].fields == seq![
            interpret(names, second)->Ok_0.field,
        ],
{
    let ms = seq![first, second];
    let m1 = interpret(names, first)->Ok_0;
    let m2 = interpret(names, second)->Ok_0;
    assert(ms.drop_last() =~= seq![first]);
    assert(seq![first].drop_last() =~= Seq::<Seq<CaptureView>>::empty());
    let st0: (Seq<usize>, Seq<ClassView>) = (Seq::empty(), Seq::empty());
    assert(build_state(names, Seq::empty()) == Ok::<(Seq<usize>, Seq<ClassView>), ParseError>(st0));
    assert(build_state(names, seq![first].drop_last()) == Ok::<(Seq<usize>, Seq<ClassView>), ParseError>(st0));
    assert(seq![first].last() == first);
    assert(ms.last() == second);
    assert(build_state(names, seq![first]) == Ok::<(Seq<usize>, Seq<ClassView>), ParseError>(
        crate::builder::step(st0, m1),
    ));
    let st1 = crate::builder::step(st0, m1);
    assert(seq![m1.field] =~= Seq::<FieldView>::empty().push(m1.field));
    assert(st1.0 =~= seq![m1.id]);
    assert(st1.1[0].fields =~= seq![m1.field]);
    assert(st1.0[0] == m2.id);
    let st2 = crate::builder::step(st1, m2);
    assert(build_state(names, ms) == Ok::<(Seq<usize>, Seq<ClassView>), ParseError>(st2));
    assert(st1.1[0].fields[0].name == m2.field.name);
    assert(st2.1[0].fields =~= seq![m2.field]);
}

/// Some capture of the match plays the `default` role.
pub open spec fn has_default_capture(names: Seq<Seq<char>>, caps: Seq<CaptureView>) -> bool {
    exists|i: int| 0 <= i < caps.len() && role_of(names, caps[i].index) == Some(CaptureRole::Default)
}

proof fn lemma_scan_default(names: Seq<Seq<char>>, caps: Seq<CaptureView>)
    requires
        scan_captures(names, caps) is Ok,
    ensures
        scan_captures(names, caps)->Ok_0.default is Some <==> has_default_capture(names, caps),
    decreases caps.len(),
{
    if caps.len() > 0 {
        let init = caps.drop_last();
        lemma_scan_default(names, init);
        if has_default_capture(names, init) {
            let i = choose|i: int| 0 <= i < init.len() && role_of(names, init[i].index) == Some(CaptureRole::Default);
            assert(caps[i] == init[i]);
        }
        if has_default_capture(names, caps) {
            let i = choose|i: int| 0 <= i < caps.len() && role_of(names, caps[i].index) == Some(CaptureRole::Default);
            if i < init.len() {
                assert(init[i] == caps[i]);
            }
        }
        if role_of(names, caps.last().index) == Some(CaptureRole::Default) {
            assert(caps[caps.len() - 1] == caps.last());
        }
    }
}

/// A field has a default value exactly where its match has a `default`
/// capture; without one it has none, not an empty text.
pub proof fn lemma_default_iff_captured(names: Seq<Seq<char>>, caps: Seq<CaptureView>)
    requires
        interpret(names, caps) is Ok,
    ensures
        interpret(names, caps)->Ok_0.field.default is Some <==> has_default_capture(names, caps),
{
    lemma_scan_default(names, caps);
}

} // verus!

verus! {

proof fn lemma_add_member(gs: Seq<GroupView>, n: usize, a: Seq<char>)
    requires
        group_names_unique(gs),
    ensures
        group_names_unique(add_member(gs, n, a)),
        add_member(gs, n, a).len() >= gs.len(),
        forall|g: int| 0 <= g < gs.len() ==> #[trigger] add_member(gs, n, a)[g].attribute == gs[g].attribute,
        forall|g: int| gs.len() <= g < add_member(gs, n, a).len() ==> #[trigger] add_member(gs, n, a)[g].attribute == a,
        exists|g: int| 0 <= g < add_member(gs, n, a).len() && #[trigger] add_member(gs, n, a)[g].attribute == a,
        forall|g: int, x: usize| 0 <= g < add_member(gs, n, a).len() ==> (#[trigger] add_member(gs, n, a)[g].members.contains(x) <==> ((g < gs.len() && gs[g].members.contains(x)) || (x == n && add_member(gs, n, a)[g].attribute == a))),
{
    let r = add_member(gs, n, a);
    if exists|i: int| 0 <= i < gs.len() && gs[i].attribute == a {
        let i = choose|i: int| 0 <= i < gs.len() && gs[i].attribute == a;
        assert(r[i].attribute == a);
        assert forall|g: int, x: usize| 0 <= g < r.len() implies (#[trigger] r[g].members.contains(x) <==> ((g < gs.len() && gs[g].members.contains(x)) || (x == n && r[g].attribute == a))) by {
            if g == i {
                let m = gs[i].members;
                if m.push(n).contains(x) && x != n {
                    let k = choose|k: int| 0 <= k < m.push(n).len() && m.push(n)[k] == x;
                    assert(m[k] == x);
                }
                if m.contains(x) {
                    let k = choose|k: int| 0 <= k < m.len() && m[k] == x;
                    assert(m.push(n)[k] == x);
                }
                if x == n {
                    assert(m.push(n)[m.len() as int] == n);
                }
            } else {
                if g < i {
                    assert(gs[g].attribute != gs[i].attribute);
                } else {
                    assert(gs[i].attribute != gs[g].attribute);
                }
            }
        }
    } else {
        assert(r[gs.len() as int].attribute == a);
        assert forall|g: int, x: usize| 0 <= g < r.len() implies (#[trigger] r[g].members.contains(x) <==> ((g < gs.len() && gs[g].members.contains(x)) || (x == n && r[g].attribute == a))) by {
            if g == gs.len() {
                if x == n {
                    assert(seq![n][0] == n);
                }
            } else {
                assert(gs[g].attribute != a);
            }
        }
    }
}

proof fn lemma_add_class(gs: Seq<GroupView>, n: usize, t: Seq<Seq<char>>)
    requires
        group_names_unique(gs),
    ensures
        group_names_unique(add_class(gs, n, t)),
        add_class(gs, n, t).len() >= gs.len(),
        forall|g: int| 0 <= g < gs.len() ==> #[trigger] add_class(gs, n, t)[g].attribute == gs[g].attribute,
        forall|g: int| gs.len() <= g < add_class(gs, n, t).len() ==> t.contains(#[trigger] add_class(gs, n, t)[g].attribute),
        forall|a: Seq<char>| #[trigger] t.contains(a) ==> exists|g: int| 0 <= g < add_class(gs, n, t).len() && add_class(gs, n, t)[g].attribute == a,
        forall|g: int, x: usize| 0 <= g < add_class(gs, n, t).len() ==> (#[trigger] add_class(gs, n, t)[g].members.contains(x) <==> ((g < gs.len() && gs[g].members.contains(x)) || (x == n && t.contains(add_class(gs, n, t)[g].attribute)))),
    decreases t.len(),
{
    if t.len() > 0 {
        let init = t.drop_last();
        let a = t.last();
        let p = add_class(gs, n, init);
        lemma_add_class(gs, n, init);
        lemma_add_member(p, n, a);
        let r = add_member(p, n, a);
        assert(r == add_class(gs, n, t));
        assert(t[t.len() - 1] == a);
        assert forall|b: Seq<char>| init.contains(b) implies t.contains(b) by {
            let k = choose|k: int| 0 <= k < init.len() && init[k] == b;
            assert(t[k] == b);
        }
        assert forall|b: Seq<char>| t.contains(b) implies (init.contains(b) || b == a) by {
            let k = choose|k: int| 0 <= k < t.len() && t[k] == b;
            if k < init.len() {
                assert(init[k] == b);
            }
        }
        assert forall|g: int| gs.len() <= g < r.len() implies t.contains(#[trigger] r[g].attribute) by {
            if g < p.len() {
                assert(init.contains(p[g].attribute));
            }
        }
        assert forall|b: Seq<char>| #[trigger] t.contains(b) implies exists|g: int| 0 <= g < r.len() && r[g].attribute == b by {
            if b != a {
                let g = choose|g: int| 0 <= g < p.len() && p[g].attribute == b;
                assert(r[g].attribute == b);
            }
        }
        assert forall|g: int, x: usize| 0 <= g < r.len() implies (#[trigger] r[g].members.contains(x) <==> ((g < gs.len() && gs[g].members.contains(x)) || (x == n && t.contains(r[g].attribute)))) by {
            if g < p.len() {
                assert(p[g].attribute == r[g].attribute);
                assert(p[g].members.contains(x) <==> ((g < gs.len() && gs[g].members.contains(x)) || (x == n && init.contains(p[g].attribute))));
            }
        }
    }
}

/// A class belongs to the group of a name exactly where it declares that name,
/// so a class that declares none is in no group; the names of the groups are
/// exactly the names that the classes declare, and no two groups share one.
pub proof fn lemma_group_membership(cs: Seq<ClassView>)
    requires
        cs.len() <= usize::MAX,
    ensures
        group_names_unique(group_spec(cs)),
        forall|g: int, x: usize| 0 <= g < group_spec(cs).len() ==> (#[trigger] group_spec(cs)[g].members.contains(x) <==> (x < cs.len() && cs[x as int].attributes.contains(group_spec(cs)[g].attribute))),
        forall|x: int, a: Seq<char>| 0 <= x < cs.len() && #[trigger] cs[x].attributes.contains(a) ==> exists|g: int| 0 <= g < group_spec(cs).len() && group_spec(cs)[g].attribute == a,
        forall|g: int| 0 <= g < group_spec(cs).len() ==> exists|x: int| 0 <= x < cs.len() && cs[x].attributes.contains(#[trigger] group_spec(cs)[g].attribute),
    decreases cs.len(),
{
    if cs.len() > 0 {
        let init = cs.drop_last();
        let n = (cs.len() - 1) as usize;
        let c = cs.last();
        let p = group_spec(init);
        lemma_group_membership(init);
        lemma_add_class(p, n, c.attributes);
        let r = group_spec(cs);
        assert(r == add_class(p, n, c.attributes));
        assert(cs[n as int] == c);
        assert forall|x: int| 0 <= x < init.len() implies #[trigger] cs[x] == init[x] by {}
        assert forall|g: int, x: usize| 0 <= g < r.len() implies (#[trigger] r[g].members.contains(x) <==> (x < cs.len() && cs[x as int].attributes.contains(r[g].attribute))) by {
            if g < p.len() {
                assert(r[g].attribute == p[g].attribute);
                assert(p[g].members.contains(x) <==> (x < init.len() && init[x as int].attributes.contains(p[g].attribute)));
            } else {
                if x < n {
                    assert(cs[x as int] == init[x as int]);
                    if init[x as int].attributes.contains(r[g].attribute) {
                        let h = choose|h: int| 0 <= h < p.len() && p[h].attribute == r[g].attribute;
                        assert(r[h].attribute == p[h].attribute);
                        assert(r[h].attribute != r[g].attribute);
                    }
                }
            }
        }
        assert forall|g: int| 0 <= g < r.len() implies exists|x: int| 0 <= x < cs.len() && cs[x].attributes.contains(#[trigger] r[g].attribute) by {
            if g < p.len() {
                assert(r[g].attribute == p[g].attribute);
                let x = choose|x: int| 0 <= x < init.len() && init[x].attributes.contains(p[g].attribute);
                assert(cs[x] == init[x]);
            } else {
                assert(c.attributes.contains(r[g].attribute));
                assert(cs[n as int].attributes.contains(r[g].attribute));
            }
        }
        assert forall|x: int, a: Seq<char>| 0 <= x < cs.len() && #[trigger] cs[x].attributes.contains(a) implies exists|g: int| 0 <= g < r.len() && r[g].attribute == a by {
            if x < n {
                assert(init[x].attributes.contains(a));
                let h = choose|h: int| 0 <= h < p.len() && p[h].attribute == a;
                assert(r[h].attribute == a);
            }
        }
    }
}

/// A name that some class declares needs both templates of its group: where
/// the group of that name has no rendering (its source or its header template
/// is missing or fails), assembling the two files fails.
pub proof fn lemma_declared_group_needs_templates(
    cs: Seq<ClassView>,
    stem: Seq<char>,
    rendered: Seq<Option<(Seq<char>, Seq<char>)>>,
    x: int,
    a: Seq<char>,
)
    requires
        cs.len() <= usize::MAX,
        0 <= x < cs.len(),
        cs[x].attributes.contains(a),
        forall|g: int| 0 <= g < group_spec(cs).len() && #[trigger] group_spec(cs)[g].attribute == a
            ==> g >= rendered.len() || rendered[g] is None,
    ensures
        emit_spec(stem, group_spec(cs), rendered) is Err,
{
    lemma_group_membership(cs);
    let g = choose|g: int| 0 <= g < group_spec(cs).len() && group_spec(cs)[g].attribute == a;
    lemma_missing_rendering_fails(stem, group_spec(cs), rendered, g);
}

proof fn lemma_push_contains(s: Seq<Seq<char>>, x: Seq<char>, a: Seq<char>)
    ensures
        s.push(x).contains(a) <==> (s.contains(a) || a == x),
{
    if s.contains(a) {
        let k = choose|k: int| 0 <= k < s.len() && s[k] == a;
        assert(s.push(x)[k] == a);
    }
    if a == x {
        assert(s.push(x)[s.len() as int] == a);
    }
    if s.push(x).contains(a) {
        let k = choose|k: int| 0 <= k < s.push(x).len() && s.push(x)[k] == a;
        if k < s.len() {
            assert(s[k] == a);
        }
    }
}

/// `a` is a non-empty name among `ns`.
pub open spec fn names_declare(ns: Seq<Seq<char>>, a: Seq<char>) -> bool {
    a.len() > 0 && ns.contains(a)
}

/// Some `derive(...)` list among `lists` has `a` as a trimmed entry.
pub open spec fn lists_declare(lists: Seq<Seq<char>>, a: Seq<char>) -> bool {
    exists|j: int| 0 <= j < lists.len() && names_declare(list_entries(#[trigger] lists[j]), a)
}

/// The attribute text `t` declares the group name `a`.
pub open spec fn text_declares(t: Seq<char>, a: Seq<char>) -> bool {
    if derive_lists(t).len() == 0 {
        is_plain_name(trim(t)) && a == trim(t)
    } else {
        lists_declare(derive_lists(t), a)
    }
}

/// One of the attribute texts `ts` declares `a`.
pub open spec fn texts_declare(ts: Seq<Seq<char>>, a: Seq<char>) -> bool {
    exists|j: int| 0 <= j < ts.len() && text_declares(#[trigger] ts[j], a)
}

/// The match `caps` is well formed, belongs to node `id`, and one of its
/// attribute captures declares `a`.
pub open spec fn match_declares(names: Seq<Seq<char>>, caps: Seq<CaptureView>, id: usize, a: Seq<char>) -> bool {
    &&& interpret(names, caps) is Ok
    &&& interpret(names, caps)->Ok_0.id == id
    &&& texts_declare(interpret(names, caps)->Ok_0.attribute_texts, a)
}

proof fn lemma_add_names_contains(set: Seq<Seq<char>>, ns: Seq<Seq<char>>, a: Seq<char>)
    ensures
        add_names(set, ns).contains(a) <==> (set.contains(a) || names_declare(ns, a)),
    decreases ns.len(),
{
    if ns.len() > 0 {
        let init = ns.drop_last();
        let n = ns.last();
        lemma_add_names_contains(set, init, a);
        let p = add_names(set, init);
        if !(n.len() == 0 || p.contains(n)) {
            lemma_push_contains(p, n, a);
        }
        assert(ns =~= init.push(n));
        lemma_push_contains(init, n, a);
    }
}

proof fn lemma_add_lists_contains(set: Seq<Seq<char>>, lists: Seq<Seq<char>>, a: Seq<char>)
    ensures
        add_lists(set, lists).contains(a) <==> (set.contains(a) || lists_declare(lists, a)),
    decreases lists.len(),
{
    if lists.len() > 0 {
        let init = lists.drop_last();
        lemma_add_lists_contains(set, init, a);
        lemma_add_names_contains(add_lists(set, init), list_entries(lists.last()), a);
        if lists_declare(lists, a) {
            let j = choose|j: int| 0 <= j < lists.len() && names_declare(list_entries(#[trigger] lists[j]), a);
            if j < init.len() {
                assert(init[j] == lists[j]);
            }
        }
        if lists_declare(init, a) {
            let j = choose|j: int| 0 <= j < init.len() && names_declare(list_entries(#[trigger] init[j]), a);
            assert(init[j] == lists[j]);
        }
        assert(lists[lists.len() - 1] == lists.last());
    }
}

proof fn lemma_add_text_contains(set: Seq<Seq<char>>, t: Seq<char>, a: Seq<char>)
    ensures
        add_attribute_text(set, t).contains(a) <==> (set.contains(a) || text_declares(t, a)),
{
    if derive_lists(t).len() == 0 {
        let n = trim(t);
        if is_plain_name(n) && !set.contains(n) {
            lemma_push_contains(set, n, a);
        }
    } else {
        lemma_add_lists_contains(set, derive_lists(t), a);
    }
}

proof fn lemma_add_texts_contains(set: Seq<Seq<char>>, ts: Seq<Seq<char>>, a: Seq<char>)
    ensures
        add_texts(set, ts).contains(a) <==> (set.contains(a) || texts_declare(ts, a)),
    decreases ts.len(),
{
    if ts.len() > 0 {
        let init = ts.drop_last();
        lemma_add_texts_contains(set, init, a);
        lemma_add_text_contains(add_texts(set, init), ts.last(), a);
        if texts_declare(ts, a) {
            let j = choose|j: int| 0 <= j < ts.len() && text_declares(#[trigger] ts[j], a);
            if j < init.len() {
                assert(init[j] == ts[j]);
            }
        }
        if texts_declare(init, a) {
            let j = choose|j: int| 0 <= j < init.len() && text_declares(#[trigger] init[j], a);
            assert(init[j] == ts[j]);
        }
        assert(ts[ts.len() - 1] == ts.last());
    }
}

/// The attribute set of each class is the union, over all matches of its node,
/// of the group names that their attribute captures declare. Along the way:
/// one class per node, the nodes distinct, and every match's node among them.
pub proof fn lemma_class_attributes_are_union(names: Seq<Seq<char>>, ms: Seq<Seq<CaptureView>>)
    requires
        build_state(names, ms) is Ok,
    ensures
        ({
            let st = build_state(names, ms)->Ok_0;
            &&& st.0.len() == st.1.len()
            &&& st.0.len() <= ms.len()
            &&& forall|i: int, j: int| 0 <= i < j < st.0.len() ==> st.0[i] != st.0[j]
            &&& forall|k: int| 0 <= k < ms.len() ==> interpret(names, #[trigger] ms[k]) is Ok
                && st.0.contains(interpret(names, ms[k])->Ok_0.id)
            &&& forall|i: int, a: Seq<char>| 0 <= i < st.1.len() ==> (#[trigger] st.1[i].attributes.contains(a)
                <==> exists|k: int| 0 <= k < ms.len() && match_declares(names, #[trigger] ms[k], st.0[i], a))
        }),
    decreases ms.len(),
{
    if ms.len() > 0 {
        let init = ms.drop_last();
        lemma_class_attributes_are_union(names, init);
        let st0 = build_state(names, init)->Ok_0;
        let m = interpret(names, ms.last())->Ok_0;
        let st = build_state(names, ms)->Ok_0;
        assert(st == step(st0, m));
        assert(ms[ms.len() - 1] == ms.last());
        assert forall|k: int| 0 <= k < init.len() implies #[trigger] ms[k] == init[k] by {}
        if exists|i: int| 0 <= i < st0.0.len() && st0.0[i] == m.id {
            let i0 = choose|i: int| 0 <= i < st0.0.len() && st0.0[i] == m.id;
            assert forall|k: int| 0 <= k < ms.len() implies interpret(names, #[trigger] ms[k]) is Ok
                && st.0.contains(interpret(names, ms[k])->Ok_0.id) by {
                if k == ms.len() - 1 {
                    assert(st.0[i0] == m.id);
                } else {
                    assert(ms[k] == init[k]);
                }
            }
            assert forall|i: int, a: Seq<char>| 0 <= i < st.1.len() implies (#[trigger] st.1[i].attributes.contains(a)
                <==> exists|k: int| 0 <= k < ms.len() && match_declares(names, #[trigger] ms[k], st.0[i], a)) by {
                if i == i0 {
                    lemma_add_texts_contains(st0.1[i].attributes, m.attribute_texts, a);
                    if exists|k: int| 0 <= k < ms.len() && match_declares(names, #[trigger] ms[k], st.0[i], a) {
                        let k = choose|k: int| 0 <= k < ms.len() && match_declares(names, #[trigger] ms[k], st.0[i], a);
                        if k < init.len() {
                            assert(match_declares(names, init[k], st0.0[i], a));
                        }
                    }
                    if st0.1[i].attributes.contains(a) {
                        let k = choose|k: int| 0 <= k < init.len() && match_declares(names, #[trigger] init[k], st0.0[i], a);
                        assert(match_declares(names, ms[k], st.0[i], a));
                    }
                    if texts_declare(m.attribute_texts, a) {
                        assert(match_declares(names, ms[ms.len() - 1], st.0[i], a));
                    }
                } else {
                    if i < i0 {
                        assert(st0.0[i] != st0.0[i0]);
                    } else {
                        assert(st0.0[i0] != st0.0[i]);
                    }
                    if exists|k: int| 0 <= k < ms.len() && match_declares(names, #[trigger] ms[k], st.0[i], a) {
                        let k = choose|k: int| 0 <= k < ms.len() && match_declares(names, #[trigger] ms[k], st.0[i], a);
                        if k < init.len() {
                            assert(match_declares(names, init[k], st0.0[i], a));
                        }
                    }
                    if st0.1[i].attributes.contains(a) {
                        let k = choose|k: int| 0 <= k < init.len() && match_declares(names, #[trigger] init[k], st0.0[i], a);
                        assert(match_declares(names, ms[k], st.0[i], a));
                    }
                }
            }
        } else {
            let n = st0.0.len() as int;
            assert(st.0 == st0.0.push(m.id));
            assert forall|k: int| 0 <= k < ms.len() implies interpret(names, #[trigger] ms[k]) is Ok
                && st.0.contains(interpret(names, ms[k])->Ok_0.id) by {
                if k == ms.len() - 1 {
                    assert(st.0[n] == m.id);
                } else {
                    assert(ms[k] == init[k]);
                    let id = interpret(names, init[k])->Ok_0.id;
                    let h = choose|h: int| 0 <= h < st0.0.len() && st0.0[h] == id;
                    assert(st.0[h] == id);
                }
            }
            assert forall|i: int, a: Seq<char>| 0 <= i < st.1.len() implies (#[trigger] st.1[i].attributes.contains(a)
                <==> exists|k: int| 0 <= k < ms.len() && match_declares(names, #[trigger] ms[k], st.0[i], a)) by {
                if i == n {
                    lemma_add_texts_contains(Seq::empty(), m.attribute_texts, a);
                    if exists|k: int| 0 <= k < ms.len() && match_declares(names, #[trigger] ms[k], st.0[i], a) {
                        let k = choose|k: int| 0 <= k < ms.len() && match_declares(names, #[trigger] ms[k], st.0[i], a);
                        if k < init.len() {
                            assert(ms[k] == init[k]);
                            assert(st0.0.contains(m.id));
                        }
                    }
                    if texts_declare(m.attribute_texts, a) {
                        assert(match_declares(names, ms[ms.len() - 1], st.0[i], a));
                    }
                } else {
                    assert(st.0[i] == st0.0[i]);
                    assert(st.1[i] == st0.1[i]);
                    assert(st0.0[i] != m.id);
                    if exists|k: int| 0 <= k < ms.len() && match_declares(names, #[trigger] ms[k], st.0[i], a) {
                        let k = choose|k: int| 0 <= k < ms.len() && match_declares(names, #[trigger] ms[k], st.0[i], a);
                        if k < init.len() {
                            assert(match_declares(names, init[k], st0.0[i], a));
                        }
                    }
                    if st0.1[i].attributes.contains(a) {
                        let k = choose|k: int| 0 <= k < init.len() && match_declares(names, #[trigger] init[k], st0.0[i], a);
                        assert(match_declares(names, ms[k], st.0[i], a));
                    }
                }
            }
        }
    }
}

/// Some well-formed match has an attribute capture that declares `a`.
pub open spec fn some_match_declares(names: Seq<Seq<char>>, ms: Seq<Seq<CaptureView>>, a: Seq<char>) -> bool {
    exists|k: int|
        0 <= k < ms.len() && interpret(names, #[trigger] ms[k]) is Ok && texts_declare(
            interpret(names, ms[k])->Ok_0.attribute_texts,
            a,
        )
}

/// The groups of the classes built from the matches are named exactly by the
/// group names that the attribute captures of all matches declare.
pub proof fn lemma_groups_are_declared_names(names: Seq<Seq<char>>, ms: Seq<Seq<CaptureView>>, a: Seq<char>)
    requires
        build_spec(names, ms) is Ok,
        ms.len() <= usize::MAX,
    ensures
        (exists|g: int|
            0 <= g < group_spec(build_spec(names, ms)->Ok_0).len() && #[trigger] group_spec(
                build_spec(names, ms)->Ok_0,
            )[g].attribute == a) <==> some_match_declares(names, ms, a),
{
    let st = build_state(names, ms)->Ok_0;
    let cs = st.1;
    assert(build_spec(names, ms)->Ok_0 == cs);
    lemma_class_attributes_are_union(names, ms);
    lemma_group_membership(cs);
    let gs = group_spec(cs);
    if exists|g: int| 0 <= g < gs.len() && #[trigger] gs[g].attribute == a {
        let g = choose|g: int| 0 <= g < gs.len() && #[trigger] gs[g].attribute == a;
        let x = choose|x: int| 0 <= x < cs.len() && cs[x].attributes.contains(#[trigger] gs[g].attribute);
        assert(cs[x].attributes.contains(a));
        let k = choose|k: int| 0 <= k < ms.len() && match_declares(names, #[trigger] ms[k], st.0[x], a);
        assert(interpret(names, ms[k]) is Ok);
    }
    if some_match_declares(names, ms, a) {
        let k = choose|k: int|
            0 <= k < ms.len() && interpret(names, #[trigger] ms[k]) is Ok && texts_declare(
                interpret(names, ms[k])->Ok_0.attribute_texts,
                a,
            );
        let id = interpret(names, ms[k])->Ok_0.id;
        assert(st.0.contains(id));
        let h = choose|h: int| 0 <= h < st.0.len() && st.0[h] == id;
        assert(match_declares(names, ms[k], st.0[h], a));
        assert(cs[h].attributes.contains(a));
        let g = choose|g: int| 0 <= g < gs.len() && gs[g].attribute == a;
        assert(gs[g].attribute == a);
    }
}

/// A group name that some match declares needs both templates of its group:
/// where that group has no rendering (its source or its header template is
/// missing or fails), assembling the two files fails.
pub proof fn lemma_declared_name_needs_templates(
    names: Seq<Seq<char>>,
    ms: Seq<Seq<CaptureView>>,
    stem: Seq<char>,
    rendered: Seq<Option<(Seq<char>, Seq<char>)>>,
    a: Seq<char>,
)
    requires
        build_spec(names, ms) is Ok,
        ms.len() <= usize::MAX,
        some_match_declares(names, ms, a),
        forall|g: int|
            0 <= g < group_spec(build_spec(names, ms)->Ok_0).len() && #[trigger] group_spec(
                build_spec(names, ms)->Ok_0,
            )[g].attribute == a ==> g >= rendered.len() || rendered[g] is None,
    ensures
        emit_spec(stem, group_spec(build_spec(names, ms)->Ok_0), rendered) is Err,
{
    let gs = group_spec(build_spec(names, ms)->Ok_0);
    lemma_groups_are_declared_names(names, ms, a);
    let g = choose|g: int| 0 <= g < gs.len() && #[trigger] gs[g].attribute == a;
    lemma_missing_rendering_fails(stem, gs, rendered, g);
}

} // verus!

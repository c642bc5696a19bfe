//! Partitioning the classes by the group names they declare.
use vstd::prelude::*;

use crate::model::{classes_view, Class, ClassView};
use crate::text::strings_view;

verus! {

/// The classes that declare one group name, as positions in the class sequence.
pub struct AttributeGroup {
    pub attribute: String,
    pub members: Vec<usize>,
}

pub ghost struct GroupView {
    pub attribute: Seq<char>,
    pub members: Seq<usize>,
}

impl View for AttributeGroup {
    type V = GroupView;

    open spec fn view(&self) -> GroupView {
        GroupView { attribute: self.attribute@, members: self.members@ }
    }
}

pub open spec fn groups_view(v: Seq<AttributeGroup>) -> Seq<GroupView> {
    v.map_values(|g: AttributeGroup| g@)
}

/// `gs` with class `c` added to the group of `a`, which comes last if new.
pub open spec fn add_member(gs: Seq<GroupView>, c: usize, a: Seq<char>) -> Seq<GroupView> {
    if exists|i: int| 0 <= i < gs.len() && gs[i].attribute == a {
        let i = choose|i: int| 0 <= i < gs.len() && gs[i].attribute == a;
        gs.update(i, GroupView { attribute: a, members: gs[i].members.push(c) })
    } else {
        gs.push(GroupView { attribute: a, members: seq![c] })
    }
}

/// `gs` with class `c` added to the group of each of `attrs` in turn.
pub open spec fn add_class(gs: Seq<GroupView>, c: usize, attrs: Seq<Seq<char>>) -> Seq<GroupView>
    decreases attrs.len(),
{
    if attrs.len() == 0 {
        gs
    } else {
        add_member(add_class(gs, c, attrs.drop_last()), c, attrs.last())
    }
}

/// The groups of the classes, in the order their names first appear.
pub open spec fn group_spec(cs: Seq<ClassView>) -> Seq<GroupView>
    decreases cs.len(),
{
    if cs.len() == 0 {
        Seq::empty()
    } else {
        add_class(group_spec(cs.drop_last()), (cs.len() - 1) as usize, cs.last().attributes)
    }
}

/// No two groups share a name.
pub open spec fn group_names_unique(gs: Seq<GroupView>) -> bool {
    forall|i: int, j: int| 0 <= i < j < gs.len() ==> gs[i].attribute != gs[j].attribute
}

/// Adds class `c` to the group of `a`.
fn insert_member(groups: &mut Vec<AttributeGroup>, c: usize, a: &String)
    requires
        group_names_unique(groups_view(old(groups)@)),
    ensures
        groups_view(final(groups)@) == add_member(groups_view(old(groups)@), c, a@),
        group_names_unique(groups_view(final(groups)@)),
{
    let ghost gv = groups_view(groups@);
    let mut i: usize = 0;
    while i < groups.len() && groups[i].attribute != *a
        invariant
            groups@ == old(groups)@,
            gv == groups_view(groups@),
            i <= groups.len(),
            forall|j: int| 0 <= j < i ==> gv[j].attribute != a@,
        decreases groups.len() - i,
    {
        i = i + 1;
    }
    if i < groups.len() {
        proof {
            assert(gv[i as int].attribute == a@);
            let k = choose|k: int| 0 <= k < gv.len() && gv[k].attribute == a@;
            if k < i {
                assert(gv[k].attribute != gv[i as int].attribute);
            } else if k > i {
                assert(gv[i as int].attribute != gv[k].attribute);
            }
        }
        let mut g = groups.remove(i);
        g.members.push(c);
        groups.insert(i, g);
        proof {
            assert(groups_view(groups@) =~= gv.update(
                i as int,
                GroupView { attribute: a@, members: gv[i as int].members.push(c) },
            ));
        }
    } else {
        let g = AttributeGroup { attribute: a.clone(), members: vec![c] };
        groups.push(g);
        proof {
            assert(g@.members =~= seq![c]);
            assert(groups_view(groups@) =~= gv.push(GroupView { attribute: a@, members: seq![c] }));
        }
    }
}

/// Groups the classes by the names they declare: for each name, in the order
/// of first appearance, the positions of the classes that declare it, in order.
pub fn group_by_attribute(classes: &Vec<Class>) -> (r: Vec<AttributeGroup>)
    ensures
        groups_view(r@) == group_spec(classes_view(classes@)),
        group_names_unique(groups_view(r@)),
{
    let ghost cv = classes_view(classes@);
    let mut groups: Vec<AttributeGroup> = Vec::new();
    let mut c: usize = 0;
    assert(cv.take(0) =~= Seq::<ClassView>::empty());
    assert(groups_view(groups@) =~= Seq::<GroupView>::empty());
    while c < classes.len()
        invariant
            cv == classes_view(classes@),
            c <= classes.len(),
            groups_view(groups@) == group_spec(cv.take(c as int)),
            group_names_unique(groups_view(groups@)),
        decreases classes.len() - c,
    {
        let attrs = &classes[c].attributes;
        let ghost av = strings_view(attrs@);
        let ghost before = groups_view(groups@);
        assert(cv.take(c + 1).drop_last() =~= cv.take(c as int));
        assert(cv.take(c + 1).last().attributes == av);
        let mut k: usize = 0;
        assert(av.take(0) =~= Seq::<Seq<char>>::empty());
        while k < attrs.len()
            invariant
                av == strings_view(attrs@),
                k <= attrs.len(),
                groups_view(groups@) == add_class(before, c, av.take(k as int)),
                group_names_unique(groups_view(groups@)),
            decreases attrs.len() - k,
        {
            assert(av.take(k + 1).drop_last() =~= av.take(k as int));
            assert(av[k as int] == attrs@[k as int]@);
            insert_member(&mut groups, c, &attrs[k]);
            k = k + 1;
        }
        assert(av.take(k as int) =~= av);
        c = c + 1;
    }
    assert(cv.take(c as int) =~= cv);
    groups
}

} // verus!

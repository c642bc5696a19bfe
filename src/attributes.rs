//! Reading group names out of the text of an attribute capture.
use vstd::prelude::*;
use vstd::string::*;

use crate::text::{split_at_commas, split_commas, strings_view, trim, trimmed};

verus! {

#[verifier::external_type_specification]
#[verifier::external_body]
pub struct ExRegex(regex::Regex);

/// What the pattern `derive\((.*)\)` captures in its group, for each of its
/// successive non-overlapping matches in `text`.
pub uninterp spec fn derive_lists(text: Seq<char>) -> Seq<Seq<char>>;

/// Relies on regex::Regex::new to compile the `derive(...)` pattern. It fails
/// only on an invalid pattern or one over the size limit, which this fixed
/// pattern is not.
#[verifier::external_body]
fn compile_derive_regex() -> (r: Option<regex::Regex>)
    ensures
        r is Some,
{
    regex::Regex::new(r"derive\((.*)\)").ok()
}

/// Relies on regex::Regex::captures_iter: the text of the first group of each
/// successive match. The regex of a `DerivePattern` is always the one that
/// `compile_derive_regex` compiles.
#[verifier::external_body]
fn derive_captures(pattern: &DerivePattern, text: &str) -> (r: Vec<String>)
    ensures
        strings_view(r@) == derive_lists(text@),
{
    pattern.re.captures_iter(text).map(|c| c[1].to_string()).collect()
}

/// The compiled `derive(...)` pattern, built once and handed to the extraction.
pub struct DerivePattern {
    re: regex::Regex,
}

impl DerivePattern {
    pub fn new() -> (r: DerivePattern) {
        DerivePattern { re: compile_derive_regex().unwrap() }
    }
}

/// `set` with the group name `n` added, unless it is empty or already there.
pub open spec fn add_name(set: Seq<Seq<char>>, n: Seq<char>) -> Seq<Seq<char>> {
    if n.len() == 0 || set.contains(n) {
        set
    } else {
        set.push(n)
    }
}

/// `set` with each of `ns` added in turn.
pub open spec fn add_names(set: Seq<Seq<char>>, ns: Seq<Seq<char>>) -> Seq<Seq<char>>
    decreases ns.len(),
{
    if ns.len() == 0 {
        set
    } else {
        add_name(add_names(set, ns.drop_last()), ns.last())
    }
}

/// The trimmed comma-separated entries of a `derive(...)` argument list.
pub open spec fn list_entries(list: Seq<char>) -> Seq<Seq<char>> {
    split_commas(list).map_values(|p: Seq<char>| trim(p))
}

/// `set` with the entries of each argument list added in turn.
pub open spec fn add_lists(set: Seq<Seq<char>>, lists: Seq<Seq<char>>) -> Seq<Seq<char>>
    decreases lists.len(),
{
    if lists.len() == 0 {
        set
    } else {
        add_names(add_lists(set, lists.drop_last()), list_entries(lists.last()))
    }
}

/// A character of an identifier: an ASCII letter, digit or underscore.
pub open spec fn is_name_char(c: char) -> bool {
    let u = c as u32;
    (48 <= u <= 57) || (65 <= u <= 90) || (97 <= u <= 122) || u == 95
}

/// `s` is an identifier: not empty, of identifier characters, not led by a digit.
pub open spec fn is_plain_name(s: Seq<char>) -> bool {
    &&& s.len() > 0
    &&& !(48 <= s[0] as u32 <= 57)
    &&& forall|i: int| 0 <= i < s.len() ==> is_name_char(#[trigger] s[i])
}

/// `set` with the group names of one attribute text added: the entries of its
/// `derive(...)` lists, or, where it has none, the trimmed text as one name
/// where that is a bare identifier. Any other attribute (`[[nodiscard]]`) adds
/// nothing.
pub open spec fn add_attribute_text(set: Seq<Seq<char>>, text: Seq<char>) -> Seq<Seq<char>> {
    let lists = derive_lists(text);
    if lists.len() == 0 {
        if is_plain_name(trim(text)) {
            add_name(set, trim(text))
        } else {
            set
        }
    } else {
        add_lists(set, lists)
    }
}

/// Adds the group name `n` to `set` unless it is empty or already there.
pub fn insert_name(set: &mut Vec<String>, n: String)
    ensures
        strings_view(final(set)@) == add_name(strings_view(old(set)@), n@),
        strings_view(old(set)@).no_duplicates() ==> strings_view(final(set)@).no_duplicates(),
{
    if n.unicode_len() == 0 {
        return;
    }
    let mut i: usize = 0;
    while i < set.len()
        invariant
            set@ == old(set)@,
            i <= set.len(),
            forall|j: int| 0 <= j < i ==> set@[j]@ != n@,
        decreases set.len() - i,
    {
        if set[i] == n {
            assert(strings_view(set@)[i as int] == n@);
            return;
        }
        i = i + 1;
    }
    proof {
        assert(!strings_view(set@).contains(n@)) by {
            if strings_view(set@).contains(n@) {
                let k = choose|k: int| 0 <= k < set.len() && strings_view(set@)[k] == n@;
                assert(set@[k]@ == n@);
            }
        }
        assert(strings_view(set@.push(n)) =~= strings_view(set@).push(n@));
        let sv = strings_view(set@);
        let sn = sv.push(n@);
        if sv.no_duplicates() {
            assert forall|a: int, b: int| 0 <= a < sn.len() && 0 <= b < sn.len() && a != b implies sn[a]
                != sn[b] by {
                if a == sv.len() {
                    assert(sn[b] == sv[b]);
                } else if b == sv.len() {
                    assert(sn[a] == sv[a]);
                } else {
                    assert(sn[a] == sv[a] && sn[b] == sv[b]);
                }
            }
        }
    }
    set.push(n);
}

/// Adds the trimmed comma-separated entries of `list` to `set`.
fn insert_list_entries(set: &mut Vec<String>, list: &str)
    ensures
        strings_view(final(set)@) == add_names(strings_view(old(set)@), list_entries(list@)),
        strings_view(old(set)@).no_duplicates() ==> strings_view(final(set)@).no_duplicates(),
{
    let pieces = split_at_commas(list);
    let ghost entries = list_entries(list@);
    let mut k: usize = 0;
    assert(entries.take(0) =~= Seq::<Seq<char>>::empty());
    while k < pieces.len()
        invariant
            strings_view(pieces@) == split_commas(list@),
            entries == list_entries(list@),
            entries.len() == pieces.len(),
            k <= pieces.len(),
            strings_view(set@) == add_names(strings_view(old(set)@), entries.take(k as int)),
            strings_view(old(set)@).no_duplicates() ==> strings_view(set@).no_duplicates(),
        decreases pieces.len() - k,
    {
        let name = trimmed(pieces[k].as_str());
        assert(entries.take(k + 1).drop_last() =~= entries.take(k as int));
        assert(strings_view(pieces@)[k as int] == pieces@[k as int]@);
        insert_name(set, name);
        k = k + 1;
    }
    assert(entries.take(k as int) =~= entries);
}

/// Whether `s` is a bare identifier.
pub fn plain_name(s: &str) -> (r: bool)
    ensures
        r == is_plain_name(s@),
{
    let n = s.unicode_len();
    if n == 0 {
        return false;
    }
    let first = s.get_char(0) as u32;
    if 48 <= first && first <= 57 {
        return false;
    }
    let mut i: usize = 0;
    while i < n
        invariant
            n == s@.len(),
            i <= n,
            forall|j: int| 0 <= j < i ==> is_name_char(#[trigger] s@[j]),
        decreases n - i,
    {
        let u = s.get_char(i) as u32;
        if !((48 <= u && u <= 57) || (65 <= u && u <= 90) || (97 <= u && u <= 122) || u == 95) {
            assert(!is_name_char(s@[i as int]));
            return false;
        }
        i = i + 1;
    }
    true
}

/// Adds the trimmed entries of each captured `derive(...)` argument list in turn.
pub fn insert_derive_lists(set: &mut Vec<String>, lists: &Vec<String>)
    ensures
        strings_view(final(set)@) == add_lists(strings_view(old(set)@), strings_view(lists@)),
        strings_view(old(set)@).no_duplicates() ==> strings_view(final(set)@).no_duplicates(),
{
    let ghost ls = strings_view(lists@);
    let mut k: usize = 0;
    assert(ls.take(0) =~= Seq::<Seq<char>>::empty());
    while k < lists.len()
        invariant
            ls == strings_view(lists@),
            k <= lists.len(),
            strings_view(set@) == add_lists(strings_view(old(set)@), ls.take(k as int)),
            strings_view(old(set)@).no_duplicates() ==> strings_view(set@).no_duplicates(),
        decreases lists.len() - k,
    {
        assert(ls.take(k + 1).drop_last() =~= ls.take(k as int));
        assert(ls[k as int] == lists@[k as int]@);
        insert_list_entries(set, lists[k].as_str());
        k = k + 1;
    }
    assert(ls.take(k as int) =~= ls);
}

/// Adds the group names that one attribute text declares.
pub fn insert_attribute_names(pattern: &DerivePattern, set: &mut Vec<String>, text: &str)
    ensures
        strings_view(final(set)@) == add_attribute_text(strings_view(old(set)@), text@),
        strings_view(old(set)@).no_duplicates() ==> strings_view(final(set)@).no_duplicates(),
{
    let lists = derive_captures(pattern, text);
    if lists.len() == 0 {
        let name = trimmed(text);
        if plain_name(name.as_str()) {
            insert_name(set, name);
        }
        return;
    }
    insert_derive_lists(set, &lists);
}

} // verus!

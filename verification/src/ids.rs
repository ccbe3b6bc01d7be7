//! Item ids: comparing them and finding an item by its id.

use vstd::prelude::*;
use crate::item::LayoutItem;
use vstd::string::StringSliceAdditionalSpecFns;

verus! {

broadcast use vstd::utf8::encode_utf8_decode_utf8;

/// Compares two strings by their characters.
pub fn str_eq(a: &str, b: &str) -> (r: bool)
    ensures
        r == (a@ == b@),
{
    let ab = a.as_bytes();
    let bb = b.as_bytes();
    proof {
        assert(vstd::utf8::decode_utf8(vstd::utf8::encode_utf8(a@)) == a@);
        assert(vstd::utf8::decode_utf8(vstd::utf8::encode_utf8(b@)) == b@);
    }
    if ab.len() != bb.len() {
        return false;
    }
    let mut i: usize = 0;
    while i < ab.len()
        invariant
            ab@ == a.spec_bytes(),
            bb@ == b.spec_bytes(),
            ab@.len() == bb@.len(),
            i <= ab@.len(),
            forall|j: int| 0 <= j < i ==> ab@[j] == bb@[j],
        decreases ab@.len() - i,
    {
        if ab[i] != bb[i] {
            return false;
        }
        i = i + 1;
    }
    assert(ab@ =~= bb@);
    true
}

/// The index of the first item whose id is `id`, or -1 when there is none.
pub open spec fn index_of_id(s: Seq<LayoutItem>, id: Seq<char>) -> int
    decreases s.len(),
{
    if s.len() == 0 {
        -1
    } else if s[0].id@ == id {
        0
    } else {
        let r = index_of_id(s.drop_first(), id);
        if r < 0 {
            -1
        } else {
            r + 1
        }
    }
}

/// What [`index_of_id`] means: the first match, or -1 with no match at all.
pub proof fn index_of_id_meaning(s: Seq<LayoutItem>, id: Seq<char>)
    ensures
        -1 <= index_of_id(s, id) < s.len(),
        index_of_id(s, id) >= 0 ==> s[index_of_id(s, id)].id@ == id,
        forall|j: int| 0 <= j < index_of_id(s, id) ==> s[j].id@ != id,
        index_of_id(s, id) < 0 ==> forall|j: int| 0 <= j < s.len() ==> s[j].id@ != id,
    decreases s.len(),
{
    if s.len() > 0 && s[0].id@ != id {
        index_of_id_meaning(s.drop_first(), id);
        assert forall|j: int| 0 < j < s.len() implies s[j] == s.drop_first()[j - 1] by {}
    }
}

/// The first index is fixed by the ids alone: two layouts whose items have the
/// same ids, position by position, give the same index.
pub proof fn index_of_id_same_ids(s: Seq<LayoutItem>, t: Seq<LayoutItem>, id: Seq<char>)
    requires
        s.len() == t.len(),
        forall|j: int| 0 <= j < s.len() ==> s[j].id@ == t[j].id@,
    ensures
        index_of_id(s, id) == index_of_id(t, id),
    decreases s.len(),
{
    if s.len() > 0 {
        assert forall|j: int| 0 <= j < s.len() - 1 implies s.drop_first()[j].id@
            == t.drop_first()[j].id@ by {
            assert(s[j + 1].id@ == t[j + 1].id@);
        }
        index_of_id_same_ids(s.drop_first(), t.drop_first(), id);
    }
}

/// Finds the position of the first item whose id is `id`.
pub fn position_of_id(layout: &Vec<LayoutItem>, id: &str) -> (r: Option<usize>)
    ensures
        match r {
            Some(i) => i < layout@.len() && i == index_of_id(layout@, id@),
            None => index_of_id(layout@, id@) < 0,
        },
{
    proof {
        index_of_id_meaning(layout@, id@);
    }
    let mut i: usize = 0;
    while i < layout.len()
        invariant
            i <= layout@.len(),
            forall|j: int| 0 <= j < i ==> layout@[j].id@ != id@,
            -1 <= index_of_id(layout@, id@) < layout@.len(),
            index_of_id(layout@, id@) >= 0 ==> layout@[index_of_id(layout@, id@)].id@ == id@,
            forall|j: int| 0 <= j < index_of_id(layout@, id@) ==> layout@[j].id@ != id@,
            index_of_id(layout@, id@) < 0 ==> forall|j: int|
                0 <= j < layout@.len() ==> layout@[j].id@ != id@,
        decreases layout@.len() - i,
    {
        if str_eq(layout[i].id.as_str(), id) {
            return Some(i);
        }
        i = i + 1;
    }
    None
}

} // verus!

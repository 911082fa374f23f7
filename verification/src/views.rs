//! Derived views over the sparse collections: the named-resource accessor
//! and the flag-membership accessor. Both work by value equality, never by
//! index, and tolerate absent entries and duplicates.

use vstd::prelude::*;
use crate::model::{MetaResources, MetaResourcesV};

verus! {

/// Index of the first entry named `name`, or -1 if there is none.
pub open spec fn resource_index(s: Seq<MetaResourcesV>, name: Seq<char>) -> int
    decreases s.len(),
{
    if s.len() == 0 {
        -1
    } else if s[0].meta_row == name {
        0
    } else {
        let r = resource_index(s.drop_first(), name);
        if r < 0 {
            -1
        } else {
            r + 1
        }
    }
}

pub open spec fn has_resource(s: Seq<MetaResourcesV>, name: Seq<char>) -> bool {
    resource_index(s, name) >= 0
}

/// What a read of the named resource returns: the first matching count,
/// or a synthesized zero when the entry is absent.
pub open spec fn spec_resource_get(s: Seq<MetaResourcesV>, name: Seq<char>) -> i64 {
    if has_resource(s, name) {
        s[resource_index(s, name)].count
    } else {
        0
    }
}

/// What a write of the named resource leaves behind: the first matching
/// entry updated in place, or a fresh entry appended.
pub open spec fn spec_resource_set(
    s: Seq<MetaResourcesV>,
    name: Seq<char>,
    count: i64,
) -> Seq<MetaResourcesV> {
    if has_resource(s, name) {
        s.update(resource_index(s, name), MetaResourcesV { meta_row: name, count })
    } else {
        s.push(MetaResourcesV { meta_row: name, count })
    }
}

/// `resource_index` finds the first match, and only fails when nothing
/// matches.
pub proof fn lemma_resource_index(s: Seq<MetaResourcesV>, name: Seq<char>)
    ensures
        resource_index(s, name) >= 0 ==> resource_index(s, name) < s.len()
            && s[resource_index(s, name)].meta_row == name
            && (forall|k: int| 0 <= k < resource_index(s, name) ==> s[k].meta_row != name),
        resource_index(s, name) < 0 ==> (forall|k: int|
            0 <= k < s.len() ==> s[k].meta_row != name),
    decreases s.len(),
{
    if s.len() > 0 && s[0].meta_row != name {
        lemma_resource_index(s.drop_first(), name);
        assert forall|k: int| 0 <= k < s.len() && resource_index(s, name) < 0 implies s[k].meta_row
            != name by {
            if k > 0 {
                assert(s.drop_first()[k - 1] == s[k]);
            }
        }
        if resource_index(s, name) >= 0 {
            assert forall|k: int| 0 <= k < resource_index(s, name) implies s[k].meta_row != name by {
                if k > 0 {
                    assert(s.drop_first()[k - 1] == s[k]);
                }
            }
        }
    }
}

/// Read a named resource: the first matching count, or 0 when absent.
/// Never mutates the list.
pub fn resource_get(list: &Vec<MetaResources>, name: &String) -> (r: i64)
    ensures
        r == spec_resource_get(list.deep_view(), name@),
{
    let ghost s = list.deep_view();
    let mut i: usize = 0;
    while i < list.len()
        invariant
            0 <= i <= list.len(),
            s == list.deep_view(),
            s.len() == list.len(),
            forall|k: int| 0 <= k < i ==> s[k].meta_row != name@,
        decreases list.len() - i,
    {
        assert(s[i as int] == list[i as int].deep_view());
        if list[i].meta_row == *name {
            proof {
                lemma_resource_index(s, name@);
                assert(has_resource(s, name@));
                assert(resource_index(s, name@) == i);
            }
            return list[i].count;
        }
        i += 1;
    }
    proof {
        lemma_resource_index(s, name@);
        assert(!has_resource(s, name@));
    }
    0
}

/// Write a named resource: update the first matching entry in place, or
/// append a fresh entry. The entry is present afterwards either way.
pub fn resource_set(list: &mut Vec<MetaResources>, name: &String, count: i64)
    ensures
        final(list).deep_view() == spec_resource_set(old(list).deep_view(), name@, count),
        has_resource(final(list).deep_view(), name@),
{
    let ghost s = old(list).deep_view();
    proof {
        lemma_resource_index(s, name@);
    }
    let mut i: usize = 0;
    while i < list.len()
        invariant
            0 <= i <= list.len(),
            *list == *old(list),
            s == list.deep_view(),
            s.len() == list.len(),
            forall|k: int| 0 <= k < i ==> s[k].meta_row != name@,
        decreases list.len() - i,
    {
        assert(s[i as int] == list[i as int].deep_view());
        if list[i].meta_row == *name {
            proof {
                lemma_resource_index(s, name@);
                assert(resource_index(s, name@) == i);
            }
            let entry = MetaResources { meta_row: name.clone(), count };
            list.remove(i);
            list.insert(i, entry);
            proof {
                assert(list.deep_view() =~= s.update(
                    i as int,
                    MetaResourcesV { meta_row: name@, count },
                ));
                lemma_resource_index(list.deep_view(), name@);
                assert(list.deep_view()[i as int].meta_row == name@);
                if resource_index(list.deep_view(), name@) < 0 {
                    assert(false);
                }
            }
            return ;
        }
        i += 1;
    }
    proof {
        lemma_resource_index(s, name@);
        assert(!has_resource(s, name@));
    }
    let entry = MetaResources { meta_row: name.clone(), count };
    list.push(entry);
    proof {
        assert(list.deep_view() =~= s.push(MetaResourcesV { meta_row: name@, count }));
        lemma_resource_index(list.deep_view(), name@);
        assert(list.deep_view()[s.len() as int].meta_row == name@);
        if resource_index(list.deep_view(), name@) < 0 {
            assert(false);
        }
    }
}

/// Membership test for a flag code.
pub fn flag_get(flags: &Vec<i64>, flag: i64) -> (r: bool)
    ensures
        r == flags@.contains(flag),
{
    let mut i: usize = 0;
    while i < flags.len()
        invariant
            0 <= i <= flags.len(),
            forall|k: int| 0 <= k < i ==> flags@[k] != flag,
        decreases flags.len() - i,
    {
        if flags[i] == flag {
            return true;
        }
        i += 1;
    }
    assert(!flags@.contains(flag)) by {
        if flags@.contains(flag) {
            let k = choose|k: int| 0 <= k < flags@.len() && flags@[k] == flag;
            assert(flags@[k] != flag);
        }
    }
    false
}

/// Set or clear a flag code. Setting inserts the code only when absent;
/// clearing removes every occurrence, duplicates included.
pub fn flag_set(flags: &mut Vec<i64>, flag: i64, value: bool)
    ensures
        value && old(flags)@.contains(flag) ==> final(flags)@ == old(flags)@,
        value && !old(flags)@.contains(flag) ==> final(flags)@ == old(flags)@.push(flag),
        !value ==> final(flags)@ == old(flags)@.filter(|x: i64| x != flag),
{
    if value {
        if !flag_get(flags, flag) {
            flags.push(flag);
        }
    } else {
        let mut out: Vec<i64> = Vec::new();
        let mut i: usize = 0;
        while i < flags.len()
            invariant
                0 <= i <= flags.len(),
                *flags == *old(flags),
                out@ == flags@.take(i as int).filter(|x: i64| x != flag),
            decreases flags.len() - i,
        {
            proof {
                assert(flags@.take(i + 1).drop_last() =~= flags@.take(i as int));
                assert(flags@.take(i + 1).last() == flags@[i as int]);
                reveal_with_fuel(Seq::filter, 2);
            }
            if flags[i] != flag {
                out.push(flags[i]);
            }
            i += 1;
        }
        assert(flags@.take(flags@.len() as int) =~= flags@);
        *flags = out;
    }
}

} // verus!

//! The bulk mutation engine: reset and unlock-all operations over the flat
//! talent collection, driven by the reference tables, plus the small
//! in-memory part of restoring a character.
//!
//! Every bulk operation is a full remove-then-recreate. The order in which
//! an unlock-all rebuilds its category is the table's file order, which is
//! deterministic.

use vstd::prelude::*;
use crate::model::{Character, Profile, Talent, TalentV};
use crate::tables::{NameSet, RankTable, RefTables, names_of};

verus! {

broadcast use vstd::prelude::Seq::filter_distributes_over_add;

/// The entries of `s` whose name is outside `names`, in their original
/// relative order.
pub open spec fn kept(s: Seq<TalentV>, names: Seq<Seq<char>>) -> Seq<TalentV> {
    s.filter(|t: TalentV| !names.contains(t.row_name))
}

/// One rank-`rank` entry per name, in table order.
pub open spec fn ranked(names: Seq<Seq<char>>, rank: i64) -> Seq<TalentV> {
    names.map_values(|n: Seq<char>| TalentV { row_name: n, rank: rank })
}

/// Every survivor of `kept` is named outside the table.
pub proof fn lemma_kept_elems(s: Seq<TalentV>, names: Seq<Seq<char>>)
    ensures
        forall|i: int|
            0 <= i < kept(s, names).len() ==> !names.contains(
                #[trigger] kept(s, names)[i].row_name,
            ),
    decreases s.len(),
{
    reveal_with_fuel(Seq::<TalentV>::filter, 2);
    if s.len() > 0 {
        lemma_kept_elems(s.drop_last(), names);
        assert forall|i: int| 0 <= i < kept(s, names).len() implies !names.contains(
            #[trigger] kept(s, names)[i].row_name,
        ) by {
            reveal_with_fuel(Seq::<TalentV>::filter, 2);
            if i < kept(s.drop_last(), names).len() {
                assert(kept(s, names)[i] == kept(s.drop_last(), names)[i]);
            } else {
                assert(kept(s, names)[i] == s.last());
            }
        }
    }
}

/// A list free of table names passes through `kept` unchanged: the other
/// categories keep their entries and their relative order.
pub proof fn lemma_kept_no_hits(s: Seq<TalentV>, names: Seq<Seq<char>>)
    requires
        forall|i: int| 0 <= i < s.len() ==> !names.contains(#[trigger] s[i].row_name),
    ensures
        kept(s, names) == s,
    decreases s.len(),
{
    reveal_with_fuel(Seq::<TalentV>::filter, 2);
    if s.len() == 0 {
        assert(kept(s, names) =~= s);
    } else {
        assert(forall|i: int|
            0 <= i < s.drop_last().len() ==> !names.contains(
                #[trigger] s.drop_last()[i].row_name,
            ));
        lemma_kept_no_hits(s.drop_last(), names);
        assert(!names.contains(s.last().row_name));
        assert(kept(s, names) =~= s);
    }
}

/// A list made only of table names is removed whole.
pub proof fn lemma_kept_all_hits(s: Seq<TalentV>, names: Seq<Seq<char>>)
    requires
        forall|i: int| 0 <= i < s.len() ==> names.contains(#[trigger] s[i].row_name),
    ensures
        kept(s, names) == Seq::<TalentV>::empty(),
    decreases s.len(),
{
    reveal_with_fuel(Seq::<TalentV>::filter, 2);
    if s.len() == 0 {
        assert(kept(s, names) =~= Seq::<TalentV>::empty());
    } else {
        assert(forall|i: int|
            0 <= i < s.drop_last().len() ==> names.contains(#[trigger] s.drop_last()[i].row_name));
        lemma_kept_all_hits(s.drop_last(), names);
        assert(names.contains(s.last().row_name));
        assert(kept(s, names) =~= Seq::<TalentV>::empty());
    }
}

/// Unlocking a whole category is idempotent: doing it twice leaves the very
/// sequence one application left, for any rebuilt rows drawn from the table.
pub proof fn lemma_unlock_idempotent(s: Seq<TalentV>, names: Seq<Seq<char>>, rows: Seq<TalentV>)
    requires
        forall|i: int| 0 <= i < rows.len() ==> names.contains(#[trigger] rows[i].row_name),
    ensures
        kept(kept(s, names) + rows, names) + rows == kept(s, names) + rows,
{
    lemma_kept_elems(s, names);
    lemma_kept_no_hits(kept(s, names), names);
    lemma_kept_all_hits(rows, names);
    assert(kept(kept(s, names) + rows, names) == kept(kept(s, names), names) + kept(rows, names));
    assert(kept(kept(s, names) + rows, names) =~= kept(s, names));
}

/// Unlocking every talent twice, against the leveled table, leaves the
/// sequence one application left: the resulting name-to-rank set of
/// `unlock_all_talents` is the same after one and after two applications.
pub proof fn lemma_unlock_rows_idempotent(s: Seq<TalentV>, rows: Seq<TalentV>)
    ensures
        kept(kept(s, names_of(rows)) + rows, names_of(rows)) + rows == kept(s, names_of(rows))
            + rows,
{
    lemma_rows_named(rows);
    lemma_unlock_idempotent(s, names_of(rows), rows);
}

/// The rank-1 unlock-alls are idempotent the same way.
pub proof fn lemma_unlock_ranked_idempotent(s: Seq<TalentV>, names: Seq<Seq<char>>, rank: i64)
    ensures
        kept(kept(s, names) + ranked(names, rank), names) + ranked(names, rank) == kept(s, names)
            + ranked(names, rank),
{
    lemma_ranked_named(names, rank);
    lemma_unlock_idempotent(s, names, ranked(names, rank));
}

/// After an unlock-all whose rebuilt rows carry distinct table names, at
/// most one entry per table name stands in the result: two entries that
/// share a name are both outside the table. The builders guarantee the
/// distinctness (`NameSet::wf`, `RankTable::wf`).
pub proof fn lemma_unlock_one_per_name(s: Seq<TalentV>, names: Seq<Seq<char>>, rows: Seq<TalentV>)
    requires
        forall|i: int| 0 <= i < rows.len() ==> names.contains(#[trigger] rows[i].row_name),
        forall|a: int, b: int|
            0 <= a < b < rows.len() ==> (#[trigger] rows[a]).row_name != (
            #[trigger] rows[b]).row_name,
    ensures
        forall|i: int, j: int|
            0 <= i < j < (kept(s, names) + rows).len() && (#[trigger] (kept(s, names)
                + rows)[i]).row_name == (#[trigger] (kept(s, names) + rows)[j]).row_name
                ==> !names.contains((kept(s, names) + rows)[i].row_name),
{
    lemma_kept_elems(s, names);
    let r = kept(s, names) + rows;
    let m = kept(s, names).len();
    assert forall|i: int, j: int|
        0 <= i < j < r.len() && (#[trigger] r[i]).row_name == (#[trigger] r[j]).row_name implies
        !names.contains(r[i].row_name) by {
        if names.contains(r[i].row_name) {
            assert(i >= m) by {
                if i < m {
                    assert(r[i] == kept(s, names)[i]);
                }
            }
            assert(j >= m);
            assert(r[i] == rows[i - m]);
            assert(r[j] == rows[j - m]);
        }
    }
}

/// The rows an unlock-all of the leveled table appends all carry table
/// names.
pub proof fn lemma_rows_named(rows: Seq<TalentV>)
    ensures
        forall|i: int| 0 <= i < rows.len() ==> names_of(rows).contains(#[trigger] rows[i].row_name),
{
    assert forall|i: int| 0 <= i < rows.len() implies names_of(rows).contains(
        #[trigger] rows[i].row_name,
    ) by {
        assert(names_of(rows)[i] == rows[i].row_name);
    }
}

/// The entries a rank-1 rebuild appends all carry table names.
pub proof fn lemma_ranked_named(names: Seq<Seq<char>>, rank: i64)
    ensures
        ranked(names, rank).len() == names.len(),
        forall|i: int|
            0 <= i < ranked(names, rank).len() ==> names.contains(
                #[trigger] ranked(names, rank)[i].row_name,
            ),
{
    assert forall|i: int| 0 <= i < ranked(names, rank).len() implies names.contains(
        #[trigger] ranked(names, rank)[i].row_name,
    ) by {
        assert(ranked(names, rank)[i].row_name == names[i]);
    }
}

/// Drop every entry whose name is in the unleveled table.
fn retain_not_in_set(talents: &mut Vec<Talent>, table: &NameSet)
    ensures
        final(talents).deep_view() == kept(old(talents).deep_view(), table.name_seq()),
{
    let ghost s = old(talents).deep_view();
    proof {
        reveal_with_fuel(Seq::<TalentV>::filter, 1);
        assert(s.take(0) =~= Seq::<TalentV>::empty());
    }
    let mut out: Vec<Talent> = Vec::new();
    let mut i: usize = 0;
    while i < talents.len()
        invariant
            0 <= i <= talents.len(),
            *talents == *old(talents),
            s == talents.deep_view(),
            s.len() == talents.len(),
            out.deep_view() =~~= kept(s.take(i as int), table.name_seq()),
        decreases talents.len() - i,
    {
        assert(s[i as int] == talents[i as int].deep_view());
        proof {
            reveal_with_fuel(Seq::<TalentV>::filter, 2);
            assert(s.take(i + 1).drop_last() =~= s.take(i as int));
            assert(s.take(i + 1).last() == s[i as int]);
        }
        if !table.contains_name(&talents[i].row_name) {
            out.push(talents[i].duplicate());
        }
        i += 1;
    }
    assert(s.take(s.len() as int) =~= s);
    *talents = out;
}

/// Drop every entry whose name is in the leveled table.
fn retain_not_in_rows(talents: &mut Vec<Talent>, table: &RankTable)
    ensures
        final(talents).deep_view() == kept(old(talents).deep_view(), table.name_seq()),
{
    let ghost s = old(talents).deep_view();
    proof {
        reveal_with_fuel(Seq::<TalentV>::filter, 1);
        assert(s.take(0) =~= Seq::<TalentV>::empty());
    }
    let mut out: Vec<Talent> = Vec::new();
    let mut i: usize = 0;
    while i < talents.len()
        invariant
            0 <= i <= talents.len(),
            *talents == *old(talents),
            s == talents.deep_view(),
            s.len() == talents.len(),
            out.deep_view() =~~= kept(s.take(i as int), table.name_seq()),
        decreases talents.len() - i,
    {
        assert(s[i as int] == talents[i as int].deep_view());
        proof {
            reveal_with_fuel(Seq::<TalentV>::filter, 2);
            assert(s.take(i + 1).drop_last() =~= s.take(i as int));
            assert(s.take(i + 1).last() == s[i as int]);
        }
        if !table.contains_name(&talents[i].row_name) {
            out.push(talents[i].duplicate());
        }
        i += 1;
    }
    assert(s.take(s.len() as int) =~= s);
    *talents = out;
}

/// Append one rank-`rank` entry per table name, in table order.
fn push_ranked(talents: &mut Vec<Talent>, table: &NameSet, rank: i64)
    ensures
        final(talents).deep_view() == old(talents).deep_view() + ranked(table.name_seq(), rank),
{
    let ghost s = old(talents).deep_view();
    let mut i: usize = 0;
    while i < table.names.len()
        invariant
            0 <= i <= table.names.len(),
            talents.deep_view() =~~= s + ranked(table.name_seq().take(i as int), rank),
            table.name_seq().len() == table.names.len(),
        decreases table.names.len() - i,
    {
        assert(table.name_seq()[i as int] == table.names[i as int]@);
        let ghost before = talents.deep_view();
        talents.push(Talent { row_name: table.names[i].clone(), rank });
        proof {
            assert(talents.deep_view() =~~= before.push(
                TalentV { row_name: table.name_seq()[i as int], rank },
            ));
            assert(ranked(table.name_seq().take(i + 1), rank) =~~= ranked(
                table.name_seq().take(i as int),
                rank,
            ).push(TalentV { row_name: table.name_seq()[i as int], rank }));
            assert(talents.deep_view() =~~= s + ranked(table.name_seq().take(i + 1), rank));
        }
        i += 1;
    }
    assert(table.name_seq().take(table.name_seq().len() as int) =~= table.name_seq());
    assert(talents.deep_view() =~~= s + ranked(table.name_seq(), rank));
}

/// Append every row of the leveled table, at its recorded max rank, in
/// table order.
fn push_rows(talents: &mut Vec<Talent>, table: &RankTable)
    ensures
        final(talents).deep_view() == old(talents).deep_view() + table.rows_view(),
{
    let ghost s = old(talents).deep_view();
    let mut i: usize = 0;
    while i < table.rows.len()
        invariant
            0 <= i <= table.rows.len(),
            talents.deep_view() =~~= s + table.rows_view().take(i as int),
            table.rows_view().len() == table.rows.len(),
        decreases table.rows.len() - i,
    {
        assert(table.rows_view()[i as int] == table.rows[i as int].deep_view());
        let ghost before = talents.deep_view();
        talents.push(table.rows[i].duplicate());
        proof {
            assert(talents.deep_view() =~~= before.push(table.rows_view()[i as int]));
            assert(table.rows_view().take(i + 1) =~= table.rows_view().take(i as int).push(
                table.rows_view()[i as int],
            ));
            assert(talents.deep_view() =~~= s + table.rows_view().take(i + 1));
        }
        i += 1;
    }
    assert(table.rows_view().take(table.rows_view().len() as int) =~= table.rows_view());
    assert(talents.deep_view() =~~= s + table.rows_view());
}

impl Character {
    /// Set experience to the level-cap sentinel.
    pub fn level_to_max(&mut self)
        ensures
            *final(self) == (Character { xp: 99_999_999i64, ..*old(self) }),
    {
        self.xp = 99_999_999;
    }

    /// Remove every entry whose name is in the Talent table; nothing is
    /// rebuilt. Entries of other categories stay, in order.
    pub fn reset_talents(&mut self, tables: &RefTables)
        ensures
            final(self).talents.deep_view() == kept(
                old(self).talents.deep_view(),
                tables.talents.name_seq(),
            ),
            *final(self) == (Character { talents: final(self).talents, ..*old(self) }),
    {
        retain_not_in_rows(&mut self.talents, &tables.talents);
    }

    /// Remove every entry whose name is in the Blueprint table.
    pub fn reset_blueprints(&mut self, tables: &RefTables)
        ensures
            final(self).talents.deep_view() == kept(
                old(self).talents.deep_view(),
                tables.blueprints.name_seq(),
            ),
            *final(self) == (Character { talents: final(self).talents, ..*old(self) }),
    {
        retain_not_in_set(&mut self.talents, &tables.blueprints);
    }

    /// Remove the Talent-table entries, then append one entry per table
    /// row at that row's max rank, in table order.
    pub fn unlock_all_talents(&mut self, tables: &RefTables)
        ensures
            final(self).talents.deep_view() == kept(
                old(self).talents.deep_view(),
                tables.talents.name_seq(),
            ) + tables.talents.rows_view(),
            *final(self) == (Character { talents: final(self).talents, ..*old(self) }),
    {
        retain_not_in_rows(&mut self.talents, &tables.talents);
        push_rows(&mut self.talents, &tables.talents);
    }

    /// Remove the Blueprint-table entries, then append a rank-1 entry per
    /// table name, in table order.
    pub fn unlock_all_blueprints(&mut self, tables: &RefTables)
        ensures
            final(self).talents.deep_view() == kept(
                old(self).talents.deep_view(),
                tables.blueprints.name_seq(),
            ) + ranked(tables.blueprints.name_seq(), 1),
            *final(self) == (Character { talents: final(self).talents, ..*old(self) }),
    {
        retain_not_in_set(&mut self.talents, &tables.blueprints);
        push_ranked(&mut self.talents, &tables.blueprints, 1);
    }

    /// Clear the dead and abandoned marks. The file resynchronization that
    /// completes a restore is driven by the caller from the codec's
    /// contracts.
    pub fn restore(&mut self)
        ensures
            *final(self) == (Character { is_dead: false, is_abandoned: false, ..*old(self) }),
    {
        self.is_dead = false;
        self.is_abandoned = false;
    }
}

impl Profile {
    /// Remove the Prospect-table entries, then append a rank-1 entry per
    /// table name, in table order.
    pub fn unlock_all_prospects(&mut self, tables: &RefTables)
        ensures
            final(self).talents.deep_view() == kept(
                old(self).talents.deep_view(),
                tables.prospects.name_seq(),
            ) + ranked(tables.prospects.name_seq(), 1),
            *final(self) == (Profile { talents: final(self).talents, ..*old(self) }),
    {
        retain_not_in_set(&mut self.talents, &tables.prospects);
        push_ranked(&mut self.talents, &tables.prospects, 1);
    }

    /// Remove the Workshop-item-table entries, then append a rank-1 entry
    /// per table name, in table order.
    pub fn unlock_all_workshop_items(&mut self, tables: &RefTables)
        ensures
            final(self).talents.deep_view() == kept(
                old(self).talents.deep_view(),
                tables.workshop_items.name_seq(),
            ) + ranked(tables.workshop_items.name_seq(), 1),
            *final(self) == (Profile { talents: final(self).talents, ..*old(self) }),
    {
        retain_not_in_set(&mut self.talents, &tables.workshop_items);
        push_ranked(&mut self.talents, &tables.workshop_items, 1);
    }
}

} // verus!

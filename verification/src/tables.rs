//! The four immutable reference tables, and the parser for their bundled
//! `name,value` line format. The tables are built once by the caller and
//! passed into the mutation engine, so tests can substitute fixtures.

use vstd::prelude::*;
use crate::model::{Talent, TalentV};
use crate::num::{spec_parse_int, parse_int};

verus! {

/// `s` split at every occurrence of `sep`; always at least one field.
pub open spec fn split_on(s: Seq<char>, sep: char) -> Seq<Seq<char>>
    decreases s.len(),
{
    if s.len() == 0 {
        seq![Seq::<char>::empty()]
    } else if s[0] == sep {
        seq![Seq::<char>::empty()] + split_on(s.drop_first(), sep)
    } else {
        let rest = split_on(s.drop_first(), sep);
        seq![seq![s[0]] + rest[0]] + rest.drop_first()
    }
}

pub proof fn lemma_split_on_len(s: Seq<char>, sep: char)
    ensures
        split_on(s, sep).len() >= 1,
    decreases s.len(),
{
    if s.len() > 0 {
        lemma_split_on_len(s.drop_first(), sep);
    }
}

/// A separator-free string splits into itself alone.
pub proof fn lemma_split_on_no_sep(s: Seq<char>, sep: char)
    requires
        forall|i: int| 0 <= i < s.len() ==> #[trigger] s[i] != sep,
    ensures
        split_on(s, sep) == seq![s],
    decreases s.len(),
{
    if s.len() == 0 {
        assert(split_on(s, sep) =~~= seq![s]);
    } else {
        assert(forall|i: int|
            0 <= i < s.drop_first().len() ==> #[trigger] s.drop_first()[i] != sep);
        lemma_split_on_no_sep(s.drop_first(), sep);
        assert(seq![s[0]] + s.drop_first() =~= s);
        assert(split_on(s, sep) =~~= seq![s]);
    }
}

/// With the single separator at `p`, the two fields are the subranges
/// around it.
pub proof fn lemma_split_one_sep(t: Seq<char>, sep: char, p: int)
    requires
        0 <= p < t.len(),
        t[p] == sep,
        forall|k: int| 0 <= k < t.len() && k != p ==> #[trigger] t[k] != sep,
    ensures
        split_on(t, sep) == seq![t.subrange(0, p), t.subrange(p + 1, t.len() as int)],
    decreases t.len(),
{
    if p == 0 {
        assert(forall|i: int|
            0 <= i < t.drop_first().len() ==> #[trigger] t.drop_first()[i] != sep);
        lemma_split_on_no_sep(t.drop_first(), sep);
        assert(t.subrange(0, 0) =~= Seq::<char>::empty());
        assert(t.subrange(1, t.len() as int) =~= t.drop_first());
        assert(split_on(t, sep) =~~= seq![
            t.subrange(0, p),
            t.subrange(p + 1, t.len() as int),
        ]);
    } else {
        assert(forall|k: int|
            0 <= k < t.drop_first().len() && k != p - 1 ==> #[trigger] t.drop_first()[k] != sep);
        lemma_split_one_sep(t.drop_first(), sep, p - 1);
        let rest = split_on(t.drop_first(), sep);
        assert(rest[0] == t.drop_first().subrange(0, p - 1));
        assert(rest[1] == t.drop_first().subrange(p, t.len() - 1));
        assert(seq![t[0]] + t.drop_first().subrange(0, p - 1) =~= t.subrange(0, p));
        assert(t.drop_first().subrange(p, t.len() - 1) =~= t.subrange(p + 1, t.len() as int));
        assert(split_on(t, sep) =~~= seq![
            t.subrange(0, p),
            t.subrange(p + 1, t.len() as int),
        ]);
    }
}

/// `parts` with `prefix` glued onto its first field.
pub open spec fn cons_first(prefix: Seq<char>, parts: Seq<Seq<char>>) -> Seq<Seq<char>> {
    seq![prefix + parts[0]] + parts.drop_first()
}

/// Split a string at every occurrence of `sep`.
pub fn split_char(s: &str, sep: char) -> (r: Vec<String>)
    ensures
        r.deep_view() == split_on(s@, sep),
{
    let n = s.unicode_len();
    let mut fields: Vec<String> = Vec::new();
    let mut start: usize = 0;
    let mut i: usize = 0;
    proof {
        lemma_split_on_len(s@, sep);
        assert(cons_first(s@.subrange(0, 0), split_on(s@.skip(0), sep)) =~~= split_on(s@, sep)) by {
            assert(s@.skip(0) =~= s@);
            assert(s@.subrange(0, 0) + split_on(s@, sep)[0] =~= split_on(s@, sep)[0]);
        }
    }
    while i < n
        invariant
            0 <= start <= i <= n,
            n == s@.len(),
            split_on(s@, sep) =~~= fields.deep_view() + cons_first(
                s@.subrange(start as int, i as int),
                split_on(s@.skip(i as int), sep),
            ),
        decreases n - i,
    {
        let ghost pre = s@.subrange(start as int, i as int);
        let ghost tail = s@.skip(i as int);
        proof {
            assert(tail.len() > 0);
            assert(tail[0] == s@[i as int]);
            assert(tail.drop_first() =~= s@.skip(i + 1));
            lemma_split_on_len(s@.skip(i + 1), sep);
        }
        let c = s.get_char(i);
        if c == sep {
            let field = s.substring_char(start, i).to_owned();
            fields.push(field);
            proof {
                assert(split_on(tail, sep) =~= seq![Seq::<char>::empty()] + split_on(
                    s@.skip(i + 1),
                    sep,
                ));
                assert(cons_first(pre, split_on(tail, sep)) =~~= seq![pre] + split_on(
                    s@.skip(i + 1),
                    sep,
                )) by {
                    assert(pre + Seq::<char>::empty() =~= pre);
                }
                assert(s@.subrange(i + 1, i + 1) + split_on(s@.skip(i + 1), sep)[0] =~= split_on(
                    s@.skip(i + 1),
                    sep,
                )[0]);
                assert(fields.deep_view() + cons_first(
                    s@.subrange(i + 1, i + 1),
                    split_on(s@.skip(i + 1), sep),
                ) =~~= fields.deep_view().drop_last() + (seq![pre] + split_on(s@.skip(i + 1), sep)));
            }
            start = i + 1;
        } else {
            proof {
                let rest = split_on(s@.skip(i + 1), sep);
                assert(split_on(tail, sep) =~= seq![seq![tail[0]] + rest[0]] + rest.drop_first());
                assert(s@.subrange(start as int, i + 1) =~= pre + seq![s@[i as int]]);
                assert(s@.subrange(start as int, i + 1) + rest[0] =~= pre + (seq![tail[0]]
                    + rest[0]));
                assert(cons_first(s@.subrange(start as int, i + 1), rest) =~~= cons_first(
                    pre,
                    split_on(tail, sep),
                ));
            }
        }
        i += 1;
    }
    let field = s.substring_char(start, n).to_owned();
    fields.push(field);
    proof {
        assert(s@.skip(n as int) =~= Seq::<char>::empty());
        assert(split_on(s@.skip(n as int), sep) =~= seq![Seq::<char>::empty()]);
        assert(s@.subrange(start as int, n as int) + Seq::<char>::empty() =~= s@.subrange(
            start as int,
            n as int,
        ));
        assert(cons_first(s@.subrange(start as int, n as int), seq![Seq::<char>::empty()])
            =~~= seq![s@.subrange(start as int, n as int)]);
        assert(fields.deep_view() =~~= split_on(s@, sep));
    }
    fields
}

/// Every line of the bundled resource splits into exactly two fields.
pub open spec fn lines_ok(s: Seq<char>) -> bool {
    forall|i: int|
        0 <= i < split_on(s, '\n').len() ==> split_on(#[trigger] split_on(s, '\n')[i], ',').len()
            == 2
}

/// The first field of each line, in file order.
pub open spec fn line_names(s: Seq<char>) -> Seq<Seq<char>> {
    split_on(s, '\n').map_values(|l: Seq<char>| split_on(l, ',')[0])
}

/// The second field of each line, in file order.
pub open spec fn line_values(s: Seq<char>) -> Seq<Seq<char>> {
    split_on(s, '\n').map_values(|l: Seq<char>| split_on(l, ',')[1])
}

/// `s` with every element that already occurred earlier removed.
pub open spec fn dedup(s: Seq<Seq<char>>) -> Seq<Seq<char>>
    decreases s.len(),
{
    if s.len() == 0 {
        Seq::empty()
    } else {
        let rest = dedup(s.drop_last());
        if rest.contains(s.last()) {
            rest
        } else {
            rest.push(s.last())
        }
    }
}

/// An immutable set of names: one reference table without ranks.
pub struct NameSet {
    pub names: Vec<String>,
}

impl NameSet {
    pub open spec fn name_seq(&self) -> Seq<Seq<char>> {
        self.names.deep_view()
    }

    /// No name occurs twice; the builders establish this.
    pub open spec fn wf(&self) -> bool {
        forall|a: int, b: int|
            0 <= a < b < self.name_seq().len() ==> #[trigger] self.name_seq()[a] != #[trigger] self.name_seq()[b]
    }

    /// Membership test against the table.
    pub fn contains_name(&self, name: &String) -> (r: bool)
        ensures
            r == self.name_seq().contains(name@),
    {
        contains_str(&self.names, name)
    }
}

/// An immutable name-to-max-rank table, kept in file order.
pub struct RankTable {
    pub rows: Vec<Talent>,
}

/// The names of a row sequence, in order.
pub open spec fn names_of(rows: Seq<TalentV>) -> Seq<Seq<char>> {
    rows.map_values(|t: TalentV| t.row_name)
}

impl RankTable {
    pub open spec fn rows_view(&self) -> Seq<TalentV> {
        self.rows.deep_view()
    }

    pub open spec fn name_seq(&self) -> Seq<Seq<char>> {
        names_of(self.rows.deep_view())
    }

    /// No name occurs twice; the builder establishes this.
    pub open spec fn wf(&self) -> bool {
        forall|a: int, b: int|
            0 <= a < b < self.name_seq().len() ==> #[trigger] self.name_seq()[a] != #[trigger] self.name_seq()[b]
    }

    /// Membership test against the leveled table.
    pub fn contains_name(&self, name: &String) -> (r: bool)
        ensures
            r == self.name_seq().contains(name@),
    {
        let mut i: usize = 0;
        while i < self.rows.len()
            invariant
                0 <= i <= self.rows.len(),
                forall|k: int| 0 <= k < i ==> self.name_seq()[k] != name@,
                self.name_seq().len() == self.rows.len(),
            decreases self.rows.len() - i,
        {
            assert(self.name_seq()[i as int] == self.rows[i as int].deep_view().row_name);
            if self.rows[i].row_name == *name {
                return true;
            }
            i += 1;
        }
        proof {
            if self.name_seq().contains(name@) {
                let k = choose|k: int|
                    0 <= k < self.name_seq().len() && self.name_seq()[k] == name@;
                assert(self.name_seq()[k] != name@);
            }
        }
        false
    }

    /// The max rank recorded for `name`: the first matching row's rank.
    pub fn max_rank(&self, name: &String) -> (r: Option<i64>)
        ensures
            r is Some <==> self.name_seq().contains(name@),
            r matches Some(v) ==> exists|k: int|
                0 <= k < self.rows_view().len() && self.rows_view()[k].row_name == name@
                    && self.rows_view()[k].rank == v,
    {
        let mut i: usize = 0;
        while i < self.rows.len()
            invariant
                0 <= i <= self.rows.len(),
                forall|k: int| 0 <= k < i ==> self.name_seq()[k] != name@,
                self.name_seq().len() == self.rows.len(),
            decreases self.rows.len() - i,
        {
            assert(self.name_seq()[i as int] == self.rows[i as int].deep_view().row_name);
            if self.rows[i].row_name == *name {
                assert(self.rows_view()[i as int].row_name == name@);
                return Some(self.rows[i].rank);
            }
            i += 1;
        }
        proof {
            if self.name_seq().contains(name@) {
                let k = choose|k: int|
                    0 <= k < self.name_seq().len() && self.name_seq()[k] == name@;
                assert(self.name_seq()[k] != name@);
            }
        }
        None
    }
}

/// The four reference tables, built once and passed into the engine.
pub struct RefTables {
    pub talents: RankTable,
    pub blueprints: NameSet,
    pub prospects: NameSet,
    pub workshop_items: NameSet,
}

/// Membership test on a vector of names.
pub fn contains_str(names: &Vec<String>, name: &String) -> (r: bool)
    ensures
        r == names.deep_view().contains(name@),
{
    let mut i: usize = 0;
    while i < names.len()
        invariant
            0 <= i <= names.len(),
            forall|k: int| 0 <= k < i ==> names.deep_view()[k] != name@,
        decreases names.len() - i,
    {
        assert(names.deep_view()[i as int] == names[i as int]@);
        if names[i] == *name {
            return true;
        }
        i += 1;
    }
    proof {
        if names.deep_view().contains(name@) {
            let k = choose|k: int|
                0 <= k < names.deep_view().len() && names.deep_view()[k] == name@;
            assert(names.deep_view()[k] != name@);
        }
    }
    false
}

/// Build one unleveled table from newline-separated `name,value` lines.
/// Fails exactly when some line does not split into two fields. Names are
/// kept in first-occurrence order, later duplicates dropped.
#[verifier::loop_isolation(false)]
pub fn build_set(text: &str) -> (r: Option<NameSet>)
    ensures
        r is Some <==> lines_ok(text@),
        r matches Some(t) ==> t.name_seq() == dedup(line_names(text@)) && t.wf(),
{
    let lines = split_char(text, '\n');
    let ghost lseq = split_on(text@, '\n');
    let mut names: Vec<String> = Vec::new();
    let mut i: usize = 0;
    while i < lines.len()
        invariant
            0 <= i <= lines.len(),
            lines.deep_view() == lseq,
            lines.len() == lseq.len(),
            forall|k: int| 0 <= k < i ==> split_on(#[trigger] lseq[k], ',').len() == 2,
            names.deep_view() =~~= dedup(line_names(text@).take(i as int)),
            forall|a: int, b: int|
                0 <= a < b < names.len() ==> #[trigger] names.deep_view()[a]
                    != #[trigger] names.deep_view()[b],
        decreases lines.len() - i,
    {
        assert(lines.deep_view()[i as int] == lines[i as int]@);
        let parts = split_char(lines[i].as_str(), ',');
        if parts.len() != 2 {
            proof {
                assert(split_on(lseq[i as int], ',').len() != 2);
            }
            return None;
        }
        let name = parts[0].clone();
        proof {
            assert(parts.deep_view()[0] == parts[0 as int]@);
            assert(line_names(text@)[i as int] == split_on(lseq[i as int], ',')[0]);
            assert(line_names(text@).take(i + 1).drop_last() =~= line_names(text@).take(i as int));
            assert(line_names(text@).take(i + 1).last() == name@);
        }
        if !contains_str(&names, &name) {
            let ghost before = names.deep_view();
            names.push(name);
            proof {
                assert forall|a: int, b: int| 0 <= a < b < names.len() implies #[trigger] names.deep_view()[a]
                    != #[trigger] names.deep_view()[b] by {
                    assert(names.deep_view()[a] == before[a]);
                    if b == names.len() - 1 {
                        if before[a] == names.deep_view()[b] {
                            assert(before.contains(names.deep_view()[b]));
                        }
                    } else {
                        assert(names.deep_view()[b] == before[b]);
                    }
                }
            }
        }
        i += 1;
    }
    proof {
        assert(line_names(text@).take(lseq.len() as int) =~= line_names(text@));
        assert(forall|k: int|
            0 <= k < lseq.len() ==> split_on(#[trigger] split_on(text@, '\n')[k], ',').len() == 2);
    }
    Some(NameSet { names })
}

/// Whether every line of the leveled resource has a numeric second field.
pub open spec fn ranks_ok(s: Seq<char>) -> bool {
    forall|i: int|
        0 <= i < line_values(s).len() ==> spec_parse_int(#[trigger] line_values(s)[i]) is Some
}

/// Whether every rank value also fits the rank field.
pub open spec fn ranks_fit(s: Seq<char>) -> bool {
    forall|i: int|
        0 <= i < line_values(s).len() ==> match spec_parse_int(#[trigger] line_values(s)[i]) {
            Some(v) => i64::MIN <= v && v <= i64::MAX,
            None => false,
        }
}

/// The value of the last line naming `name`, as its second field reads.
pub open spec fn last_rank_in(lines: Seq<Seq<char>>, name: Seq<char>) -> Option<int>
    decreases lines.len(),
{
    if lines.len() == 0 {
        None
    } else if split_on(lines.last(), ',')[0] == name {
        spec_parse_int(split_on(lines.last(), ',')[1])
    } else {
        last_rank_in(lines.drop_last(), name)
    }
}

/// Position of some row named `name`.
fn find_row(rows: &Vec<Talent>, name: &String) -> (r: Option<usize>)
    ensures
        r matches Some(j) ==> j < rows.len() && rows.deep_view()[j as int].row_name == name@,
        r is None ==> forall|k: int|
            0 <= k < rows.len() ==> (#[trigger] rows.deep_view()[k]).row_name != name@,
{
    let mut j: usize = 0;
    while j < rows.len()
        invariant
            0 <= j <= rows.len(),
            forall|k: int| 0 <= k < j ==> (#[trigger] rows.deep_view()[k]).row_name != name@,
        decreases rows.len() - j,
    {
        assert(rows.deep_view()[j as int] == rows[j as int].deep_view());
        if rows[j].row_name == *name {
            return Some(j);
        }
        j += 1;
    }
    None
}

/// Build the leveled table from newline-separated `name,rank` lines.
/// Succeeds exactly when every line splits into two fields and every
/// second field reads as an integer that fits the rank field. Names keep
/// first-occurrence order, later duplicates dropped; each name's rank is
/// the one its last line gives, as the source data structure kept it.
#[verifier::loop_isolation(false)]
pub fn build_map(text: &str) -> (r: Option<RankTable>)
    ensures
        r matches Some(t) ==> lines_ok(text@) && ranks_ok(text@) && t.wf() && names_of(
            t.rows_view(),
        ) == dedup(line_names(text@)) && (forall|k: int|
            0 <= k < t.rows_view().len() ==> Some((#[trigger] t.rows_view()[k]).rank as int)
                == last_rank_in(split_on(text@, '\n'), t.rows_view()[k].row_name)),
        lines_ok(text@) && ranks_fit(text@) ==> r is Some,
        !lines_ok(text@) ==> r is None,
{
    let lines = split_char(text, '\n');
    let ghost lseq = split_on(text@, '\n');
    let mut rows: Vec<Talent> = Vec::new();
    let mut i: usize = 0;
    while i < lines.len()
        invariant
            0 <= i <= lines.len(),
            lines.deep_view() == lseq,
            lines.len() == lseq.len(),
            forall|k: int| 0 <= k < i ==> split_on(#[trigger] lseq[k], ',').len() == 2,
            forall|k: int|
                0 <= k < i ==> spec_parse_int(split_on(#[trigger] lseq[k], ',')[1]) is Some,
            names_of(rows.deep_view()) =~~= dedup(line_names(text@).take(i as int)),
            forall|a: int, b: int|
                0 <= a < b < rows.len() ==> (#[trigger] rows.deep_view()[a]).row_name != (
                #[trigger] rows.deep_view()[b]).row_name,
            forall|k: int|
                0 <= k < rows.len() ==> Some((#[trigger] rows.deep_view()[k]).rank as int)
                    == last_rank_in(lseq.take(i as int), rows.deep_view()[k].row_name),
        decreases lines.len() - i,
    {
        assert(lines.deep_view()[i as int] == lines[i as int]@);
        let parts = split_char(lines[i].as_str(), ',');
        if parts.len() != 2 {
            proof {
                assert(split_on(lseq[i as int], ',').len() != 2);
            }
            return None;
        }
        proof {
            assert(parts.deep_view()[1] == parts[1 as int]@);
            assert(line_values(text@)[i as int] == split_on(lseq[i as int], ',')[1]);
        }
        let rank = match parse_int(parts[1].as_str()) {
            Some(v) => v,
            None => {
                // the second field is no integer, or does not fit the field
                proof {
                    if ranks_fit(text@) {
                        assert(match spec_parse_int(line_values(text@)[i as int]) {
                            Some(v) => i64::MIN <= v && v <= i64::MAX,
                            None => false,
                        });
                        assert(false);
                    }
                }
                return None;
            },
        };
        let name = parts[0].clone();
        proof {
            assert(parts.deep_view()[0] == parts[0 as int]@);
            assert(line_names(text@)[i as int] == split_on(lseq[i as int], ',')[0]);
            assert(line_names(text@).take(i + 1).drop_last() =~= line_names(text@).take(i as int));
            assert(line_names(text@).take(i + 1).last() == name@);
            assert(lseq.take(i + 1).drop_last() =~= lseq.take(i as int));
            assert(lseq.take(i + 1).last() == lseq[i as int]);
        }
        let ghost old_rows = rows.deep_view();
        match find_row(&rows, &name) {
            Some(j) => {
                let replacement = Talent { row_name: name.clone(), rank };
                rows.remove(j);
                rows.insert(j, replacement);
                proof {
                    assert(rows.deep_view() =~~= old_rows.update(
                        j as int,
                        TalentV { row_name: name@, rank },
                    ));
                    assert(names_of(rows.deep_view()) =~~= names_of(old_rows));
                    assert(names_of(old_rows).contains(name@)) by {
                        assert(names_of(old_rows)[j as int] == name@);
                    }
                    assert(dedup(line_names(text@).take(i + 1)) =~~= dedup(
                        line_names(text@).take(i as int),
                    ));
                    assert forall|k: int| 0 <= k < rows.len() implies Some(
                        (#[trigger] rows.deep_view()[k]).rank as int,
                    ) == last_rank_in(lseq.take(i + 1), rows.deep_view()[k].row_name) by {
                        if k == j {
                            assert(rows.deep_view()[k].row_name == name@);
                        } else {
                            assert(rows.deep_view()[k] == old_rows[k]);
                            assert(old_rows[j as int].row_name == name@);
                            assert(old_rows[k].row_name != name@);
                        }
                    }
                }
            },
            None => {
                rows.push(Talent { row_name: name, rank });
                proof {
                    assert(rows.deep_view() =~~= old_rows.push(
                        TalentV {
                            row_name: line_names(text@).take(i + 1).last(),
                            rank,
                        },
                    ));
                    assert(names_of(rows.deep_view()) =~~= names_of(old_rows).push(
                        line_names(text@).take(i + 1).last(),
                    ));
                    assert(!dedup(line_names(text@).take(i as int)).contains(
                        line_names(text@).take(i + 1).last(),
                    )) by {
                        if dedup(line_names(text@).take(i as int)).contains(name@) {
                            let k = choose|k: int|
                                0 <= k < names_of(old_rows).len() && names_of(old_rows)[k]
                                    == name@;
                            assert(old_rows[k].row_name != name@);
                            assert(names_of(old_rows)[k] == old_rows[k].row_name);
                        }
                    }
                    assert forall|k: int| 0 <= k < rows.len() implies Some(
                        (#[trigger] rows.deep_view()[k]).rank as int,
                    ) == last_rank_in(lseq.take(i + 1), rows.deep_view()[k].row_name) by {
                        if k < old_rows.len() {
                            assert(rows.deep_view()[k] == old_rows[k]);
                            assert(old_rows[k].row_name != name@);
                        } else {
                            assert(rows.deep_view()[k].row_name == name@);
                        }
                    }
                }
            },
        }
        i += 1;
    }
    proof {
        assert(line_names(text@).take(lseq.len() as int) =~= line_names(text@));
        assert(lseq.take(lseq.len() as int) =~= lseq);
        assert(forall|k: int|
            0 <= k < lseq.len() ==> split_on(#[trigger] split_on(text@, '\n')[k], ',').len() == 2);
        assert(forall|k: int|
            0 <= k < line_values(text@).len() ==> spec_parse_int(
                #[trigger] line_values(text@)[k],
            ) is Some);
    }
    Some(RankTable { rows })
}

} // verus!


//! The records that a snapshot is made of, and the table that holds them by
//! identifier.

use crate::text::same_text;
use vstd::prelude::*;

verus! {

/// A mapping of a package's name and version to the identifier under which
/// that version is exposed.
#[derive(Debug)]
pub struct CrateInformation {
    pub name: String,
    pub version: String,
    pub id: String,
}

/// The mathematical value of a [`CrateInformation`].
pub struct InfoView {
    pub name: Seq<char>,
    pub version: Seq<char>,
    pub id: Seq<char>,
}

impl View for CrateInformation {
    type V = InfoView;

    open spec fn view(&self) -> InfoView {
        InfoView { name: self.name@, version: self.version@, id: self.id@ }
    }
}

impl CrateInformation {
    /// A copy of the record.
    pub fn duplicate(&self) -> (copy: CrateInformation)
        ensures
            copy@ == self@,
    {
        CrateInformation {
            name: self.name.clone(),
            version: self.version.clone(),
            id: self.id.clone(),
        }
    }
}

/// A dependency as it is written into a manifest: the package, the exact
/// version, the features asked for, and whether the default features are on.
#[derive(Debug)]
pub struct DependencySpec {
    pub package: String,
    pub version: String,
    pub features: Vec<String>,
    pub default_features: bool,
}

/// The requirement that admits exactly the version given: an equals sign and
/// the version.
pub open spec fn exact_requirement(version: Seq<char>) -> Seq<char> {
    seq!['='] + version
}

/// Writes the requirement that admits exactly `version`.
pub fn exact_version(version: &String) -> (requirement: String)
    ensures
        requirement@ == exact_requirement(version@),
{
    proof {
        reveal_strlit("=");
    }
    let mut requirement = String::new();
    requirement.append("=");
    requirement.append(version.as_str());
    requirement
}

/// Whether the flag is set.
pub fn is_true(b: &bool) -> (set: bool)
    ensures
        set == *b,
{
    *b
}

/// The values of a list of records.
pub open spec fn info_views(records: Seq<CrateInformation>) -> Seq<InfoView> {
    Seq::new(records.len(), |i: int| records[i]@)
}

/// Whether no two records of a list have the same identifier.
pub open spec fn distinct_ids(records: Seq<InfoView>) -> bool {
    forall|i: int, j: int|
        0 <= i < j < records.len() ==> (#[trigger] records[i]).id != (#[trigger] records[j]).id
}

/// The table that a list of records stands for: each record under its
/// identifier, a later record in place of an earlier one with the same
/// identifier.
pub open spec fn table_of_records(records: Seq<InfoView>) -> Map<Seq<char>, InfoView>
    decreases records.len(),
{
    if records.len() == 0 {
        Map::empty()
    } else {
        table_of_records(records.drop_last()).insert(records.last().id, records.last())
    }
}

/// A table of a list of records holds exactly the identifiers of the list.
pub proof fn lemma_table_domain(records: Seq<InfoView>, id: Seq<char>)
    ensures
        table_of_records(records).dom().contains(id) <==> exists|i: int|
            0 <= i < records.len() && (#[trigger] records[i]).id == id,
    decreases records.len(),
{
    if records.len() > 0 {
        let front = records.drop_last();
        lemma_table_domain(front, id);
        if exists|i: int| 0 <= i < records.len() && (#[trigger] records[i]).id == id {
            let i = choose|i: int| 0 <= i < records.len() && (#[trigger] records[i]).id == id;
            if i < front.len() {
                assert(front[i].id == id);
            }
        }
    }
}

/// Where no identifier occurs twice, a table gives each record of its list
/// back under the record's identifier.
pub proof fn lemma_table_entry(records: Seq<InfoView>, i: int)
    requires
        distinct_ids(records),
        0 <= i < records.len(),
    ensures
        table_of_records(records).dom().contains(records[i].id),
        table_of_records(records)[records[i].id] == records[i],
    decreases records.len(),
{
    let front = records.drop_last();
    if i < records.len() - 1 {
        lemma_table_entry(front, i);
    }
}

/// Putting a record in place of one with the same identifier puts it into
/// the table under that identifier.
pub proof fn lemma_table_after_replace(records: Seq<InfoView>, i: int, record: InfoView)
    requires
        distinct_ids(records),
        0 <= i < records.len(),
        records[i].id == record.id,
    ensures
        distinct_ids(records.update(i, record)),
        table_of_records(records.update(i, record)) == table_of_records(records).insert(
            record.id,
            record,
        ),
    decreases records.len(),
{
    let after = records.update(i, record);
    let front = records.drop_last();
    if i == records.len() - 1 {
        assert(after.drop_last() =~= front);
    } else {
        lemma_table_after_replace(front, i, record);
        assert(after.drop_last() =~= front.update(i, record));
    }
}

/// Where no identifier occurs twice, a table holds as many identifiers as
/// its list has records, and no more than finitely many.
pub proof fn lemma_table_size(records: Seq<InfoView>)
    requires
        distinct_ids(records),
    ensures
        table_of_records(records).dom().finite(),
        table_of_records(records).dom().len() == records.len(),
    decreases records.len(),
{
    if records.len() > 0 {
        let front = records.drop_last();
        assert(distinct_ids(front)) by {
            assert forall|a: int, b: int| 0 <= a < b < front.len() implies (#[trigger] front[a]).id
                != (#[trigger] front[b]).id by {
                assert(records[a].id != records[b].id);
            }
        }
        lemma_table_size(front);
        lemma_table_domain(front, records.last().id);
        if table_of_records(front).dom().contains(records.last().id) {
            let i = choose|i: int|
                0 <= i < front.len() && (#[trigger] front[i]).id == records.last().id;
            assert(records[i].id != records[records.len() - 1].id);
        }
        assert(table_of_records(records).dom() =~= table_of_records(front).dom().insert(
            records.last().id,
        ));
    }
}

/// A table of records by identifier, each identifier held once.
pub struct NameTable {
    entries: Vec<CrateInformation>,
}

impl View for NameTable {
    type V = Map<Seq<char>, InfoView>;

    closed spec fn view(&self) -> Map<Seq<char>, InfoView> {
        table_of_records(info_views(self.entries@))
    }
}

impl NameTable {
    /// The invariant of the table: no identifier is held twice.
    pub closed spec fn wf(&self) -> bool {
        distinct_ids(info_views(self.entries@))
    }

    /// The number of records of the table: the number of identifiers that
    /// it holds a record under.
    pub open spec fn count(&self) -> nat {
        self@.dom().len()
    }

    /// A table holds records under finitely many identifiers.
    pub proof fn lemma_is_finite(&self)
        requires
            self.wf(),
        ensures
            self@.dom().finite(),
    {
        lemma_table_size(info_views(self.entries@));
    }

    /// A table without records.
    pub fn new() -> (table: NameTable)
        ensures
            table.wf(),
            table@ == Map::<Seq<char>, InfoView>::empty(),
            table.count() == 0,
    {
        NameTable { entries: Vec::new() }
    }

    /// The number of records in the table.
    pub fn len(&self) -> (n: usize)
        requires
            self.wf(),
        ensures
            n == self.count(),
            n == self@.dom().len(),
            self@.dom().finite(),
    {
        proof {
            lemma_table_size(info_views(self.entries@));
        }
        self.entries.len()
    }

    fn position(&self, id: &str) -> (found: Option<usize>)
        requires
            self.wf(),
        ensures
            match found {
                Some(i) => i < self.entries@.len() && self.entries@[i as int].id@ == id@,
                None => forall|j: int|
                    0 <= j < self.entries@.len() ==> (#[trigger] self.entries@[j]).id@ != id@,
            },
            found is Some <==> self@.dom().contains(id@),
            found matches Some(i) ==> self@[id@] == self.entries@[i as int]@,
    {
        let ghost records = info_views(self.entries@);
        proof {
            lemma_table_domain(records, id@);
        }
        let mut i: usize = 0;
        while i < self.entries.len()
            invariant
                i <= self.entries@.len(),
                self.wf(),
                records == info_views(self.entries@),
                forall|j: int| 0 <= j < i ==> (#[trigger] self.entries@[j]).id@ != id@,
                table_of_records(records).dom().contains(id@) <==> exists|j: int|
                    0 <= j < records.len() && (#[trigger] records[j]).id == id@,
            decreases self.entries@.len() - i,
        {
            if same_text(self.entries[i].id.as_str(), id) {
                proof {
                    lemma_table_entry(records, i as int);
                }
                return Some(i);
            }
            i = i + 1;
        }
        None
    }

    /// Whether the table holds a record under `id`.
    pub fn contains(&self, id: &str) -> (held: bool)
        requires
            self.wf(),
        ensures
            held == self@.dom().contains(id@),
    {
        self.position(id).is_some()
    }

    /// The record that the table holds under `id`.
    pub fn get(&self, id: &str) -> (found: Option<&CrateInformation>)
        requires
            self.wf(),
        ensures
            match found {
                Some(record) => self@.dom().contains(id@) && self@[id@] == record@,
                None => !self@.dom().contains(id@),
            },
    {
        match self.position(id) {
            Some(i) => Some(&self.entries[i]),
            None => None,
        }
    }

    /// Puts a record into the table under its identifier, in place of the
    /// record that the table held under that identifier, if it held one.
    pub fn insert(&mut self, record: CrateInformation)
        requires
            old(self).wf(),
        ensures
            final(self).wf(),
            final(self)@ == old(self)@.insert(record@.id, record@),
            final(self).count() == old(self).count() + if old(self)@.dom().contains(record@.id) {
                0nat
            } else {
                1nat
            },
    {
        let ghost records = info_views(self.entries@);
        proof {
            lemma_table_size(records);
        }
        match self.position(record.id.as_str()) {
            Some(i) => {
                proof {
                    lemma_table_after_replace(records, i as int, record@);
                }
                self.entries.set(i, record);
                assert(info_views(self.entries@) =~= records.update(i as int, record@));
            },
            None => {
                self.entries.push(record);
                assert(info_views(self.entries@) =~= records.push(record@));
                assert(records.push(record@).drop_last() =~= records);
            },
        }
    }

    /// Puts every record of `other` into the table, each in place of the
    /// record that the table held under the same identifier, if it held one.
    pub fn extend(&mut self, other: &NameTable)
        requires
            old(self).wf(),
            other.wf(),
        ensures
            final(self).wf(),
            final(self)@ == old(self)@.union_prefer_right(other@),
    {
        let ghost records = info_views(other.entries@);
        let mut i: usize = 0;
        while i < other.entries.len()
            invariant
                i <= other.entries@.len(),
                records == info_views(other.entries@),
                self.wf(),
                self@ == old(self)@.union_prefer_right(
                    table_of_records(records.subrange(0, i as int)),
                ),
            decreases other.entries@.len() - i,
        {
            let ghost upto = records.subrange(0, i as int + 1);
            assert(upto.drop_last() =~= records.subrange(0, i as int));
            self.insert(other.entries[i].duplicate());
            i = i + 1;
        }
        assert(records.subrange(0, records.len() as int) =~= records);
    }

    /// The records of the table, each identifier once.
    pub fn into_values(self) -> (records: Vec<CrateInformation>)
        requires
            self.wf(),
        ensures
            distinct_ids(info_views(records@)),
            table_of_records(info_views(records@)) == self@,
            records@.len() == self.count(),
    {
        proof {
            lemma_table_size(info_views(self.entries@));
        }
        self.entries
    }
}

} // verus!

//! An in-memory catalog of managers, datasets and partitions with the semantics of the relational
//! store: unique dataset names, partitions unique per dataset and upserted by name, deletes that
//! cascade, and range queries sorted by creation time.
use vstd::prelude::*;
use vstd::string::*;
use crate::dict::{
    Classification, Compression, Dataset, DatasetSchema, Format, Manager, Partition, RangeParams,
    SchemaColumn, Timestamp, PARTITION_LATEST,
};
use crate::error::Error;
use crate::text::{owned, str_eq};

verus! {

broadcast use vstd::seq_lib::group_seq_properties;

/// A partition row as plain values.
pub struct PartitionView {
    pub id: i32,
    pub name: Seq<char>,
    pub url: Seq<char>,
    pub size: i64,
    pub dataset_id: i32,
    pub created_at: Timestamp,
    pub updated_at: Timestamp,
}

/// A dataset row as plain values.
pub struct DatasetView {
    pub id: i32,
    pub manager_id: i32,
    pub name: Seq<char>,
    pub classification: Classification,
    pub compression: Compression,
    pub format: Format,
    pub description: Seq<char>,
    pub schema: Seq<(Seq<char>, Option<Seq<char>>)>,
    pub created_at: Timestamp,
    pub updated_at: Timestamp,
}

/// A manager row as plain values.
pub struct ManagerView {
    pub id: i32,
    pub email: Seq<char>,
    pub api_key: u128,
    pub admin: bool,
    pub created_at: Timestamp,
    pub updated_at: Timestamp,
    pub salt: Seq<char>,
    pub hash: Seq<u8>,
}

pub open spec fn opt_chars(o: Option<String>) -> Option<Seq<char>> {
    match o {
        Some(s) => Some(s@),
        None => None,
    }
}

/// A schema is a map from column name: no name appears twice.
pub open spec fn schema_names_unique(s: Seq<(Seq<char>, Option<Seq<char>>)>) -> bool {
    forall|i: int, j: int| 0 <= i < s.len() && 0 <= j < s.len() && i != j ==> (#[trigger] s[i]).0 != (#[trigger] s[j]).0
}

/// Whether no column name appears twice in the schema.
pub fn schema_is_map(s: &DatasetSchema) -> (r: bool)
    ensures
        r == schema_names_unique(schema_view(s@)),
{
    let n = s.len();
    let mut i: usize = 0;
    while i < n
        invariant
            n == s@.len(),
            i <= n,
            forall|a: int, b: int| 0 <= a < i && 0 <= b < n && a != b ==> (#[trigger] s@[a]).name@ != (#[trigger] s@[b]).name@,
        decreases n - i,
    {
        let mut j: usize = 0;
        while j < n
            invariant
                n == s@.len(),
                i < n,
                j <= n,
                forall|b: int| 0 <= b < j && b != i ==> s@[i as int].name@ != (#[trigger] s@[b]).name@,
            decreases n - j,
        {
            if j != i && str_eq(s[i].name.as_str(), s[j].name.as_str()) {
                assert(schema_view(s@)[i as int].0 == schema_view(s@)[j as int].0);
                return false;
            }
            j = j + 1;
        }
        i = i + 1;
    }
    proof {
        let v = schema_view(s@);
        assert forall|a: int, b: int| 0 <= a < v.len() && 0 <= b < v.len() && a != b implies (#[trigger] v[a]).0 != (#[trigger] v[b]).0 by {
            assert(v[a].0 == s@[a].name@);
            assert(v[b].0 == s@[b].name@);
        }
    }
    true
}

pub open spec fn schema_view(s: Seq<SchemaColumn>) -> Seq<(Seq<char>, Option<Seq<char>>)> {
    s.map_values(|c: SchemaColumn| (c.name@, opt_chars(c.column_type)))
}

impl View for Partition {
    type V = PartitionView;

    open spec fn view(&self) -> PartitionView {
        PartitionView {
            id: self.id,
            name: self.name@,
            url: self.url@,
            size: self.size,
            dataset_id: self.dataset_id,
            created_at: self.created_at,
            updated_at: self.updated_at,
        }
    }
}

impl View for Dataset {
    type V = DatasetView;

    open spec fn view(&self) -> DatasetView {
        DatasetView {
            id: self.id,
            manager_id: self.manager_id,
            name: self.name@,
            classification: self.classification,
            compression: self.compression,
            format: self.format,
            description: self.description@,
            schema: schema_view(self.schema@),
            created_at: self.created_at,
            updated_at: self.updated_at,
        }
    }
}

impl View for Manager {
    type V = ManagerView;

    open spec fn view(&self) -> ManagerView {
        ManagerView {
            id: self.id,
            email: self.email@,
            api_key: self.api_key,
            admin: self.admin,
            created_at: self.created_at,
            updated_at: self.updated_at,
            salt: self.salt@,
            hash: self.hash@,
        }
    }
}

/// A copy of a schema.
pub fn copy_schema(s: &DatasetSchema) -> (r: DatasetSchema)
    ensures
        schema_view(r@) == schema_view(s@),
{
    let mut out: DatasetSchema = Vec::new();
    let mut i: usize = 0;
    while i < s.len()
        invariant
            i <= s@.len(),
            out@.len() == i,
            forall|k: int|
                0 <= k < i ==> (#[trigger] out@[k]).name@ == s@[k].name@ && opt_chars(
                    out@[k].column_type,
                ) == opt_chars(s@[k].column_type),
        decreases s@.len() - i,
    {
        let col = &s[i];
        let t = match &col.column_type {
            Some(t) => Some(t.clone()),
            None => None,
        };
        out.push(SchemaColumn { name: col.name.clone(), column_type: t });
        i = i + 1;
    }
    assert(schema_view(out@) =~= schema_view(s@));
    out
}

impl Partition {
    /// A copy of the row.
    pub fn copy(&self) -> (r: Partition)
        ensures
            r@ == self@,
    {
        Partition {
            id: self.id,
            name: self.name.clone(),
            url: self.url.clone(),
            size: self.size,
            dataset_id: self.dataset_id,
            created_at: self.created_at,
            updated_at: self.updated_at,
        }
    }
}

impl Dataset {
    /// A copy of the row.
    pub fn copy(&self) -> (r: Dataset)
        ensures
            r@ == self@,
    {
        Dataset {
            id: self.id,
            manager_id: self.manager_id,
            name: self.name.clone(),
            classification: self.classification,
            compression: self.compression,
            format: self.format,
            description: self.description.clone(),
            schema: copy_schema(&self.schema),
            created_at: self.created_at,
            updated_at: self.updated_at,
        }
    }
}

impl Manager {
    /// A copy of the row.
    pub fn copy(&self) -> (r: Manager)
        ensures
            r@ == self@,
    {
        let hash = self.hash.clone();
        assert(hash@ =~= self.hash@);
        Manager {
            id: self.id,
            email: self.email.clone(),
            api_key: self.api_key,
            admin: self.admin,
            created_at: self.created_at,
            updated_at: self.updated_at,
            salt: self.salt.clone(),
            hash,
        }
    }
}

/// The catalog's tables and counters as plain values.
pub struct CatalogView {
    pub managers: Seq<ManagerView>,
    pub datasets: Seq<DatasetView>,
    pub partitions: Seq<PartitionView>,
    pub next_manager_id: i32,
    pub next_dataset_id: i32,
    pub next_partition_id: i32,
    /// The latest time stamp handed out; stamps never go back.
    pub clock: Timestamp,
}

pub open spec fn in_dataset(dataset_id: i32) -> spec_fn(PartitionView) -> bool {
    |p: PartitionView| p.dataset_id == dataset_id
}

pub open spec fn not_keyed(dataset_id: i32, name: Seq<char>) -> spec_fn(PartitionView) -> bool {
    |p: PartitionView| !(p.dataset_id == dataset_id && p.name == name)
}

pub open spec fn not_in_dataset(dataset_id: i32) -> spec_fn(PartitionView) -> bool {
    |p: PartitionView| p.dataset_id != dataset_id
}

pub open spec fn of_manager(manager_id: i32) -> spec_fn(DatasetView) -> bool {
    |d: DatasetView| d.manager_id == manager_id
}

/// `term` occurs in `s` as a contiguous run.
pub open spec fn occurs_in(term: Seq<char>, s: Seq<char>) -> bool {
    exists|i: int| 0 <= i && i + term.len() <= s.len() && #[trigger] s.subrange(i, i + term.len()) == term
}

pub open spec fn name_has(term: Seq<char>) -> spec_fn(DatasetView) -> bool {
    |d: DatasetView| occurs_in(term, d.name)
}

pub open spec fn opt_str(o: Option<&str>) -> Option<Seq<char>> {
    match o {
        Some(s) => Some(s@),
        None => None,
    }
}

pub open spec fn in_bounds(t: Timestamp, p: RangeParams) -> bool {
    (match p.start {
        Some(s) => s <= t,
        None => true,
    }) && (match p.end {
        Some(e) => t <= e,
        None => true,
    })
}

pub open spec fn in_range(dataset_id: i32, p: RangeParams) -> spec_fn(PartitionView) -> bool {
    |r: PartitionView| r.dataset_id == dataset_id && in_bounds(r.created_at, p)
}

pub open spec fn dataset_in_range(p: RangeParams) -> spec_fn(DatasetView) -> bool {
    |d: DatasetView| in_bounds(d.created_at, p)
}

/// Skips `offset` rows, then keeps at most `count`.
pub open spec fn page<T>(s: Seq<T>, p: RangeParams) -> Seq<T> {
    let skipped = match p.offset {
        Some(o) => if o as int >= s.len() { Seq::empty() } else { s.subrange(o as int, s.len() as int) },
        None => s,
    };
    match p.count {
        Some(c) => if c as int >= skipped.len() { skipped } else { skipped.subrange(0, c as int) },
        None => skipped,
    }
}

pub open spec fn pagination_ok(p: RangeParams) -> bool {
    (match p.offset {
        Some(o) => o >= 0,
        None => true,
    }) && (match p.count {
        Some(c) => c >= 0,
        None => true,
    })
}

pub open spec fn latest_name() -> Seq<char> {
    PARTITION_LATEST@
}

impl CatalogView {
    pub open spec fn has_dataset_id(self, id: i32) -> bool {
        exists|i: int| 0 <= i < self.datasets.len() && #[trigger] self.datasets[i].id == id
    }

    pub open spec fn partitions_of(self, dataset_id: i32) -> Seq<PartitionView> {
        self.partitions.filter(in_dataset(dataset_id))
    }

    /// Partition rows sorted by creation time, unique per dataset and name, never named
    /// `latest`, and each in a live dataset.
    pub open spec fn partitions_wf(self) -> bool {
        &&& forall|i: int, j: int|
            0 <= i < j < self.partitions.len() ==> (#[trigger] self.partitions[i]).created_at
                <= (#[trigger] self.partitions[j]).created_at
        &&& forall|i: int, j: int|
            0 <= i < self.partitions.len() && 0 <= j < self.partitions.len() && i != j
                ==> !((#[trigger] self.partitions[i]).dataset_id
                == (#[trigger] self.partitions[j]).dataset_id && self.partitions[i].name
                == self.partitions[j].name)
        &&& forall|i: int|
            0 <= i < self.partitions.len() ==> {
                &&& (#[trigger] self.partitions[i]).name != latest_name()
                &&& self.has_dataset_id(self.partitions[i].dataset_id)
                &&& self.partitions[i].created_at <= self.clock
                &&& self.partitions[i].id < self.next_partition_id
            }
    }

    /// Dataset rows with increasing ids, unique names, sorted by creation time, each schema a map
    /// from column name.
    pub open spec fn datasets_wf(self) -> bool {
        &&& forall|i: int, j: int|
            0 <= i < j < self.datasets.len() ==> (#[trigger] self.datasets[i]).id
                < (#[trigger] self.datasets[j]).id && self.datasets[i].created_at
                <= self.datasets[j].created_at
        &&& forall|i: int, j: int|
            0 <= i < self.datasets.len() && 0 <= j < self.datasets.len() && i != j
                ==> (#[trigger] self.datasets[i]).name != (#[trigger] self.datasets[j]).name
        &&& forall|i: int|
            0 <= i < self.datasets.len() ==> (#[trigger] self.datasets[i]).id
                < self.next_dataset_id && self.datasets[i].created_at <= self.clock
                && schema_names_unique(self.datasets[i].schema)
    }

    /// Manager rows with unique emails, unique API keys and salts of the alphabet.
    pub open spec fn managers_wf(self) -> bool {
        &&& forall|i: int, j: int|
            0 <= i < self.managers.len() && 0 <= j < self.managers.len() && i != j
                ==> (#[trigger] self.managers[i]).email != (#[trigger] self.managers[j]).email
                && self.managers[i].api_key != self.managers[j].api_key
        &&& forall|i: int|
            0 <= i < self.managers.len() ==> crate::credentials::is_salt(
                (#[trigger] self.managers[i]).salt,
            ) && self.managers[i].id < self.next_manager_id
    }

    pub open spec fn wf(self) -> bool {
        &&& self.partitions_wf()
        &&& self.datasets_wf()
        &&& self.managers_wf()
        &&& self.next_manager_id >= 1
        &&& self.next_dataset_id >= 1
        &&& self.next_partition_id >= 1
    }

    /// The time stamp of a write at `now`: never before an earlier stamp.
    pub open spec fn stamp(self, now: Timestamp) -> Timestamp {
        if now > self.clock {
            now
        } else {
            self.clock
        }
    }

    /// The position of the partition row of a dataset with a name, if there is one.
    pub open spec fn partition_index(self, dataset_id: i32, name: Seq<char>) -> Option<int> {
        if exists|i: int|
            0 <= i < self.partitions.len() && #[trigger] self.partitions[i].dataset_id
                == dataset_id && self.partitions[i].name == name {
            Some(
                choose|i: int|
                    0 <= i < self.partitions.len() && #[trigger] self.partitions[i].dataset_id
                        == dataset_id && self.partitions[i].name == name,
            )
        } else {
            None
        }
    }

    /// A successful upsert: an existing row gets the new url and size, else a row is added.
    pub open spec fn upsert_partition(
        self,
        dataset_id: i32,
        name: Seq<char>,
        url: Seq<char>,
        size: i64,
        now: Timestamp,
    ) -> CatalogView {
        let t = self.stamp(now);
        match self.partition_index(dataset_id, name) {
            Some(i) => CatalogView {
                partitions: self.partitions.update(
                    i,
                    PartitionView { url, size, updated_at: t, ..self.partitions[i] },
                ),
                clock: t,
                ..self
            },
            None => CatalogView {
                partitions: self.partitions.push(
                    PartitionView {
                        id: self.next_partition_id,
                        name,
                        url,
                        size,
                        dataset_id,
                        created_at: t,
                        updated_at: t,
                    },
                ),
                next_partition_id: (self.next_partition_id + 1) as i32,
                clock: t,
                ..self
            },
        }
    }

    /// The catalog without the partition row of a dataset with a name.
    pub open spec fn remove_partition(self, dataset_id: i32, name: Seq<char>) -> CatalogView {
        match self.partition_index(dataset_id, name) {
            Some(i) => CatalogView { partitions: self.partitions.remove(i), ..self },
            None => self,
        }
    }

    /// The row that a partition lookup finds: the dataset's most recent for `latest`, else the
    /// row with that name.
    pub open spec fn lookup_partition(self, dataset_id: i32, name: Seq<char>) -> Option<
        PartitionView,
    > {
        if name == latest_name() {
            let rows = self.partitions_of(dataset_id);
            if rows.len() == 0 {
                None
            } else {
                Some(rows.last())
            }
        } else {
            match self.partition_index(dataset_id, name) {
                Some(i) => Some(self.partitions[i]),
                None => None,
            }
        }
    }

    /// The partition row can be upserted: the name is not reserved, the dataset is live, and a
    /// new row would still get an id.
    pub open spec fn can_upsert(self, dataset_id: i32, name: Seq<char>) -> bool {
        &&& name != latest_name()
        &&& self.has_dataset_id(dataset_id)
        &&& (self.partition_index(dataset_id, name) is Some || self.next_partition_id < i32::MAX)
    }

    /// The position of the dataset with a name, if there is one.
    pub open spec fn dataset_index(self, name: Seq<char>) -> Option<int> {
        if exists|i: int| 0 <= i < self.datasets.len() && #[trigger] self.datasets[i].name == name {
            Some(choose|i: int| 0 <= i < self.datasets.len() && #[trigger] self.datasets[i].name == name)
        } else {
            None
        }
    }

    pub open spec fn lookup_dataset(self, name: Seq<char>) -> Option<DatasetView> {
        match self.dataset_index(name) {
            Some(i) => Some(self.datasets[i]),
            None => None,
        }
    }

    pub open spec fn has_manager_id(self, id: i32) -> bool {
        exists|i: int| 0 <= i < self.managers.len() && #[trigger] self.managers[i].id == id
    }

    /// A dataset can be added: its name is free, its manager exists, and an id is left.
    pub open spec fn can_add_dataset(self, manager_id: i32, name: Seq<char>) -> bool {
        &&& self.dataset_index(name) is None
        &&& self.has_manager_id(manager_id)
        &&& self.next_dataset_id < i32::MAX
    }

    /// The catalog with a new dataset row at the end.
    pub open spec fn add_dataset(
        self,
        manager_id: i32,
        name: Seq<char>,
        compression: Compression,
        format: Format,
        classification: Classification,
        schema: Seq<(Seq<char>, Option<Seq<char>>)>,
        description: Seq<char>,
        now: Timestamp,
    ) -> CatalogView {
        let t = self.stamp(now);
        CatalogView {
            datasets: self.datasets.push(
                DatasetView {
                    id: self.next_dataset_id,
                    manager_id,
                    name,
                    classification,
                    compression,
                    format,
                    description,
                    schema,
                    created_at: t,
                    updated_at: t,
                },
            ),
            next_dataset_id: (self.next_dataset_id + 1) as i32,
            clock: t,
            ..self
        }
    }

    /// The catalog without the dataset of that name and without its partitions.
    pub open spec fn remove_dataset(self, name: Seq<char>) -> CatalogView {
        match self.dataset_index(name) {
            Some(i) => CatalogView {
                datasets: self.datasets.remove(i),
                partitions: self.partitions.filter(not_in_dataset(self.datasets[i].id)),
                ..self
            },
            None => self,
        }
    }

    /// The rows of a range query over all datasets.
    pub open spec fn dataset_range(self, p: RangeParams) -> Seq<DatasetView> {
        page(self.datasets.filter(dataset_in_range(p)), p)
    }

    /// The position of the manager with an email, if there is one.
    pub open spec fn manager_index(self, email: Seq<char>) -> Option<int> {
        if exists|i: int| 0 <= i < self.managers.len() && #[trigger] self.managers[i].email == email {
            Some(choose|i: int| 0 <= i < self.managers.len() && #[trigger] self.managers[i].email == email)
        } else {
            None
        }
    }

    /// The first manager with an API key, if there is one.
    pub open spec fn key_index(self, api_key: u128) -> Option<int> {
        if exists|i: int| 0 <= i < self.managers.len() && #[trigger] self.managers[i].api_key == api_key {
            Some(choose|i: int|
                0 <= i < self.managers.len() && #[trigger] self.managers[i].api_key == api_key
                    && forall|k: int| 0 <= k < i ==> #[trigger] self.managers[k].api_key != api_key)
        } else {
            None
        }
    }

    /// What authentication with an email and a password gives: the manager, when the password
    /// hashes under its salt to its stored hash.
    pub open spec fn authenticates(self, email: Seq<char>, password: Seq<char>) -> bool {
        match self.manager_index(email) {
            Some(i) => crate::credentials::argon2d_of(password, self.managers[i].salt)
                == self.managers[i].hash,
            None => false,
        }
    }

    /// A manager row that registration of `email` with `password` at `now` may add: the next id,
    /// a salt of the alphabet, the password's hash under it, and a version-4 API key.
    pub open spec fn fresh_manager(
        self,
        m: ManagerView,
        email: Seq<char>,
        password: Seq<char>,
        now: Timestamp,
    ) -> bool {
        &&& m.id == self.next_manager_id
        &&& m.email == email
        &&& !m.admin
        &&& m.created_at == self.stamp(now)
        &&& m.updated_at == self.stamp(now)
        &&& crate::credentials::is_salt(m.salt)
        &&& m.hash == crate::credentials::argon2d_of(password, m.salt)
        &&& crate::credentials::uuid_version(m.api_key) == 4
        &&& forall|i: int| 0 <= i < self.managers.len() ==> #[trigger] self.managers[i].api_key != m.api_key
    }

    pub open spec fn add_manager(self, m: ManagerView, now: Timestamp) -> CatalogView {
        CatalogView {
            managers: self.managers.push(m),
            next_manager_id: (self.next_manager_id + 1) as i32,
            clock: self.stamp(now),
            ..self
        }
    }

    /// The rows of a range query over a dataset's partitions.
    pub open spec fn partition_range(self, dataset_id: i32, p: RangeParams) -> Seq<PartitionView> {
        page(self.partitions.filter(in_range(dataset_id, p)), p)
    }
}

/// An in-memory catalog.
pub struct Catalog {
    managers: Vec<Manager>,
    datasets: Vec<Dataset>,
    partitions: Vec<Partition>,
    next_manager_id: i32,
    next_dataset_id: i32,
    next_partition_id: i32,
    clock: Timestamp,
}

impl View for Catalog {
    type V = CatalogView;

    closed spec fn view(&self) -> CatalogView {
        CatalogView {
            managers: self.managers@.map_values(|m: Manager| m@),
            datasets: self.datasets@.map_values(|d: Dataset| d@),
            partitions: self.partitions@.map_values(|p: Partition| p@),
            next_manager_id: self.next_manager_id,
            next_dataset_id: self.next_dataset_id,
            next_partition_id: self.next_partition_id,
            clock: self.clock,
        }
    }
}

proof fn lemma_filter_prefix<T>(s: Seq<T>, i: int, f: spec_fn(T) -> bool)
    requires
        0 <= i < s.len(),
    ensures
        s.subrange(0, i + 1).filter(f) == if f(s[i]) {
            s.subrange(0, i).filter(f).push(s[i])
        } else {
            s.subrange(0, i).filter(f)
        },
{
    assert(s.subrange(0, i + 1) =~= s.subrange(0, i).push(s[i]));
    s.subrange(0, i).lemma_filter_push(s[i], f);
}

/// Filtering keeps partition rows sorted and their keys unique, and keeps only rows that were
/// there.
pub proof fn lemma_filter_partitions(s: Seq<PartitionView>, f: spec_fn(PartitionView) -> bool)
    requires
        forall|i: int, j: int|
            0 <= i < j < s.len() ==> (#[trigger] s[i]).created_at <= (#[trigger] s[j]).created_at,
        forall|i: int, j: int|
            0 <= i < s.len() && 0 <= j < s.len() && i != j ==> !((#[trigger] s[i]).dataset_id
                == (#[trigger] s[j]).dataset_id && s[i].name == s[j].name),
    ensures
        forall|i: int, j: int|
            0 <= i < j < s.filter(f).len() ==> (#[trigger] s.filter(f)[i]).created_at
                <= (#[trigger] s.filter(f)[j]).created_at,
        forall|i: int, j: int|
            0 <= i < s.filter(f).len() && 0 <= j < s.filter(f).len() && i != j ==> !(
            (#[trigger] s.filter(f)[i]).dataset_id == (#[trigger] s.filter(f)[j]).dataset_id
                && s.filter(f)[i].name == s.filter(f)[j].name),
        forall|i: int| 0 <= i < s.filter(f).len() ==> f(#[trigger] s.filter(f)[i]),
        forall|i: int| 0 <= i < s.filter(f).len() ==> s.contains(#[trigger] s.filter(f)[i]),
    decreases s.len(),
{
    reveal(Seq::filter);
    if s.len() > 0 {
        let d = s.drop_last();
        lemma_filter_partitions(d, f);
        let fd = d.filter(f);
        assert forall|i: int| 0 <= i < fd.len() implies #[trigger] fd[i].created_at
            <= s.last().created_at && !(fd[i].dataset_id == s.last().dataset_id && fd[i].name
            == s.last().name) by {
            assert(d.contains(fd[i]));
            let k = choose|k: int| 0 <= k < d.len() && d[k] == fd[i];
            assert(s[k] == fd[i]);
            assert(s[s.len() - 1] == s.last());
        }
        assert forall|i: int| 0 <= i < fd.len() implies s.contains(#[trigger] fd[i]) by {
            assert(d.contains(fd[i]));
            let k = choose|k: int| 0 <= k < d.len() && d[k] == fd[i];
            assert(s[k] == fd[i]);
        }
        assert(s[s.len() - 1] == s.last());
    }
}

/// Decides `occurs_in`.
pub fn occurs(term: &str, s: &str) -> (r: bool)
    ensures
        r == occurs_in(term@, s@),
{
    let m = term.unicode_len();
    let n = s.unicode_len();
    if m > n {
        return false;
    }
    let mut i: usize = 0;
    loop
        invariant
            m == term@.len(),
            n == s@.len(),
            m <= n,
            i <= n - m,
            forall|k: int| 0 <= k < i ==> #[trigger] s@.subrange(k, k + m) != term@,
        decreases n - m - i,
    {
        let mut j: usize = 0;
        let mut same = true;
        while j < m && same
            invariant
                m == term@.len(),
                n == s@.len(),
                i + m <= n,
                j <= m,
                same ==> forall|k: int| 0 <= k < j ==> s@[i + k] == term@[k],
                !same ==> s@.subrange(i as int, i + m) != term@,
            decreases m - j + (if same { 1int } else { 0int }),
        {
            if s.get_char(i + j) != term.get_char(j) {
                assert(s@.subrange(i as int, i + m)[j as int] != term@[j as int]);
                same = false;
            } else {
                j = j + 1;
            }
        }
        if same {
            assert(s@.subrange(i as int, i + m) =~= term@);
            return true;
        }
        if i == n - m {
            assert forall|k: int| 0 <= k && k + term@.len() <= s@.len() implies #[trigger] s@.subrange(k, k + term@.len()) != term@ by {
                assert(k <= i);
            }
            return false;
        }
        i = i + 1;
    }
}

/// Which datasets a listing keeps.
pub enum Selection<'a> {
    InRange(RangeParams),
    OfManager(i32),
    NameHas(&'a str),
}

pub open spec fn selection_pred(sel: Selection) -> spec_fn(DatasetView) -> bool {
    match sel {
        Selection::InRange(p) => dataset_in_range(p),
        Selection::OfManager(id) => of_manager(id),
        Selection::NameHas(t) => name_has(t@),
    }
}

fn selects(sel: &Selection, d: &Dataset) -> (r: bool)
    ensures
        r == selection_pred(*sel)(d@),
{
    match sel {
        Selection::InRange(p) => (match p.start {
            Some(st) => st <= d.created_at,
            None => true,
        }) && (match p.end {
            Some(e) => d.created_at <= e,
            None => true,
        }),
        Selection::OfManager(id) => d.manager_id == *id,
        Selection::NameHas(t) => occurs(t, d.name.as_str()),
    }
}

/// Filtering keeps dataset rows in order by id and creation time, keeps their names unique, and
/// keeps only rows that were there.
pub proof fn lemma_filter_datasets(s: Seq<DatasetView>, f: spec_fn(DatasetView) -> bool)
    requires
        forall|i: int, j: int|
            0 <= i < j < s.len() ==> (#[trigger] s[i]).id < (#[trigger] s[j]).id && s[i].created_at
                <= s[j].created_at,
    ensures
        forall|i: int, j: int|
            0 <= i < j < s.filter(f).len() ==> (#[trigger] s.filter(f)[i]).id
                < (#[trigger] s.filter(f)[j]).id && s.filter(f)[i].created_at
                <= s.filter(f)[j].created_at,
        forall|i: int| 0 <= i < s.filter(f).len() ==> f(#[trigger] s.filter(f)[i]),
        forall|i: int| 0 <= i < s.filter(f).len() ==> s.contains(#[trigger] s.filter(f)[i]),
    decreases s.len(),
{
    reveal(Seq::filter);
    if s.len() > 0 {
        let d = s.drop_last();
        lemma_filter_datasets(d, f);
        let fd = d.filter(f);
        assert forall|i: int| 0 <= i < fd.len() implies #[trigger] fd[i].id < s.last().id
            && fd[i].created_at <= s.last().created_at && s.contains(fd[i]) by {
            assert(d.contains(fd[i]));
            let k = choose|k: int| 0 <= k < d.len() && d[k] == fd[i];
            assert(s[k] == fd[i]);
            assert(s[s.len() - 1] == s.last());
        }
        assert(s[s.len() - 1] == s.last());
    }
}

impl Catalog {
    /// An empty catalog whose clock starts at `now`.
    pub fn new(now: Timestamp) -> (r: Catalog)
        ensures
            r@.wf(),
            r@.managers.len() == 0,
            r@.datasets.len() == 0,
            r@.partitions.len() == 0,
            r@.next_manager_id == 1,
            r@.next_dataset_id == 1,
            r@.next_partition_id == 1,
            r@.clock == now,
    {
        let r = Catalog {
            managers: Vec::new(),
            datasets: Vec::new(),
            partitions: Vec::new(),
            next_manager_id: 1,
            next_dataset_id: 1,
            next_partition_id: 1,
            clock: now,
        };
        assert(r@.partitions =~= Seq::<PartitionView>::empty());
        assert(r@.datasets =~= Seq::<DatasetView>::empty());
        assert(r@.managers =~= Seq::<ManagerView>::empty());
        r
    }

    fn has_dataset(&self, dataset_id: i32) -> (r: bool)
        ensures
            r == self@.has_dataset_id(dataset_id),
    {
        let mut i: usize = 0;
        while i < self.datasets.len()
            invariant
                i <= self.datasets@.len(),
                self@.datasets.len() == self.datasets@.len(),
                forall|k: int| 0 <= k < i ==> (#[trigger] self@.datasets[k]).id != dataset_id,
            decreases self.datasets@.len() - i,
        {
            if self.datasets[i].id == dataset_id {
                assert(self@.datasets[i as int].id == dataset_id);
                return true;
            }
            i = i + 1;
        }
        false
    }

    proof fn lemma_index_is(&self, dataset_id: i32, name: Seq<char>, i: int)
        requires
            self@.wf(),
            0 <= i < self@.partitions.len(),
            self@.partitions[i].dataset_id == dataset_id,
            self@.partitions[i].name == name,
        ensures
            self@.partition_index(dataset_id, name) == Some(i),
    {
    }

    /// Inserts a partition of the dataset, or, where one of that name exists, overwrites its url
    /// and size. The reserved name `latest` is refused and leaves the catalog as it was.
    pub fn register_partition(
        &mut self,
        dataset: &Dataset,
        name: &str,
        url: &str,
        size: i64,
        now: Timestamp,
    ) -> (r: Result<Partition, Error>)
        requires
            old(self)@.wf(),
        ensures
            final(self)@.wf(),
            name@ == latest_name() ==> (r matches Err(Error::InputValidation(_))),
            old(self)@.can_upsert(dataset.id, name@) ==> (r matches Ok(p) && final(self)@
                == old(self)@.upsert_partition(dataset.id, name@, url@, size, now) && p@
                == final(self)@.lookup_partition(dataset.id, name@).unwrap()),
            name@ != latest_name() && !old(self)@.can_upsert(dataset.id, name@) ==> (r matches Err(
                Error::Sql(_),
            )),
            r is Err ==> final(self)@ == old(self)@,
    {
        if str_eq(name, PARTITION_LATEST) {
            return Err(Error::InputValidation(owned("cannot use reserved name 'latest' for partition")));
        }
        if !self.has_dataset(dataset.id) {
            return Err(Error::Sql(owned("insert or update on table \"partitions\" violates foreign key constraint")));
        }
        let ghost old_view = self@;
        let t = if now > self.clock {
            now
        } else {
            self.clock
        };
        match self.find_partition_index(dataset.id, name) {
            Some(i) => {
                proof {
                    self.lemma_index_is(dataset.id, name@, i as int);
                }
                let old_p = &self.partitions[i];
                let p = Partition {
                    id: old_p.id,
                    name: old_p.name.clone(),
                    url: owned(url),
                    size,
                    dataset_id: old_p.dataset_id,
                    created_at: old_p.created_at,
                    updated_at: t,
                };
                let out = p.copy();
                self.partitions.set(i, p);
                self.clock = t;
                proof {
                    assert(self@.partitions =~= old_view.partitions.update(
                        i as int,
                        PartitionView { url: url@, size, updated_at: t, ..old_view.partitions[i as int] },
                    ));
                    assert(self@ == old_view.upsert_partition(dataset.id, name@, url@, size, now));
                    assert(self@.datasets == old_view.datasets);
                    assert(self@.wf());
                    self.lemma_index_is(dataset.id, name@, i as int);
                }
                Ok(out)
            },
            None => {
                if self.next_partition_id == i32::MAX {
                    return Err(Error::Sql(owned("partition id space exhausted")));
                }
                let p = Partition {
                    id: self.next_partition_id,
                    name: owned(name),
                    url: owned(url),
                    size,
                    dataset_id: dataset.id,
                    created_at: t,
                    updated_at: t,
                };
                let out = p.copy();
                self.partitions.push(p);
                self.next_partition_id = self.next_partition_id + 1;
                self.clock = t;
                proof {
                    assert(self@.partitions =~= old_view.partitions.push(out@));
                    assert(self@ == old_view.upsert_partition(dataset.id, name@, url@, size, now));
                    assert(self@.datasets == old_view.datasets);
                    assert forall|k: int| 0 <= k < self@.partitions.len() implies
                        self@.has_dataset_id(#[trigger] self@.partitions[k].dataset_id) by {
                        if k < old_view.partitions.len() {
                            assert(old_view.has_dataset_id(old_view.partitions[k].dataset_id));
                        }
                    }
                    assert(self@.wf());
                    self.lemma_index_is(dataset.id, name@, old_view.partitions.len() as int);
                }
                Ok(out)
            },
        }
    }

    /// Deletes the partition of the dataset with that name, if there is one.
    pub fn delete_partition(&mut self, dataset: &Dataset, name: &str) -> (r: Result<(), Error>)
        requires
            old(self)@.wf(),
        ensures
            final(self)@.wf(),
            r is Ok,
            final(self)@ == old(self)@.remove_partition(dataset.id, name@),
    {
        match self.find_partition_index(dataset.id, name) {
            Some(i) => {
                proof {
                    self.lemma_index_is(dataset.id, name@, i as int);
                }
                let ghost old_view = self@;
                self.partitions.remove(i);
                proof {
                    assert(self@.partitions =~= old_view.partitions.remove(i as int));
                    assert(self@ == old_view.remove_partition(dataset.id, name@));
                    assert forall|a: int, b: int|
                        0 <= a < self@.partitions.len() && 0 <= b < self@.partitions.len() && a
                            != b implies !((#[trigger] self@.partitions[a]).dataset_id
                        == (#[trigger] self@.partitions[b]).dataset_id && self@.partitions[a].name
                        == self@.partitions[b].name) by {
                        let a0 = if a < i { a } else { a + 1 };
                        let b0 = if b < i { b } else { b + 1 };
                        assert(self@.partitions[a] == old_view.partitions[a0]);
                        assert(self@.partitions[b] == old_view.partitions[b0]);
                    }
                    assert forall|a: int, b: int|
                        0 <= a < b < self@.partitions.len() implies (#[trigger] self@.partitions[a]).created_at
                        <= (#[trigger] self@.partitions[b]).created_at by {
                        let a0 = if a < i { a } else { a + 1 };
                        let b0 = if b < i { b } else { b + 1 };
                        assert(self@.partitions[a] == old_view.partitions[a0]);
                        assert(self@.partitions[b] == old_view.partitions[b0]);
                    }
                    assert forall|k: int| 0 <= k < self@.partitions.len() implies
                        self@.has_dataset_id(#[trigger] self@.partitions[k].dataset_id) by {
                        let k0 = if k < i { k } else { k + 1 };
                        assert(self@.partitions[k] == old_view.partitions[k0]);
                        assert(old_view.has_dataset_id(old_view.partitions[k0].dataset_id));
                    }
                    assert(self@.wf());
                }
            },
            None => {},
        }
        Ok(())
    }

    /// The dataset's partition with that name; for `latest`, its most recently created one.
    pub fn find_partition(&self, dataset: &Dataset, name: &str) -> (r: Result<Partition, Error>)
        requires
            self@.wf(),
        ensures
            match self@.lookup_partition(dataset.id, name@) {
                Some(v) => r matches Ok(p) && p@ == v,
                None => r matches Err(Error::Sql(_)),
            },
    {
        if str_eq(name, PARTITION_LATEST) {
            let mut found: Option<usize> = None;
            let mut i: usize = 0;
            while i < self.partitions.len()
                invariant
                    i <= self.partitions@.len(),
                    self@.partitions.len() == self.partitions@.len(),
                    match found {
                        Some(k) => k < i && self@.partitions.subrange(0, i as int).filter(
                            in_dataset(dataset.id),
                        ).len() > 0 && self@.partitions.subrange(0, i as int).filter(
                            in_dataset(dataset.id),
                        ).last() == self@.partitions[k as int],
                        None => self@.partitions.subrange(0, i as int).filter(
                            in_dataset(dataset.id),
                        ).len() == 0,
                    },
                decreases self.partitions@.len() - i,
            {
                proof {
                    lemma_filter_prefix(self@.partitions, i as int, in_dataset(dataset.id));
                }
                if self.partitions[i].dataset_id == dataset.id {
                    found = Some(i);
                }
                i = i + 1;
            }
            assert(self@.partitions.subrange(0, i as int) =~= self@.partitions);
            match found {
                Some(k) => Ok(self.partitions[k].copy()),
                None => Err(Error::Sql(owned("query returned an unexpected number of rows"))),
            }
        } else {
            match self.find_partition_index(dataset.id, name) {
                Some(i) => {
                    proof {
                        self.lemma_index_is(dataset.id, name@, i as int);
                    }
                    Ok(self.partitions[i].copy())
                },
                None => Err(Error::Sql(owned("query returned an unexpected number of rows"))),
            }
        }
    }

    /// The dataset's partitions within the range, sorted by creation time; no parameters means
    /// all of them. A negative offset or count is refused, as the store refuses it.
    pub fn list_partitions(&self, dataset: &Dataset, params: Option<RangeParams>) -> (r: Result<
        Vec<Partition>,
        Error,
    >)
        requires
            self@.wf(),
        ensures
            pagination_ok(crate::range_query::params_or_default(params)) ==> (r matches Ok(v)
                && v@.map_values(|p: Partition| p@) == self@.partition_range(
                dataset.id,
                crate::range_query::params_or_default(params),
            )),
            !pagination_ok(crate::range_query::params_or_default(params)) ==> (r matches Err(
                Error::Sql(_),
            )),
    {
        let p = match params {
            Some(p) => p,
            None => RangeParams { start: None, end: None, offset: None, count: None },
        };
        let bad_offset = match p.offset {
            Some(o) => o < 0,
            None => false,
        };
        let bad_count = match p.count {
            Some(c) => c < 0,
            None => false,
        };
        if bad_offset || bad_count {
            return Err(Error::Sql(owned("OFFSET and LIMIT must not be negative")));
        }
        let ghost f = in_range(dataset.id, p);
        let mut rows: Vec<Partition> = Vec::new();
        let mut i: usize = 0;
        while i < self.partitions.len()
            invariant
                i <= self.partitions@.len(),
                self@.partitions.len() == self.partitions@.len(),
                f == in_range(dataset.id, p),
                rows@.map_values(|q: Partition| q@) == self@.partitions.subrange(0, i as int).filter(f),
            decreases self.partitions@.len() - i,
        {
            proof {
                lemma_filter_prefix(self@.partitions, i as int, f);
            }
            let q = &self.partitions[i];
            let inside = q.dataset_id == dataset.id && match p.start {
                Some(st) => st <= q.created_at,
                None => true,
            } && match p.end {
                Some(e) => q.created_at <= e,
                None => true,
            };
            if inside {
                let c = q.copy();
                rows.push(c);
                assert(rows@.map_values(|q: Partition| q@) =~= self@.partitions.subrange(0, i as int).filter(f).push(self@.partitions[i as int]));
            }
            i = i + 1;
        }
        assert(self@.partitions.subrange(0, i as int) =~= self@.partitions);
        let n = rows.len();
        let from: usize = match p.offset {
            Some(o) => if o as usize >= n { n } else { o as usize },
            None => 0,
        };
        let avail = n - from;
        let take: usize = match p.count {
            Some(c) => if c as usize >= avail { avail } else { c as usize },
            None => avail,
        };
        let mut out: Vec<Partition> = Vec::new();
        let mut k: usize = 0;
        while k < take
            invariant
                k <= take,
                from + take <= n,
                n == rows@.len(),
                out@.len() == k,
                forall|j: int| 0 <= j < k ==> (#[trigger] out@[j])@ == rows@[from + j]@,
            decreases take - k,
        {
            out.push(rows[from + k].copy());
            k = k + 1;
        }
        let ghost all = self@.partitions.filter(f);
        assert(rows@.map_values(|q: Partition| q@) == all);
        assert(out@.map_values(|q: Partition| q@) =~= page(all, p));
        Ok(out)
    }

    fn find_dataset_index(&self, name: &str) -> (r: Option<usize>)
        requires
            self@.wf(),
        ensures
            match r {
                Some(i) => self@.dataset_index(name@) == Some(i as int),
                None => self@.dataset_index(name@) is None,
            },
    {
        let mut i: usize = 0;
        while i < self.datasets.len()
            invariant
                i <= self.datasets@.len(),
                self@.datasets.len() == self.datasets@.len(),
                forall|k: int| 0 <= k < i ==> (#[trigger] self@.datasets[k]).name != name@,
                self@.wf(),
            decreases self.datasets@.len() - i,
        {
            if str_eq(self.datasets[i].name.as_str(), name) {
                proof {
                    assert(self@.datasets[i as int].name == name@);
                    let j = choose|j: int| 0 <= j < self@.datasets.len() && #[trigger] self@.datasets[j].name == name@;
                    if j != i {
                        assert(self@.datasets[j].name != self@.datasets[i as int].name);
                    }
                }
                return Some(i);
            }
            i = i + 1;
        }
        None
    }

    fn has_manager(&self, id: i32) -> (r: bool)
        ensures
            r == self@.has_manager_id(id),
    {
        let mut i: usize = 0;
        while i < self.managers.len()
            invariant
                i <= self.managers@.len(),
                self@.managers.len() == self.managers@.len(),
                forall|k: int| 0 <= k < i ==> (#[trigger] self@.managers[k]).id != id,
            decreases self.managers@.len() - i,
        {
            if self.managers[i].id == id {
                assert(self@.managers[i as int].id == id);
                return true;
            }
            i = i + 1;
        }
        false
    }

    /// Adds a dataset owned by the manager. A name already in use, or a manager that is not in
    /// the catalog, is refused. The schema is a map from column name (see `schema_is_map`).
    pub fn register_dataset(
        &mut self,
        manager: &Manager,
        name: &str,
        compression: Compression,
        format: Format,
        classification: Classification,
        schema: DatasetSchema,
        description: &str,
        now: Timestamp,
    ) -> (r: Result<Dataset, Error>)
        requires
            old(self)@.wf(),
            schema_names_unique(schema_view(schema@)),
        ensures
            final(self)@.wf(),
            old(self)@.can_add_dataset(manager.id, name@) ==> (r matches Ok(d) && final(self)@
                == old(self)@.add_dataset(
                manager.id,
                name@,
                compression,
                format,
                classification,
                schema_view(schema@),
                description@,
                now,
            ) && final(self)@.lookup_dataset(name@) == Some(d@)),
            !old(self)@.can_add_dataset(manager.id, name@) ==> (r matches Err(Error::Sql(_))
                && final(self)@ == old(self)@),
    {
        if self.find_dataset_index(name).is_some() {
            return Err(Error::Sql(owned("duplicate key value violates unique constraint \"datasets_dataset_name_key\"")));
        }
        if !self.has_manager(manager.id) {
            return Err(Error::Sql(owned("insert or update on table \"datasets\" violates foreign key constraint")));
        }
        if self.next_dataset_id == i32::MAX {
            return Err(Error::Sql(owned("dataset id space exhausted")));
        }
        let ghost old_view = self@;
        let t = if now > self.clock {
            now
        } else {
            self.clock
        };
        let d = Dataset {
            id: self.next_dataset_id,
            manager_id: manager.id,
            name: owned(name),
            classification,
            compression,
            format,
            description: owned(description),
            schema,
            created_at: t,
            updated_at: t,
        };
        let out = d.copy();
        self.datasets.push(d);
        self.next_dataset_id = self.next_dataset_id + 1;
        self.clock = t;
        proof {
            assert(self@.datasets =~= old_view.datasets.push(out@));
            assert(self@.partitions == old_view.partitions);
            assert(self@ == old_view.add_dataset(
                manager.id,
                name@,
                compression,
                format,
                classification,
                schema_view(schema@),
                description@,
                now,
            ));
            assert forall|k: int| 0 <= k < self@.partitions.len() implies
                self@.has_dataset_id(#[trigger] self@.partitions[k].dataset_id) by {
                assert(old_view.has_dataset_id(old_view.partitions[k].dataset_id));
                let j = choose|j: int| 0 <= j < old_view.datasets.len() && #[trigger] old_view.datasets[j].id == old_view.partitions[k].dataset_id;
                assert(self@.datasets[j] == old_view.datasets[j]);
            }
            assert(self@.wf());
            let n = old_view.datasets.len() as int;
            assert(self@.datasets[n].name == name@);
            assert(self@.dataset_index(name@) == Some(n));
        }
        Ok(out)
    }

    /// The dataset with that name.
    pub fn find_dataset(&self, name: &str) -> (r: Result<Dataset, Error>)
        requires
            self@.wf(),
        ensures
            match self@.lookup_dataset(name@) {
                Some(v) => r matches Ok(d) && d@ == v,
                None => r matches Err(Error::Sql(_)),
            },
    {
        match self.find_dataset_index(name) {
            Some(i) => Ok(self.datasets[i].copy()),
            None => Err(Error::Sql(owned("query returned an unexpected number of rows"))),
        }
    }

    fn select(&self, sel: Selection) -> (r: Vec<Dataset>)
        ensures
            r@.map_values(|d: Dataset| d@) == self@.datasets.filter(selection_pred(sel)),
    {
        let ghost f = selection_pred(sel);
        let mut rows: Vec<Dataset> = Vec::new();
        let mut i: usize = 0;
        while i < self.datasets.len()
            invariant
                i <= self.datasets@.len(),
                self@.datasets.len() == self.datasets@.len(),
                f == selection_pred(sel),
                rows@.map_values(|d: Dataset| d@) == self@.datasets.subrange(0, i as int).filter(f),
            decreases self.datasets@.len() - i,
        {
            proof {
                let s = self@.datasets;
                assert(s.subrange(0, i + 1) =~= s.subrange(0, i as int).push(s[i as int]));
                s.subrange(0, i as int).lemma_filter_push(s[i as int], f);
            }
            if selects(&sel, &self.datasets[i]) {
                let c = self.datasets[i].copy();
                rows.push(c);
                assert(rows@.map_values(|d: Dataset| d@) =~= self@.datasets.subrange(0, i as int).filter(f).push(self@.datasets[i as int]));
            }
            i = i + 1;
        }
        assert(self@.datasets.subrange(0, i as int) =~= self@.datasets);
        rows
    }

    /// The datasets within the range, sorted by creation time; no parameters means all of them.
    /// A negative offset or count is refused, as the store refuses it.
    pub fn list_datasets(&self, params: Option<RangeParams>) -> (r: Result<Vec<Dataset>, Error>)
        ensures
            pagination_ok(crate::range_query::params_or_default(params)) ==> (r matches Ok(v)
                && v@.map_values(|d: Dataset| d@) == self@.dataset_range(
                crate::range_query::params_or_default(params),
            )),
            !pagination_ok(crate::range_query::params_or_default(params)) ==> (r matches Err(
                Error::Sql(_),
            )),
    {
        let p = match params {
            Some(p) => p,
            None => RangeParams { start: None, end: None, offset: None, count: None },
        };
        let bad_offset = match p.offset {
            Some(o) => o < 0,
            None => false,
        };
        let bad_count = match p.count {
            Some(c) => c < 0,
            None => false,
        };
        if bad_offset || bad_count {
            return Err(Error::Sql(owned("OFFSET and LIMIT must not be negative")));
        }
        let rows = self.select(Selection::InRange(p));
        let n = rows.len();
        let from: usize = match p.offset {
            Some(o) => if o as usize >= n { n } else { o as usize },
            None => 0,
        };
        let avail = n - from;
        let take: usize = match p.count {
            Some(c) => if c as usize >= avail { avail } else { c as usize },
            None => avail,
        };
        let mut out: Vec<Dataset> = Vec::new();
        let mut k: usize = 0;
        while k < take
            invariant
                k <= take,
                from + take <= n,
                n == rows@.len(),
                out@.len() == k,
                forall|j: int| 0 <= j < k ==> (#[trigger] out@[j])@ == rows@[from + j]@,
            decreases take - k,
        {
            out.push(rows[from + k].copy());
            k = k + 1;
        }
        let ghost all = self@.datasets.filter(dataset_in_range(p));
        assert(out@.map_values(|d: Dataset| d@) =~= page(all, p));
        Ok(out)
    }

    /// The datasets whose name contains `term`, in creation order.
    pub fn search_datasets(&self, term: &str) -> (r: Result<Vec<Dataset>, Error>)
        ensures
            r matches Ok(v) && v@.map_values(|d: Dataset| d@) == self@.datasets.filter(name_has(term@)),
    {
        Ok(self.select(Selection::NameHas(term)))
    }

    /// Deletes the dataset with the name of `dataset`, and all its partitions. Deleting a
    /// dataset that is not there changes nothing.
    pub fn delete_dataset(&mut self, dataset: &Dataset) -> (r: Result<(), Error>)
        requires
            old(self)@.wf(),
        ensures
            final(self)@.wf(),
            r is Ok,
            final(self)@ == old(self)@.remove_dataset(dataset.name@),
    {
        let i = match self.find_dataset_index(dataset.name.as_str()) {
            Some(i) => i,
            None => return Ok(()),
        };
        let ghost old_view = self@;
        let id = self.datasets[i].id;
        let ghost f = not_in_dataset(id);
        let mut kept: Vec<Partition> = Vec::new();
        let mut k: usize = 0;
        while k < self.partitions.len()
            invariant
                k <= self.partitions@.len(),
                self@ == old_view,
                self@.partitions.len() == self.partitions@.len(),
                f == not_in_dataset(id),
                kept@.map_values(|q: Partition| q@) == self@.partitions.subrange(0, k as int).filter(f),
            decreases self.partitions@.len() - k,
        {
            proof {
                lemma_filter_prefix(self@.partitions, k as int, f);
            }
            if self.partitions[k].dataset_id != id {
                let c = self.partitions[k].copy();
                kept.push(c);
                assert(kept@.map_values(|q: Partition| q@) =~= self@.partitions.subrange(0, k as int).filter(f).push(self@.partitions[k as int]));
            }
            k = k + 1;
        }
        assert(self@.partitions.subrange(0, k as int) =~= self@.partitions);
        self.partitions = kept;
        self.datasets.remove(i);
        proof {
            let ds = old_view.datasets;
            assert(self@.datasets =~= ds.remove(i as int));
            assert(self@ == old_view.remove_dataset(dataset.name@));
            lemma_filter_partitions(old_view.partitions, f);
            let np = self@.partitions;
            assert forall|a: int| 0 <= a < np.len() implies {
                &&& (#[trigger] np[a]).name != latest_name()
                &&& self@.has_dataset_id(np[a].dataset_id)
                &&& np[a].created_at <= self@.clock
                &&& np[a].id < self@.next_partition_id
            } by {
                assert(old_view.partitions.contains(np[a]));
                let b = choose|b: int| 0 <= b < old_view.partitions.len() && old_view.partitions[b] == np[a];
                assert(old_view.has_dataset_id(old_view.partitions[b].dataset_id));
                let j = choose|j: int| 0 <= j < ds.len() && #[trigger] ds[j].id == old_view.partitions[b].dataset_id;
                assert(f(np[a]));
                assert(j != i);
                let j2 = if j < i { j } else { j - 1 };
                assert(self@.datasets[j2] == ds[j]);
            }
            assert forall|a: int, b: int|
                0 <= a < self@.datasets.len() && 0 <= b < self@.datasets.len() && a != b
                    implies (#[trigger] self@.datasets[a]).name != (#[trigger] self@.datasets[b]).name by {
                let a0 = if a < i { a } else { a + 1 };
                let b0 = if b < i { b } else { b + 1 };
                assert(self@.datasets[a] == ds[a0]);
                assert(self@.datasets[b] == ds[b0]);
            }
            assert forall|a: int, b: int|
                0 <= a < b < self@.datasets.len() implies (#[trigger] self@.datasets[a]).id
                    < (#[trigger] self@.datasets[b]).id && self@.datasets[a].created_at
                    <= self@.datasets[b].created_at by {
                let a0 = if a < i { a } else { a + 1 };
                let b0 = if b < i { b } else { b + 1 };
                assert(self@.datasets[a] == ds[a0]);
                assert(self@.datasets[b] == ds[b0]);
            }
            assert(self@.wf());
        }
        Ok(())
    }

    fn find_manager_index(&self, email: &str) -> (r: Option<usize>)
        requires
            self@.wf(),
        ensures
            match r {
                Some(i) => self@.manager_index(email@) == Some(i as int),
                None => self@.manager_index(email@) is None,
            },
    {
        let mut i: usize = 0;
        while i < self.managers.len()
            invariant
                i <= self.managers@.len(),
                self@.managers.len() == self.managers@.len(),
                forall|k: int| 0 <= k < i ==> (#[trigger] self@.managers[k]).email != email@,
                self@.wf(),
            decreases self.managers@.len() - i,
        {
            if str_eq(self.managers[i].email.as_str(), email) {
                proof {
                    assert(self@.managers[i as int].email == email@);
                    let j = choose|j: int| 0 <= j < self@.managers.len() && #[trigger] self@.managers[j].email == email@;
                    if j != i {
                        assert(self@.managers[j].email != self@.managers[i as int].email);
                    }
                }
                return Some(i);
            }
            i = i + 1;
        }
        None
    }

    fn find_key_index(&self, api_key: u128) -> (r: Option<usize>)
        ensures
            match r {
                Some(i) => self@.key_index(api_key) == Some(i as int) && i < self@.managers.len(),
                None => self@.key_index(api_key) is None,
            },
    {
        let mut i: usize = 0;
        while i < self.managers.len()
            invariant
                i <= self.managers@.len(),
                self@.managers.len() == self.managers@.len(),
                forall|k: int| 0 <= k < i ==> #[trigger] self@.managers[k].api_key != api_key,
            decreases self.managers@.len() - i,
        {
            if self.managers[i].api_key == api_key {
                proof {
                    let ms = self@.managers;
                    assert(ms[i as int].api_key == api_key);
                    let j = choose|j: int|
                        0 <= j < ms.len() && #[trigger] ms[j].api_key == api_key
                            && forall|k: int| 0 <= k < j ==> #[trigger] ms[k].api_key != api_key;
                    if j < i {
                        assert(ms[j].api_key != api_key);
                    }
                    if j > i {
                        assert(ms[i as int].api_key != api_key);
                    }
                }
                return Some(i);
            }
            i = i + 1;
        }
        None
    }

    /// Registers a manager. With a domain, the email must end with `@<domain>`; an email already
    /// in use is refused. The manager gets a fresh salt, the password's argon2d hash under it,
    /// and a random API key; a key that another manager already holds is refused, so keys stay
    /// unique, and on a catalog with no managers that cannot happen.
    pub fn register_manager(
        &mut self,
        email: &str,
        password: &str,
        domain: Option<&str>,
        now: Timestamp,
    ) -> (r: Result<Manager, Error>)
        requires
            old(self)@.wf(),
            password.spec_bytes().len() <= u32::MAX,
        ensures
            final(self)@.wf(),
            !crate::credentials::email_allowed(email@, opt_str(domain)) ==> (r matches Err(
                Error::InputValidation(_),
            )),
            crate::credentials::email_allowed(email@, opt_str(domain)) && (old(self)@.manager_index(
                email@,
            ) is Some || old(self)@.next_manager_id == i32::MAX) ==> (r matches Err(Error::Sql(_))),
            crate::credentials::email_allowed(email@, opt_str(domain)) && old(self)@.manager_index(
                email@,
            ) is None && old(self)@.next_manager_id < i32::MAX ==> (r matches Ok(m) && old(
                self,
            )@.fresh_manager(m@, email@, password@, now) && final(self)@ == old(self)@.add_manager(
                m@,
                now,
            )) || (r matches Err(Error::Sql(_)) && exists|i: int|
                0 <= i < old(self)@.managers.len() && crate::credentials::uuid_version(
                    #[trigger] old(self)@.managers[i].api_key,
                ) == 4),
            r is Err ==> final(self)@ == old(self)@,
    {
        let creds = match crate::credentials::prepare_registration(email, password, domain) {
            Ok(c) => c,
            Err(e) => return Err(e),
        };
        if self.find_manager_index(email).is_some() {
            return Err(Error::Sql(owned("duplicate key value violates unique constraint \"managers_manager_email_key\"")));
        }
        if self.next_manager_id == i32::MAX {
            return Err(Error::Sql(owned("manager id space exhausted")));
        }
        let ghost key = creds.api_key;
        let r = self.insert_manager(email, creds.salt, creds.hash, creds.api_key, now);
        proof {
            if r is Err {
                assert(old(self)@.key_index(key) is Some);
                let i = choose|i: int|
                    0 <= i < old(self)@.managers.len() && #[trigger] old(self)@.managers[i].api_key == key;
                assert(crate::credentials::uuid_version(old(self)@.managers[i].api_key) == 4);
            }
        }
        r
    }

    /// Adds a manager with drawn secrets. An API key that another manager already holds is
    /// refused, so keys stay unique.
    pub fn insert_manager(
        &mut self,
        email: &str,
        salt: String,
        hash: Vec<u8>,
        api_key: u128,
        now: Timestamp,
    ) -> (r: Result<Manager, Error>)
        requires
            old(self)@.wf(),
            old(self)@.manager_index(email@) is None,
            old(self)@.next_manager_id < i32::MAX,
            crate::credentials::is_salt(salt@),
        ensures
            final(self)@.wf(),
            old(self)@.key_index(api_key) is Some <==> r is Err,
            r is Err ==> (r matches Err(Error::Sql(_))) && final(self)@ == old(self)@,
            r matches Ok(m) ==> m@ == (ManagerView {
                id: old(self)@.next_manager_id,
                email: email@,
                api_key,
                admin: false,
                created_at: old(self)@.stamp(now),
                updated_at: old(self)@.stamp(now),
                salt: salt@,
                hash: hash@,
            }) && final(self)@ == old(self)@.add_manager(m@, now),
    {
        if self.find_key_index(api_key).is_some() {
            return Err(Error::Sql(owned("duplicate key value violates unique constraint \"managers_api_key_key\"")));
        }
        let ghost old_view = self@;
        proof {
            assert forall|i: int| 0 <= i < old_view.managers.len() implies #[trigger] old_view.managers[i].api_key != api_key by {
                if old_view.managers[i].api_key == api_key {
                    assert(old_view.key_index(api_key) is Some);
                }
            }
        }
        let t = if now > self.clock {
            now
        } else {
            self.clock
        };
        let m = Manager {
            id: self.next_manager_id,
            email: owned(email),
            api_key,
            admin: false,
            created_at: t,
            updated_at: t,
            salt,
            hash,
        };
        let out = m.copy();
        self.managers.push(m);
        self.next_manager_id = self.next_manager_id + 1;
        self.clock = t;
        proof {
            assert(self@.managers =~= old_view.managers.push(out@));
            assert(self@ == old_view.add_manager(out@, now));
            assert forall|k: int| 0 <= k < self@.partitions.len() implies
                self@.has_dataset_id(#[trigger] self@.partitions[k].dataset_id) by {
                assert(old_view.has_dataset_id(old_view.partitions[k].dataset_id));
            }
            assert(self@.wf());
        }
        Ok(out)
    }

    /// The first manager with that API key.
    pub fn find_manager(&self, api_key: u128) -> (r: Result<Manager, Error>)
        ensures
            match self@.key_index(api_key) {
                Some(i) => r matches Ok(m) && m@ == self@.managers[i],
                None => r matches Err(Error::Sql(_)),
            },
    {
        match self.find_key_index(api_key) {
            Some(i) => Ok(self.managers[i].copy()),
            None => Err(Error::Sql(owned("query returned an unexpected number of rows"))),
        }
    }

    /// Checks a manager's credentials: the password must hash, under the stored salt, to the
    /// stored hash; the hashes are compared in constant time.
    pub fn auth_manager(&self, email: &str, password: &str) -> (r: Result<Manager, Error>)
        requires
            self@.wf(),
            password.spec_bytes().len() <= u32::MAX,
        ensures
            match self@.manager_index(email@) {
                None => r matches Err(Error::Sql(_)),
                Some(i) => if self@.authenticates(email@, password@) {
                    r matches Ok(m) && m@ == self@.managers[i]
                } else {
                    r matches Err(Error::Auth(_))
                },
            },
    {
        let i = match self.find_manager_index(email) {
            Some(i) => i,
            None => return Err(Error::Sql(owned("query returned an unexpected number of rows"))),
        };
        let m = &self.managers[i];
        if crate::credentials::password_matches(password, m.salt.as_str(), m.hash.as_slice()) {
            Ok(m.copy())
        } else {
            Err(Error::Auth(owned("invalid credentials")))
        }
    }

    /// The datasets of the manager with that API key, in creation order; none where no manager
    /// has it.
    pub fn manager_datasets(&self, api_key: u128) -> (r: Result<Vec<Dataset>, Error>)
        ensures
            match self@.key_index(api_key) {
                Some(i) => r matches Ok(v) && v@.map_values(|d: Dataset| d@) == self@.datasets.filter(
                    of_manager(self@.managers[i].id),
                ),
                None => r matches Ok(v) && v@.len() == 0,
            },
    {
        match self.find_key_index(api_key) {
            Some(i) => Ok(self.select(Selection::OfManager(self.managers[i].id))),
            None => Ok(Vec::new()),
        }
    }

    fn find_partition_index(&self, dataset_id: i32, name: &str) -> (r: Option<usize>)
        ensures
            match r {
                Some(i) => i < self@.partitions.len() && self@.partitions[i as int].dataset_id
                    == dataset_id && self@.partitions[i as int].name == name@,
                None => forall|i: int|
                    0 <= i < self@.partitions.len() ==> !(#[trigger] self@.partitions[i].dataset_id
                        == dataset_id && self@.partitions[i].name == name@),
            },
    {
        let mut i: usize = 0;
        while i < self.partitions.len()
            invariant
                i <= self.partitions@.len(),
                self@.partitions.len() == self.partitions@.len(),
                forall|k: int|
                    0 <= k < i ==> !(#[trigger] self@.partitions[k].dataset_id == dataset_id
                        && self@.partitions[k].name == name@),
            decreases self.partitions@.len() - i,
        {
            let p = &self.partitions[i];
            if p.dataset_id == dataset_id && str_eq(p.name.as_str(), name) {
                return Some(i);
            }
            i = i + 1;
        }
        None
    }
}

} // verus!

verus! {

impl Manager {
    /// Registers a manager in the catalog; see `Catalog::register_manager`.
    pub fn register(
        catalog: &mut Catalog,
        email: &str,
        password: &str,
        domain: Option<&str>,
        now: Timestamp,
    ) -> (r: Result<Manager, Error>)
        requires
            old(catalog)@.wf(),
            password.spec_bytes().len() <= u32::MAX,
        ensures
            final(catalog)@.wf(),
            !crate::credentials::email_allowed(email@, opt_str(domain)) ==> (r matches Err(
                Error::InputValidation(_),
            )),
            crate::credentials::email_allowed(email@, opt_str(domain)) && (old(
                catalog,
            )@.manager_index(email@) is Some || old(catalog)@.next_manager_id == i32::MAX) ==> (r matches Err(
                Error::Sql(_),
            )),
            crate::credentials::email_allowed(email@, opt_str(domain)) && old(
                catalog,
            )@.manager_index(email@) is None && old(catalog)@.next_manager_id < i32::MAX ==> (r matches Ok(m)
                && old(catalog)@.fresh_manager(m@, email@, password@, now) && final(catalog)@ == old(
                catalog,
            )@.add_manager(m@, now)) || (r matches Err(Error::Sql(_)) && exists|i: int|
                0 <= i < old(catalog)@.managers.len() && crate::credentials::uuid_version(
                    #[trigger] old(catalog)@.managers[i].api_key,
                ) == 4),
            r is Err ==> final(catalog)@ == old(catalog)@,
    {
        catalog.register_manager(email, password, domain, now)
    }

    /// The manager with that API key; see `Catalog::find_manager`.
    pub fn find(catalog: &Catalog, api_key: u128) -> (r: Result<Manager, Error>)
        ensures
            match catalog@.key_index(api_key) {
                Some(i) => r matches Ok(m) && m@ == catalog@.managers[i],
                None => r matches Err(Error::Sql(_)),
            },
    {
        catalog.find_manager(api_key)
    }

    /// Checks a manager's credentials; see `Catalog::auth_manager`.
    pub fn authenticate(catalog: &Catalog, email: &str, password: &str) -> (r: Result<Manager, Error>)
        requires
            catalog@.wf(),
            password.spec_bytes().len() <= u32::MAX,
        ensures
            match catalog@.manager_index(email@) {
                None => r matches Err(Error::Sql(_)),
                Some(i) => if catalog@.authenticates(email@, password@) {
                    r matches Ok(m) && m@ == catalog@.managers[i]
                } else {
                    r matches Err(Error::Auth(_))
                },
            },
    {
        catalog.auth_manager(email, password)
    }

    /// Registers a dataset owned by this manager; see `Catalog::register_dataset`.
    pub fn register_dataset(
        &self,
        catalog: &mut Catalog,
        name: &str,
        compression: Compression,
        format: Format,
        classification: Classification,
        schema: DatasetSchema,
        description: &str,
        now: Timestamp,
    ) -> (r: Result<Dataset, Error>)
        requires
            old(catalog)@.wf(),
            schema_names_unique(schema_view(schema@)),
        ensures
            final(catalog)@.wf(),
            old(catalog)@.can_add_dataset(self.id, name@) ==> (r matches Ok(d) && final(catalog)@
                == old(catalog)@.add_dataset(
                self.id,
                name@,
                compression,
                format,
                classification,
                schema_view(schema@),
                description@,
                now,
            ) && final(catalog)@.lookup_dataset(name@) == Some(d@)),
            !old(catalog)@.can_add_dataset(self.id, name@) ==> (r matches Err(Error::Sql(_))
                && final(catalog)@ == old(catalog)@),
    {
        catalog.register_dataset(self, name, compression, format, classification, schema, description, now)
    }

    /// The datasets of this manager's API key; see `Catalog::manager_datasets`.
    pub fn datasets(&self, catalog: &Catalog) -> (r: Result<Vec<Dataset>, Error>)
        ensures
            match catalog@.key_index(self.api_key) {
                Some(i) => r matches Ok(v) && v@.map_values(|d: Dataset| d@) == catalog@.datasets.filter(
                    of_manager(catalog@.managers[i].id),
                ),
                None => r matches Ok(v) && v@.len() == 0,
            },
    {
        catalog.manager_datasets(self.api_key)
    }
}

impl Dataset {
    /// The dataset with that name; see `Catalog::find_dataset`.
    pub fn find(catalog: &Catalog, name: &str) -> (r: Result<Dataset, Error>)
        requires
            catalog@.wf(),
        ensures
            match catalog@.lookup_dataset(name@) {
                Some(v) => r matches Ok(d) && d@ == v,
                None => r matches Err(Error::Sql(_)),
            },
    {
        catalog.find_dataset(name)
    }

    /// The datasets whose name contains `term`; see `Catalog::search_datasets`.
    pub fn search(catalog: &Catalog, term: &str) -> (r: Result<Vec<Dataset>, Error>)
        ensures
            r matches Ok(v) && v@.map_values(|d: Dataset| d@) == catalog@.datasets.filter(name_has(term@)),
    {
        catalog.search_datasets(term)
    }

    /// The datasets within a range; see `Catalog::list_datasets`.
    pub fn list(catalog: &Catalog, params: Option<RangeParams>) -> (r: Result<Vec<Dataset>, Error>)
        ensures
            pagination_ok(crate::range_query::params_or_default(params)) ==> (r matches Ok(v)
                && v@.map_values(|d: Dataset| d@) == catalog@.dataset_range(
                crate::range_query::params_or_default(params),
            )),
            !pagination_ok(crate::range_query::params_or_default(params)) ==> (r matches Err(
                Error::Sql(_),
            )),
    {
        catalog.list_datasets(params)
    }

    /// Deletes this dataset and its partitions; see `Catalog::delete_dataset`.
    pub fn delete(self, catalog: &mut Catalog) -> (r: Result<(), Error>)
        requires
            old(catalog)@.wf(),
        ensures
            final(catalog)@.wf(),
            r is Ok,
            final(catalog)@ == old(catalog)@.remove_dataset(self.name@),
    {
        catalog.delete_dataset(&self)
    }

    /// Upserts a partition of this dataset; see `Catalog::register_partition`.
    pub fn register_partition(
        &self,
        catalog: &mut Catalog,
        name: &str,
        url: &str,
        size: i64,
        now: Timestamp,
    ) -> (r: Result<Partition, Error>)
        requires
            old(catalog)@.wf(),
        ensures
            final(catalog)@.wf(),
            name@ == latest_name() ==> (r matches Err(Error::InputValidation(_))),
            old(catalog)@.can_upsert(self.id, name@) ==> (r matches Ok(p) && final(catalog)@
                == old(catalog)@.upsert_partition(self.id, name@, url@, size, now) && p@
                == final(catalog)@.lookup_partition(self.id, name@).unwrap()),
            name@ != latest_name() && !old(catalog)@.can_upsert(self.id, name@) ==> (r matches Err(
                Error::Sql(_),
            )),
            r is Err ==> final(catalog)@ == old(catalog)@,
    {
        catalog.register_partition(self, name, url, size, now)
    }

    /// Deletes this dataset's partition of that name; see `Catalog::delete_partition`.
    pub fn delete_partition(&self, catalog: &mut Catalog, name: &str) -> (r: Result<(), Error>)
        requires
            old(catalog)@.wf(),
        ensures
            final(catalog)@.wf(),
            r is Ok,
            final(catalog)@ == old(catalog)@.remove_partition(self.id, name@),
    {
        catalog.delete_partition(self, name)
    }

    /// This dataset's partition of that name, or its latest for `latest`; see
    /// `Catalog::find_partition`.
    pub fn partition(&self, catalog: &Catalog, name: &str) -> (r: Result<Partition, Error>)
        requires
            catalog@.wf(),
        ensures
            match catalog@.lookup_partition(self.id, name@) {
                Some(v) => r matches Ok(p) && p@ == v,
                None => r matches Err(Error::Sql(_)),
            },
    {
        catalog.find_partition(self, name)
    }

    /// This dataset's most recently created partition.
    pub fn latest_partition(&self, catalog: &Catalog) -> (r: Result<Partition, Error>)
        requires
            catalog@.wf(),
        ensures
            match catalog@.lookup_partition(self.id, latest_name()) {
                Some(v) => r matches Ok(p) && p@ == v,
                None => r matches Err(Error::Sql(_)),
            },
    {
        self.partition(catalog, PARTITION_LATEST)
    }

    /// This dataset's partitions within a range; see `Catalog::list_partitions`.
    pub fn partitions(&self, catalog: &Catalog, params: Option<RangeParams>) -> (r: Result<
        Vec<Partition>,
        Error,
    >)
        requires
            catalog@.wf(),
        ensures
            pagination_ok(crate::range_query::params_or_default(params)) ==> (r matches Ok(v)
                && v@.map_values(|p: Partition| p@) == catalog@.partition_range(
                self.id,
                crate::range_query::params_or_default(params),
            )),
            !pagination_ok(crate::range_query::params_or_default(params)) ==> (r matches Err(
                Error::Sql(_),
            )),
    {
        catalog.list_partitions(self, params)
    }
}

} // verus!

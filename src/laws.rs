//! Properties of the catalog and of ingestion that hold for all inputs.
use vstd::prelude::*;
use crate::catalog::{
    CatalogView, ManagerView, PartitionView, in_dataset, in_range, in_bounds, page,
    latest_name, lemma_filter_partitions, pagination_ok,
};
use crate::dict::{Classification, Compression, Format, RangeParams, Timestamp};
use crate::ingest::{is_overwrite_delete, notification_effect};
use crate::notification::Notification;

verus! {

broadcast use vstd::seq_lib::group_seq_properties;

/// Upserts of one partition name, one after the other: each write is a url, a size and a time.
pub open spec fn upsert_all(
    c: CatalogView,
    dataset_id: i32,
    name: Seq<char>,
    writes: Seq<(Seq<char>, i64, Timestamp)>,
) -> CatalogView
    decreases writes.len(),
{
    if writes.len() == 0 {
        c
    } else {
        let prev = upsert_all(c, dataset_id, name, writes.drop_last());
        prev.upsert_partition(dataset_id, name, writes.last().0, writes.last().1, writes.last().2)
    }
}

/// A successful upsert keeps the catalog well formed and leaves the row with the written url
/// and size.
pub proof fn lemma_upsert(
    c: CatalogView,
    dataset_id: i32,
    name: Seq<char>,
    url: Seq<char>,
    size: i64,
    now: Timestamp,
)
    requires
        c.wf(),
        c.can_upsert(dataset_id, name),
    ensures
        ({
            let r = c.upsert_partition(dataset_id, name, url, size, now);
            &&& r.wf()
            &&& r.datasets == c.datasets
            &&& r.partition_index(dataset_id, name) is Some
            &&& r.partitions[r.partition_index(dataset_id, name).unwrap()].url == url
            &&& r.partitions[r.partition_index(dataset_id, name).unwrap()].size == size
        }),
{
    let r = c.upsert_partition(dataset_id, name, url, size, now);
    let t = c.stamp(now);
    match c.partition_index(dataset_id, name) {
        Some(i) => {
            assert(0 <= i < c.partitions.len() && c.partitions[i].dataset_id == dataset_id
                && c.partitions[i].name == name);
            assert forall|k: int| 0 <= k < r.partitions.len() implies r.has_dataset_id(
                #[trigger] r.partitions[k].dataset_id,
            ) by {
                assert(c.has_dataset_id(c.partitions[k].dataset_id));
            }
            assert(r.partitions[i].dataset_id == dataset_id && r.partitions[i].name == name);
            assert(r.wf());
            let j = r.partition_index(dataset_id, name).unwrap();
            assert(r.partitions[j].dataset_id == dataset_id && r.partitions[j].name == name);
            if j != i {
                assert(r.partitions[j] == c.partitions[j]);
            }
        },
        None => {
            let n = c.partitions.len() as int;
            assert forall|k: int| 0 <= k < r.partitions.len() implies r.has_dataset_id(
                #[trigger] r.partitions[k].dataset_id,
            ) by {
                if k < n {
                    assert(c.has_dataset_id(c.partitions[k].dataset_id));
                }
            }
            assert forall|a: int, b: int|
                0 <= a < r.partitions.len() && 0 <= b < r.partitions.len() && a != b implies !(
                (#[trigger] r.partitions[a]).dataset_id == (#[trigger] r.partitions[b]).dataset_id
                    && r.partitions[a].name == r.partitions[b].name) by {
                if a == n {
                    assert(!(c.partitions[b].dataset_id == dataset_id && c.partitions[b].name == name));
                } else if b == n {
                    assert(!(c.partitions[a].dataset_id == dataset_id && c.partitions[a].name == name));
                }
            }
            assert(r.wf());
            assert(r.partitions[n].dataset_id == dataset_id && r.partitions[n].name == name);
            let j = r.partition_index(dataset_id, name).unwrap();
            if j != n {
                assert(r.partitions[j] == c.partitions[j]);
            }
        },
    }
}

/// However many times a partition of a dataset is registered under one name, the catalog ends
/// with exactly one row of that name in the dataset, holding the last url and size written.
pub proof fn law_last_write_wins(
    c: CatalogView,
    dataset_id: i32,
    name: Seq<char>,
    writes: Seq<(Seq<char>, i64, Timestamp)>,
)
    requires
        c.wf(),
        c.can_upsert(dataset_id, name),
        writes.len() > 0,
    ensures
        ({
            let f = upsert_all(c, dataset_id, name, writes);
            &&& f.wf()
            &&& exists|i: int|
                0 <= i < f.partitions.len() && f.partitions[i].dataset_id == dataset_id
                    && f.partitions[i].name == name && f.partitions[i].url == writes.last().0
                    && f.partitions[i].size == writes.last().1 && forall|j: int|
                    0 <= j < f.partitions.len() && #[trigger] f.partitions[j].dataset_id
                        == dataset_id && f.partitions[j].name == name ==> j == i
        }),
    decreases writes.len(),
{
    let prev = upsert_all(c, dataset_id, name, writes.drop_last());
    if writes.len() > 1 {
        law_last_write_wins(c, dataset_id, name, writes.drop_last());
        let i = choose|i: int|
            0 <= i < prev.partitions.len() && prev.partitions[i].dataset_id == dataset_id
                && prev.partitions[i].name == name && prev.partitions[i].url == writes.drop_last().last().0
                && prev.partitions[i].size == writes.drop_last().last().1 && forall|j: int|
                0 <= j < prev.partitions.len() && #[trigger] prev.partitions[j].dataset_id
                    == dataset_id && prev.partitions[j].name == name ==> j == i;
        assert(prev.partition_index(dataset_id, name) is Some);
        assert(prev.has_dataset_id(dataset_id));
        assert(prev.can_upsert(dataset_id, name));
    } else {
        assert(writes.drop_last().len() == 0);
        assert(prev == c);
    }
    let w = writes.last();
    lemma_upsert(prev, dataset_id, name, w.0, w.1, w.2);
    let f = prev.upsert_partition(dataset_id, name, w.0, w.1, w.2);
    let i = f.partition_index(dataset_id, name).unwrap();
    assert(f.partitions[i].dataset_id == dataset_id && f.partitions[i].name == name);
}

/// The partition that a lookup of `latest` finds is the dataset's most recently created: no
/// partition of the dataset was created after it.
pub proof fn law_latest_is_newest(c: CatalogView, dataset_id: i32)
    requires
        c.wf(),
        c.partitions_of(dataset_id).len() > 0,
    ensures
        c.lookup_partition(dataset_id, latest_name()) is Some,
        ({
            let p = c.lookup_partition(dataset_id, latest_name()).unwrap();
            &&& p.dataset_id == dataset_id
            &&& c.partitions.contains(p)
            &&& forall|i: int|
                0 <= i < c.partitions.len() && #[trigger] c.partitions[i].dataset_id == dataset_id
                    ==> c.partitions[i].created_at <= p.created_at
        }),
{
    let s = c.partitions;
    let f = in_dataset(dataset_id);
    lemma_filter_partitions(s, f);
    let rows = s.filter(f);
    let p = rows.last();
    assert(rows[rows.len() - 1] == p);
    assert forall|i: int|
        0 <= i < s.len() && #[trigger] s[i].dataset_id == dataset_id implies s[i].created_at
            <= p.created_at by {
        s.filter_lemma(f);
        assert(f(s[i]));
        assert(rows.contains(s[i]));
        let k = choose|k: int| 0 <= k < rows.len() && rows[k] == s[i];
        if k < rows.len() - 1 {
            assert(rows[k].created_at <= rows[rows.len() - 1].created_at);
        }
    }
}

pub open spec fn time_bounds(p: RangeParams) -> spec_fn(PartitionView) -> bool {
    |r: PartitionView| in_bounds(r.created_at, p)
}

/// The rows of no bounds at all: every partition of the dataset.
pub open spec fn no_bounds() -> RangeParams {
    RangeParams { start: None, end: None, offset: None, count: None }
}

/// Names a choice of positions, so that a proof of `is_subsequence` can point at one.
pub open spec fn subsequence_witness(idx: Seq<int>) -> bool {
    true
}

/// `a` is drawn from `b` in order: an increasing choice of positions of `b` gives `a`.
pub open spec fn is_subsequence<T>(a: Seq<T>, b: Seq<T>) -> bool {
    exists|idx: Seq<int>|
        #![trigger subsequence_witness(idx)]
        subsequence_witness(idx) && idx.len() == a.len() && (forall|i: int|
            0 <= i < a.len() ==> 0 <= #[trigger] idx[i] < b.len() && a[i] == b[idx[i]]) && (forall|
            i: int,
            j: int,
        | 0 <= i < j < a.len() ==> #[trigger] idx[i] < #[trigger] idx[j])
}

proof fn lemma_filter_subsequence<T>(s: Seq<T>, f: spec_fn(T) -> bool)
    ensures
        is_subsequence(s.filter(f), s),
    decreases s.len(),
{
    reveal(Seq::filter);
    if s.len() == 0 {
        let idx = Seq::<int>::empty();
        assert(idx.len() == s.filter(f).len());
        assert(subsequence_witness(idx));
    } else {
        let d = s.drop_last();
        lemma_filter_subsequence(d, f);
        let fd = d.filter(f);
        let idx = choose|idx: Seq<int>|
            subsequence_witness(idx) && idx.len() == fd.len() && (forall|i: int|
                0 <= i < fd.len() ==> 0 <= #[trigger] idx[i] < d.len() && fd[i] == d[idx[i]]) && (
            forall|i: int, j: int| 0 <= i < j < fd.len() ==> #[trigger] idx[i] < #[trigger] idx[j]);
        if f(s.last()) {
            let idx2 = idx.push(s.len() - 1);
            let a = s.filter(f);
            assert(a == fd.push(s.last()));
            assert forall|i: int| 0 <= i < a.len() implies 0 <= #[trigger] idx2[i] < s.len() && a[i]
                == s[idx2[i]] by {
                if i < fd.len() {
                    assert(d[idx[i]] == s[idx[i]]);
                }
            }
            assert forall|i: int, j: int| 0 <= i < j < a.len() implies #[trigger] idx2[i] < #[trigger] idx2[j] by {
                if j < fd.len() {
                    assert(idx2[i] == idx[i] && idx2[j] == idx[j]);
                }
            }
            assert(subsequence_witness(idx2));
        } else {
            assert forall|i: int| 0 <= i < fd.len() implies 0 <= #[trigger] idx[i] < s.len() && fd[i]
                == s[idx[i]] by {
                assert(d[idx[i]] == s[idx[i]]);
            }
            assert(s.filter(f) == fd);
            assert(subsequence_witness(idx));
        }
    }
}

proof fn lemma_subrange_subsequence<T>(a: Seq<T>, b: Seq<T>, x: int, y: int)
    requires
        is_subsequence(a, b),
        0 <= x <= y <= a.len(),
    ensures
        is_subsequence(a.subrange(x, y), b),
{
    let idx = choose|idx: Seq<int>|
        subsequence_witness(idx) && idx.len() == a.len() && (forall|i: int|
            0 <= i < a.len() ==> 0 <= #[trigger] idx[i] < b.len() && a[i] == b[idx[i]]) && (forall|
            i: int,
            j: int,
        | 0 <= i < j < a.len() ==> #[trigger] idx[i] < #[trigger] idx[j]);
    let sub = idx.subrange(x, y);
    let r = a.subrange(x, y);
    assert forall|i: int| 0 <= i < r.len() implies 0 <= #[trigger] sub[i] < b.len() && r[i] == b[sub[i]] by {
        assert(sub[i] == idx[x + i]);
    }
    assert forall|i: int, j: int| 0 <= i < j < r.len() implies #[trigger] sub[i] < #[trigger] sub[j] by {
        assert(sub[i] == idx[x + i] && sub[j] == idx[x + j]);
    }
    assert(subsequence_witness(sub));
}

/// Filtering by dataset and time bounds at once is filtering the dataset's rows by the time
/// bounds.
proof fn lemma_filter_in_range(s: Seq<PartitionView>, dataset_id: i32, p: RangeParams)
    ensures
        s.filter(in_range(dataset_id, p)) == s.filter(in_range(dataset_id, no_bounds())).filter(
            time_bounds(p),
        ),
    decreases s.len(),
{
    reveal(Seq::filter);
    if s.len() > 0 {
        let d = s.drop_last();
        let x = s.last();
        lemma_filter_in_range(d, dataset_id, p);
        let fd = d.filter(in_range(dataset_id, no_bounds()));
        if x.dataset_id == dataset_id {
            fd.lemma_filter_push(x, time_bounds(p));
        }
    }
}

/// A range query over a dataset's partitions is sorted by creation time; each of its rows is a
/// partition of the dataset within the time bounds; it holds at most `count` rows; it is the run
/// of matching rows that starts after the first `offset` of them; and the matching rows are the
/// dataset's full listing filtered by the time bounds, so the result is a subsequence of that
/// listing (stated as `is_subsequence`).
pub proof fn law_range(c: CatalogView, dataset_id: i32, p: RangeParams)
    requires
        c.wf(),
        pagination_ok(p),
    ensures
        ({
            let r = c.partition_range(dataset_id, p);
            let all = c.partitions.filter(in_range(dataset_id, p));
            let from = match p.offset {
                Some(o) => if o as int >= all.len() { all.len() as int } else { o as int },
                None => 0,
            };
            &&& forall|i: int, j: int|
                0 <= i < j < r.len() ==> (#[trigger] r[i]).created_at <= (#[trigger] r[j]).created_at
            &&& forall|i: int|
                0 <= i < r.len() ==> (#[trigger] r[i]).dataset_id == dataset_id && in_bounds(
                    r[i].created_at,
                    p,
                ) && c.partitions.contains(r[i])
            &&& (p.count matches Some(n) ==> r.len() <= n)
            &&& r == all.subrange(from, from + r.len())
            &&& all == c.partition_range(dataset_id, no_bounds()).filter(time_bounds(p))
            &&& is_subsequence(r, c.partition_range(dataset_id, no_bounds()))
        }),
{
    lemma_filter_in_range(c.partitions, dataset_id, p);
    assert(page(c.partitions.filter(in_range(dataset_id, no_bounds())), no_bounds())
        == c.partitions.filter(in_range(dataset_id, no_bounds())));
    let f = in_range(dataset_id, p);
    let all = c.partitions.filter(f);
    lemma_filter_partitions(c.partitions, f);
    let r = c.partition_range(dataset_id, p);
    let from = match p.offset {
        Some(o) => if o as int >= all.len() { all.len() as int } else { o as int },
        None => 0,
    };
    let skipped = all.subrange(from, all.len() as int);
    assert(match p.offset {
        Some(o) => if o as int >= all.len() { Seq::empty() } else { all.subrange(o as int, all.len() as int) },
        None => all,
    } =~= skipped);
    assert(r =~= all.subrange(from, from + r.len()));
    assert forall|i: int| 0 <= i < r.len() implies (#[trigger] r[i]).dataset_id == dataset_id
        && in_bounds(r[i].created_at, p) && c.partitions.contains(r[i]) by {
        assert(r[i] == all[from + i]);
        assert(f(all[from + i]));
    }
    assert forall|i: int, j: int| 0 <= i < j < r.len() implies (#[trigger] r[i]).created_at
        <= (#[trigger] r[j]).created_at by {
        assert(r[i] == all[from + i]);
        assert(r[j] == all[from + j]);
    }
    let listing = c.partition_range(dataset_id, no_bounds());
    lemma_filter_subsequence(listing, time_bounds(p));
    lemma_subrange_subsequence(all, listing, from, from + r.len());
}

/// After a manager registers with an email and a password, authentication with that email
/// succeeds with that password; with any other password it succeeds exactly when the other
/// password has the same argon2d hash under the manager's salt.
pub proof fn law_authenticate(
    c: CatalogView,
    m: ManagerView,
    email: Seq<char>,
    password: Seq<char>,
    other: Seq<char>,
    now: Timestamp,
)
    requires
        c.wf(),
        c.manager_index(email) is None,
        c.fresh_manager(m, email, password, now),
    ensures
        c.add_manager(m, now).authenticates(email, password),
        c.add_manager(m, now).authenticates(email, other) == (crate::credentials::argon2d_of(
            other,
            m.salt,
        ) == crate::credentials::argon2d_of(password, m.salt)),
{
    let r = c.add_manager(m, now);
    let n = c.managers.len() as int;
    assert(r.managers[n] == m);
    let i = r.manager_index(email).unwrap();
    assert(r.managers[i].email == email);
    if i != n {
        assert(r.managers[i] == c.managers[i]);
    }
}

/// A delete that an overwrite caused leaves the catalog as it was and is acknowledged.
pub proof fn law_overwrite_delete_ignored(c: CatalogView, n: Notification, now: Timestamp)
    requires
        is_overwrite_delete(n.attributes),
    ensures
        notification_effect(c, n, now) == (c, true),
{
}

/// After a dataset is registered, looking its name up finds a row with the registered name,
/// manager, classification, compression, format, description and schema.
pub proof fn law_register_then_find(
    c: CatalogView,
    manager_id: i32,
    name: Seq<char>,
    compression: Compression,
    format: Format,
    classification: Classification,
    schema: Seq<(Seq<char>, Option<Seq<char>>)>,
    description: Seq<char>,
    now: Timestamp,
)
    requires
        c.wf(),
        c.can_add_dataset(manager_id, name),
    ensures
        ({
            let r = c.add_dataset(
                manager_id,
                name,
                compression,
                format,
                classification,
                schema,
                description,
                now,
            );
            &&& r.lookup_dataset(name) is Some
            &&& r.lookup_dataset(name).unwrap().name == name
            &&& r.lookup_dataset(name).unwrap().manager_id == manager_id
            &&& r.lookup_dataset(name).unwrap().classification == classification
            &&& r.lookup_dataset(name).unwrap().compression == compression
            &&& r.lookup_dataset(name).unwrap().format == format
            &&& r.lookup_dataset(name).unwrap().description == description
            &&& r.lookup_dataset(name).unwrap().schema == schema
        }),
{
    let r = c.add_dataset(manager_id, name, compression, format, classification, schema, description, now);
    let n = c.datasets.len() as int;
    assert(r.datasets[n].name == name);
    let i = r.dataset_index(name).unwrap();
    if i != n {
        assert(r.datasets[i] == c.datasets[i]);
    }
}

} // verus!

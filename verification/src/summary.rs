//! Totals over fetched records: one over all of them, and one for each
//! application, in the order in which the applications first appear.

use crate::amount::{amount_of_text, parse_amount};
use crate::api_schema::{Apps, Edges, ResultData};
use crate::ReportError;
use vstd::multiset::Multiset;
use vstd::prelude::*;

verus! {

/// The identifier of the application a record belongs to: the grouping key.
pub open spec fn app_id(record: Edges) -> Seq<char> {
    record.node.app.id@
}

/// Whether the amount of every record is decimal text in range.
pub open spec fn amounts_parse(records: Seq<Edges>) -> bool {
    forall|i: int|
        0 <= i < records.len() ==> amount_of_text(
            (#[trigger] records[i]).node.net_amount.amount@,
        ) is Some
}

/// A record's amount in millionths (zero where its text does not parse).
pub open spec fn amount_of(record: Edges) -> int {
    match amount_of_text(record.node.net_amount.amount@) {
        Some(amount) => amount as int,
        None => 0,
    }
}

/// The sum of the records' amounts.
pub open spec fn total_of(records: Seq<Edges>) -> int
    decreases records.len(),
{
    if records.len() == 0 {
        0
    } else {
        total_of(records.drop_last()) + amount_of(records.last())
    }
}

/// The records of one application, in the order of `records`.
pub open spec fn records_of(records: Seq<Edges>, id: Seq<char>) -> Seq<Edges> {
    records.filter(|record: Edges| app_id(record) == id)
}

/// The distinct application identifiers of `records`, each at the place of its
/// first appearance.
pub open spec fn app_ids(records: Seq<Edges>) -> Seq<Seq<char>>
    decreases records.len(),
{
    if records.len() == 0 {
        Seq::empty()
    } else {
        let earlier = app_ids(records.drop_last());
        if earlier.contains(app_id(records.last())) {
            earlier
        } else {
            earlier.push(app_id(records.last()))
        }
    }
}

/// What a per-application report says, with its texts as character sequences.
pub struct AppsView {
    pub id: Seq<char>,
    pub app_name: Seq<char>,
    pub count: nat,
    pub total_paid: int,
    pub data: Seq<Edges>,
}

impl View for Apps {
    type V = AppsView;

    open spec fn view(&self) -> AppsView {
        AppsView {
            id: self.id@,
            app_name: self.app_name@,
            count: self.count as nat,
            total_paid: self.total_paid as int,
            data: self.data@,
        }
    }
}

pub open spec fn views_of(apps: Seq<Apps>) -> Seq<AppsView> {
    Seq::new(apps.len(), |k: int| apps[k]@)
}

/// The report for the application `id`: its records, how many they are, what
/// they add up to, and the name that the first of them gives the application.
pub open spec fn bucket_of(records: Seq<Edges>, id: Seq<char>) -> AppsView {
    let data = records_of(records, id);
    AppsView {
        id,
        app_name: data.first().node.app.name@,
        count: data.len(),
        total_paid: total_of(data),
        data,
    }
}

/// The per-application reports of `records`, in the order of [`app_ids`].
pub open spec fn grouped(records: Seq<Edges>) -> Seq<AppsView> {
    Seq::new(app_ids(records).len(), |k: int| bucket_of(records, app_ids(records)[k]))
}

/// Whether `summary` is the report over all of `records`.
pub open spec fn summarizes(summary: ResultData, records: Seq<Edges>) -> bool {
    &&& summary.data@ == records
    &&& summary.count == records.len()
    &&& summary.total_paid == total_of(records)
}

/// Whether `apps` are the per-application reports of `records`.
pub open spec fn groups(apps: Seq<Apps>, records: Seq<Edges>) -> bool {
    views_of(apps) == grouped(records)
}

/// All records held by a sequence of per-application reports.
pub open spec fn bucket_records(buckets: Seq<AppsView>) -> Multiset<Edges>
    decreases buckets.len(),
{
    if buckets.len() == 0 {
        Multiset::empty()
    } else {
        bucket_records(buckets.drop_last()).add(buckets.last().data.to_multiset())
    }
}

/// The sum of the counts of a sequence of per-application reports.
pub open spec fn bucket_counts(buckets: Seq<AppsView>) -> nat
    decreases buckets.len(),
{
    if buckets.len() == 0 {
        0
    } else {
        bucket_counts(buckets.drop_last()) + buckets.last().count
    }
}

/// A report with one more record.
pub open spec fn with_record(bucket: AppsView, record: Edges) -> AppsView {
    AppsView {
        count: bucket.count + 1,
        total_paid: bucket.total_paid + amount_of(record),
        data: bucket.data.push(record),
        ..bucket
    }
}

/// The report of an application of which `record` is the first record.
pub open spec fn opened_by(record: Edges) -> AppsView {
    AppsView {
        id: app_id(record),
        app_name: record.node.app.name@,
        count: 1,
        total_paid: amount_of(record),
        data: seq![record],
    }
}

proof fn lemma_total_push(records: Seq<Edges>, record: Edges)
    ensures
        total_of(records.push(record)) == total_of(records) + amount_of(record),
{
    assert(records.push(record).drop_last() =~= records);
}

proof fn lemma_total_bounds(records: Seq<Edges>)
    ensures
        -(records.len() * 0x8000_0000_0000_0000) <= total_of(records) <= records.len()
            * 0x7fff_ffff_ffff_ffff,
    decreases records.len(),
{
    if records.len() > 0 {
        lemma_total_bounds(records.drop_last());
    }
}

proof fn lemma_records_of_push(records: Seq<Edges>, record: Edges, id: Seq<char>)
    ensures
        records_of(records.push(record), id) == if app_id(record) == id {
            records_of(records, id).push(record)
        } else {
            records_of(records, id)
        },
{
    reveal(Seq::filter);
    assert(records.push(record).drop_last() =~= records);
}

proof fn lemma_app_ids_push(records: Seq<Edges>, record: Edges)
    ensures
        app_ids(records.push(record)) == if app_ids(records).contains(app_id(record)) {
            app_ids(records)
        } else {
            app_ids(records).push(app_id(record))
        },
{
    assert(records.push(record).drop_last() =~= records);
}

/// No identifier stands twice in [`app_ids`].
pub proof fn lemma_app_ids_distinct(records: Seq<Edges>)
    ensures
        app_ids(records).no_duplicates(),
    decreases records.len(),
{
    if records.len() > 0 {
        lemma_app_ids_distinct(records.drop_last());
    }
}

/// An identifier that [`app_ids`] lacks is the identifier of no record.
proof fn lemma_absent_id(records: Seq<Edges>, id: Seq<char>)
    requires
        !app_ids(records).contains(id),
    ensures
        records_of(records, id) == Seq::<Edges>::empty(),
    decreases records.len(),
{
    reveal(Seq::filter);
    if records.len() > 0 {
        let earlier = app_ids(records.drop_last());
        let last = app_id(records.last());
        if earlier.contains(id) {
            let k = choose|k: int| 0 <= k < earlier.len() && earlier[k] == id;
            assert(app_ids(records)[k] == id);
        }
        if last == id {
            if !earlier.contains(last) {
                assert(app_ids(records)[earlier.len() as int] == id);
            }
        }
        lemma_absent_id(records.drop_last(), id);
    }
}

/// Every identifier in [`app_ids`] is the identifier of some record.
proof fn lemma_present_id(records: Seq<Edges>, k: int)
    requires
        0 <= k < app_ids(records).len(),
    ensures
        records_of(records, app_ids(records)[k]).len() > 0,
    decreases records.len(),
{
    if records.len() > 0 {
        let earlier = records.drop_last();
        let id = app_ids(records)[k];
        assert(earlier.push(records.last()) =~= records);
        lemma_records_of_push(earlier, records.last(), id);
        if k < app_ids(earlier).len() {
            lemma_present_id(earlier, k);
        }
    }
}

/// A record of an application that is already known joins that application's
/// report and leaves the others as they are.
proof fn lemma_grouped_join(records: Seq<Edges>, record: Edges, j: int)
    requires
        0 <= j < app_ids(records).len(),
        app_ids(records)[j] == app_id(record),
    ensures
        grouped(records.push(record)) == grouped(records).update(
            j,
            with_record(grouped(records)[j], record),
        ),
{
    let ids = app_ids(records);
    let longer = records.push(record);
    lemma_app_ids_push(records, record);
    lemma_app_ids_distinct(records);
    assert(ids.contains(app_id(record)));
    assert forall|k: int| 0 <= k < ids.len() implies #[trigger] grouped(longer)[k] == grouped(
        records,
    ).update(j, with_record(grouped(records)[j], record))[k] by {
        lemma_records_of_push(records, record, ids[k]);
        if k == j {
            lemma_present_id(records, j);
            lemma_total_push(records_of(records, ids[j]), record);
        }
    }
    assert(grouped(longer) =~= grouped(records).update(
        j,
        with_record(grouped(records)[j], record),
    ));
}

/// A record of an application not seen before opens a report after the others.
proof fn lemma_grouped_open(records: Seq<Edges>, record: Edges)
    requires
        !app_ids(records).contains(app_id(record)),
    ensures
        grouped(records.push(record)) == grouped(records).push(opened_by(record)),
{
    let ids = app_ids(records);
    let longer = records.push(record);
    lemma_app_ids_push(records, record);
    assert forall|k: int| 0 <= k < ids.len() + 1 implies #[trigger] grouped(longer)[k] == grouped(
        records,
    ).push(opened_by(record))[k] by {
        lemma_records_of_push(records, record, app_ids(longer)[k]);
        if k == ids.len() {
            lemma_absent_id(records, app_id(record));
            lemma_total_push(Seq::<Edges>::empty(), record);
            assert(Seq::<Edges>::empty().push(record) =~= seq![record]);
        } else {
            assert(ids.contains(ids[k]));
        }
    }
    assert(grouped(longer) =~= grouped(records).push(opened_by(record)));
}

proof fn lemma_bucket_joined(buckets: Seq<AppsView>, j: int, record: Edges)
    requires
        0 <= j < buckets.len(),
    ensures
        bucket_records(buckets.update(j, with_record(buckets[j], record))) == bucket_records(
            buckets,
        ).insert(record),
        bucket_counts(buckets.update(j, with_record(buckets[j], record))) == bucket_counts(buckets)
            + 1,
    decreases buckets.len(),
{
    broadcast use vstd::seq_lib::group_to_multiset_ensures;

    let updated = buckets.update(j, with_record(buckets[j], record));
    if j == buckets.len() - 1 {
        assert(updated.drop_last() =~= buckets.drop_last());
    } else {
        assert(updated.drop_last() =~= buckets.drop_last().update(
            j,
            with_record(buckets.drop_last()[j], record),
        ));
        lemma_bucket_joined(buckets.drop_last(), j, record);
    }
    assert(bucket_records(updated) =~= bucket_records(buckets).insert(record));
}

/// The per-application reports share out the records: together they hold
/// each record exactly as often as `records` does, and their counts add up
/// to the number of records.
pub proof fn lemma_buckets_partition(records: Seq<Edges>)
    ensures
        bucket_records(grouped(records)) == records.to_multiset(),
        bucket_counts(grouped(records)) == records.len(),
    decreases records.len(),
{
    broadcast use vstd::seq_lib::group_to_multiset_ensures;

    if records.len() == 0 {
        assert(grouped(records) =~= Seq::<AppsView>::empty());
        assert(records.to_multiset() =~= Multiset::<Edges>::empty());
    } else {
        let earlier = records.drop_last();
        let record = records.last();
        let ids = app_ids(earlier);
        assert(earlier.push(record) =~= records);
        lemma_buckets_partition(earlier);
        if ids.contains(app_id(record)) {
            let j = choose|j: int| 0 <= j < ids.len() && ids[j] == app_id(record);
            lemma_grouped_join(earlier, record, j);
            lemma_bucket_joined(grouped(earlier), j, record);
        } else {
            lemma_grouped_open(earlier, record);
            let buckets = grouped(earlier).push(opened_by(record));
            assert(buckets.drop_last() =~= grouped(earlier));
            assert(seq![record] =~= Seq::<Edges>::empty().push(record));
            assert(bucket_records(buckets) =~= bucket_records(grouped(earlier)).insert(record));
        }
    }
}

/// Reports made twice from the same records say the same.
pub proof fn lemma_summary_determined(
    records: Seq<Edges>,
    first: (ResultData, Seq<Apps>),
    second: (ResultData, Seq<Apps>),
)
    requires
        summarizes(first.0, records) && groups(first.1, records),
        summarizes(second.0, records) && groups(second.1, records),
    ensures
        first.0.count == second.0.count,
        first.0.total_paid == second.0.total_paid,
        first.0.data@ == second.0.data@,
        views_of(first.1) == views_of(second.1),
{
}

/// Adds up the amounts of `records`, in millionths.
pub fn total_paid(records: &Vec<Edges>) -> (result: Result<i128, ReportError>)
    ensures
        match result {
            Ok(total) => amounts_parse(records@) && total == total_of(records@),
            Err(error) => !amounts_parse(records@) && error == ReportError::AmountParseFailure,
        },
{
    let mut total: i128 = 0;
    let mut i: usize = 0;
    while i < records.len()
        invariant
            i <= records.len(),
            amounts_parse(records@.take(i as int)),
            total == total_of(records@.take(i as int)),
        decreases records.len() - i,
    {
        let ghost seen = records@.take(i as int);
        match parse_amount(records[i].node.net_amount.amount.as_str()) {
            Some(amount) => {
                proof {
                    lemma_total_push(seen, records@[i as int]);
                    lemma_total_bounds(seen);
                    assert(seen.push(records@[i as int]) =~= records@.take(i + 1));
                }
                total = total + amount as i128;
            },
            None => {
                return Err(ReportError::AmountParseFailure);
            },
        }
        i = i + 1;
    }
    assert(records@.take(records.len() as int) =~= records@);
    Ok(total)
}

/// The report over all of `records`, which it takes over unchanged.
pub fn total_up(records: Vec<Edges>) -> (result: Result<ResultData, ReportError>)
    ensures
        match result {
            Ok(summary) => amounts_parse(records@) && summarizes(summary, records@),
            Err(error) => !amounts_parse(records@) && error == ReportError::AmountParseFailure,
        },
{
    match total_paid(&records) {
        Ok(total) => Ok(ResultData { count: records.len(), total_paid: total, data: records }),
        Err(error) => Err(error),
    }
}

/// Where among `apps` the report of the application `id` stands, if it has
/// one. Only the identifier is compared, never the name.
pub fn find_app(apps: &Vec<Apps>, id: &String) -> (found: Option<usize>)
    ensures
        match found {
            Some(j) => j < apps@.len() && apps@[j as int].id@ == id@ && forall|k: int|
                0 <= k < j ==> (#[trigger] apps@[k]).id@ != id@,
            None => forall|k: int| 0 <= k < apps@.len() ==> (#[trigger] apps@[k]).id@ != id@,
        },
{
    let mut j: usize = 0;
    while j < apps.len()
        invariant
            j <= apps@.len(),
            forall|k: int| 0 <= k < j ==> (#[trigger] apps@[k]).id@ != id@,
        decreases apps.len() - j,
    {
        if apps[j].id == *id {
            return Some(j);
        }
        j = j + 1;
    }
    None
}

/// Sorts `records` into one report for each application, in a single pass.
/// The reports stand in the order in which their applications first appear;
/// each keeps its records in their order, and the name that its first record
/// gives the application.
pub fn group_by_app(records: Vec<Edges>) -> (result: Result<Vec<Apps>, ReportError>)
    ensures
        match result {
            Ok(apps) => amounts_parse(records@) && groups(apps@, records@),
            Err(error) => !amounts_parse(records@) && error == ReportError::AmountParseFailure,
        },
{
    let ghost all = records@;
    let mut apps: Vec<Apps> = Vec::new();
    assert(views_of(apps@) =~= grouped(all.take(0)));
    assert(all.len() == records.len());
    for current in it: records
        invariant
            it.seq() == all,
            all.len() <= usize::MAX,
            amounts_parse(all.take(it.index() as int)),
            views_of(apps@) == grouped(all.take(it.index() as int)),
    {
        let ghost seen = all.take(it.index() as int);
        let ghost buckets = grouped(seen);
        assert(seen.push(current) =~= all.take(it.index() + 1));
        assert(views_of(apps@).len() == apps@.len());
        assert(buckets.len() == app_ids(seen).len());
        assert(seen.len() < all.len());
        let amount = match parse_amount(current.node.net_amount.amount.as_str()) {
            Some(amount) => amount,
            None => {
                return Err(ReportError::AmountParseFailure);
            },
        };
        match find_app(&apps, &current.node.app.id) {
            Some(j) => {
                proof {
                    let members = records_of(seen, app_id(current));
                    assert(views_of(apps@)[j as int] == buckets[j as int]);
                    assert(apps@[j as int].data@ == members);
                    lemma_grouped_join(seen, current, j as int);
                    seen.lemma_filter_len(|record: Edges| app_id(record) == app_id(current));
                    lemma_total_bounds(members.push(current));
                    lemma_total_push(members, current);
                }
                let bucket = &mut apps[j];
                bucket.count = bucket.count + 1;
                bucket.total_paid = bucket.total_paid + amount as i128;
                bucket.data.push(current);
                assert(views_of(apps@) =~= buckets.update(j as int, with_record(buckets[j as int], current)));
            },
            None => {
                proof {
                    assert forall|k: int| 0 <= k < app_ids(seen).len() implies app_ids(seen)[k]
                        != app_id(current) by {
                        assert(views_of(apps@)[k] == buckets[k]);
                    }
                    lemma_grouped_open(seen, current);
                }
                let id = current.node.app.id.clone();
                let app_name = current.node.app.name.clone();
                let mut data: Vec<Edges> = Vec::new();
                data.push(current);
                apps.push(Apps { id, app_name, count: 1, total_paid: amount as i128, data });
                assert(views_of(apps@) =~= buckets.push(opened_by(current)));
            },
        }
    }
    assert(all.take(all.len() as int) =~= all);
    Ok(apps)
}

/// The report over all of `records` and the reports for each application.
/// Both hold every record: the first in the order given, the others shared out
/// by application.
pub fn summarize(records: Vec<Edges>) -> (result: Result<(ResultData, Vec<Apps>), ReportError>)
    ensures
        match result {
            Ok((summary, apps)) => {
                &&& amounts_parse(records@)
                &&& summarizes(summary, records@)
                &&& groups(apps@, records@)
                &&& bucket_records(views_of(apps@)) == summary.data@.to_multiset()
                &&& bucket_counts(views_of(apps@)) == summary.count
            },
            Err(error) => !amounts_parse(records@) && error == ReportError::AmountParseFailure,
        },
{
    let copies = records.clone();
    assert(copies@ =~= records@);
    proof {
        lemma_buckets_partition(records@);
    }
    match group_by_app(copies) {
        Ok(apps) => match total_up(records) {
            Ok(summary) => Ok((summary, apps)),
            Err(error) => Err(error),
        },
        Err(error) => Err(error),
    }
}

} // verus!

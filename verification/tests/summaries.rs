use partner_sales::api_schema::{App, Apps, Edges, NetAmount, Node, Shop};
use partner_sales::summary::{find_app, group_by_app, summarize, total_paid, total_up};
use partner_sales::ReportError;

fn record(id: &str, app_id: &str, app_name: &str, amount: &str) -> Edges {
    Edges {
        cursor: format!("cursor-{}", id),
        node: Node {
            id: id.to_string(),
            created_at: "2024-01-15T12:00:00Z".to_string(),
            net_amount: NetAmount { amount: amount.to_string() },
            app: App { id: app_id.to_string(), name: app_name.to_string() },
            shop: Shop { name: "Shop".to_string(), myshopify_domain: "shop.example".to_string() },
        },
    }
}

fn example() -> Vec<Edges> {
    vec![
        record("A1", "App1", "App1", "10.50"),
        record("A2", "App2", "App2", "5.00"),
        record("A3", "App1", "App1", "2.25"),
    ]
}

fn ids(records: &[Edges]) -> Vec<&str> {
    records.iter().map(|e| e.node.id.as_str()).collect()
}

#[test]
fn records_are_grouped_by_application() {
    let (summary, apps) = summarize(example()).unwrap();
    assert_eq!(summary.count, 3);
    assert_eq!(summary.total_paid, 17_750_000);
    assert_eq!(ids(&summary.data), vec!["A1", "A2", "A3"]);

    assert_eq!(apps.len(), 2);
    assert_eq!(apps[0].id, "App1");
    assert_eq!(apps[0].app_name, "App1");
    assert_eq!(apps[0].count, 2);
    assert_eq!(apps[0].total_paid, 12_750_000);
    assert_eq!(ids(&apps[0].data), vec!["A1", "A3"]);
    assert_eq!(apps[1].id, "App2");
    assert_eq!(apps[1].app_name, "App2");
    assert_eq!(apps[1].count, 1);
    assert_eq!(apps[1].total_paid, 5_000_000);
    assert_eq!(ids(&apps[1].data), vec!["A2"]);
}

#[test]
fn no_records_give_an_empty_report() {
    let (summary, apps) = summarize(Vec::new()).unwrap();
    assert_eq!(summary.count, 0);
    assert_eq!(summary.total_paid, 0);
    assert!(summary.data.is_empty());
    assert!(apps.is_empty());
    assert_eq!(total_paid(&Vec::new()), Ok(0));
    assert!(group_by_app(Vec::new()).unwrap().is_empty());
}

#[test]
fn count_is_the_number_of_records_and_total_their_sum() {
    let records = vec![
        record("1", "x", "X", "0.10"),
        record("2", "y", "Y", "0.20"),
        record("3", "x", "X", "-0.05"),
        record("4", "z", "Z", "100"),
    ];
    let summary = total_up(records).unwrap();
    assert_eq!(summary.count, summary.data.len());
    assert_eq!(summary.count, 4);
    assert_eq!(summary.total_paid, 100_000 + 200_000 - 50_000 + 100_000_000);
}

#[test]
fn buckets_share_out_the_records() {
    let records = vec![
        record("1", "x", "X", "1"),
        record("2", "y", "Y", "2"),
        record("3", "x", "X", "3"),
        record("4", "z", "Z", "4"),
        record("5", "y", "Y", "5"),
        record("6", "x", "X", "6"),
    ];
    let (summary, apps) = summarize(records).unwrap();
    let mut held: Vec<&str> = apps.iter().flat_map(|app| ids(&app.data)).collect();
    held.sort();
    let mut all = ids(&summary.data);
    all.sort();
    assert_eq!(held, all);
    assert_eq!(apps.iter().map(|app| app.count).sum::<usize>(), summary.count);
    assert_eq!(apps.iter().map(|app| app.total_paid).sum::<i128>(), summary.total_paid);
    for app in &apps {
        assert_eq!(app.count, app.data.len());
        assert!(app.data.iter().all(|e| e.node.app.id == app.id));
    }
}

#[test]
fn buckets_stand_in_order_of_first_appearance() {
    let records = vec![
        record("1", "m", "M", "1"),
        record("2", "a", "A", "1"),
        record("3", "z", "Z", "1"),
        record("4", "a", "A", "1"),
        record("5", "m", "M", "1"),
    ];
    let apps = group_by_app(records).unwrap();
    let order: Vec<&str> = apps.iter().map(|app| app.id.as_str()).collect();
    assert_eq!(order, vec!["m", "a", "z"]);
    assert_eq!(ids(&apps[0].data), vec!["1", "5"]);
    assert_eq!(ids(&apps[1].data), vec!["2", "4"]);
    assert_eq!(ids(&apps[2].data), vec!["3"]);
}

#[test]
fn summarizing_twice_gives_the_same_report() {
    let (first, first_apps) = summarize(example()).unwrap();
    let (second, second_apps) = summarize(example()).unwrap();
    assert_eq!(first.count, second.count);
    assert_eq!(first.total_paid, second.total_paid);
    assert_eq!(ids(&first.data), ids(&second.data));
    assert_eq!(first_apps.len(), second_apps.len());
    for (a, b) in first_apps.iter().zip(second_apps.iter()) {
        assert_eq!(a.id, b.id);
        assert_eq!(a.app_name, b.app_name);
        assert_eq!(a.count, b.count);
        assert_eq!(a.total_paid, b.total_paid);
        assert_eq!(ids(&a.data), ids(&b.data));
    }
}

#[test]
fn the_name_seen_first_is_kept() {
    let records = vec![
        record("1", "x", "Old name", "1"),
        record("2", "x", "New name", "2"),
    ];
    let apps = group_by_app(records).unwrap();
    assert_eq!(apps.len(), 1);
    assert_eq!(apps[0].app_name, "Old name");
    assert_eq!(apps[0].count, 2);
    assert_eq!(apps[0].total_paid, 3_000_000);
    assert_eq!(apps[0].data[1].node.app.name, "New name");
}

#[test]
fn the_name_does_not_decide_the_bucket() {
    let records = vec![
        record("1", "x", "Same name", "1"),
        record("2", "y", "Same name", "2"),
    ];
    let apps = group_by_app(records).unwrap();
    assert_eq!(apps.len(), 2);
    assert_eq!(apps[0].id, "x");
    assert_eq!(apps[1].id, "y");
}

#[test]
fn an_amount_that_is_no_number_fails_the_report() {
    let records = || vec![
        record("1", "x", "X", "1.00"),
        record("2", "y", "Y", "one"),
        record("3", "x", "X", "3.00"),
    ];
    assert_eq!(total_paid(&records()), Err(ReportError::AmountParseFailure));
    assert_eq!(total_up(records()).unwrap_err(), ReportError::AmountParseFailure);
    assert_eq!(group_by_app(records()).unwrap_err(), ReportError::AmountParseFailure);
    assert_eq!(summarize(records()).unwrap_err(), ReportError::AmountParseFailure);
}

#[test]
fn totals_do_not_overflow_where_amounts_are_extreme() {
    let records = vec![
        record("1", "x", "X", "9223372036854.775807"),
        record("2", "x", "X", "9223372036854.775807"),
        record("3", "y", "Y", "-9223372036854.775808"),
    ];
    let (summary, apps) = summarize(records).unwrap();
    assert_eq!(summary.total_paid, i64::MAX as i128 - 1);
    assert_eq!(apps[0].total_paid, 2 * (i64::MAX as i128));
    assert_eq!(apps[1].total_paid, i64::MIN as i128);
}

#[test]
fn find_app_compares_identifiers() {
    let apps = vec![
        Apps { id: "a".to_string(), app_name: "b".to_string(), count: 0, total_paid: 0, data: vec![] },
        Apps { id: "b".to_string(), app_name: "a".to_string(), count: 0, total_paid: 0, data: vec![] },
    ];
    assert_eq!(find_app(&apps, &"a".to_string()), Some(0));
    assert_eq!(find_app(&apps, &"b".to_string()), Some(1));
    assert_eq!(find_app(&apps, &"c".to_string()), None);
}

#[test]
fn copies_of_a_record_are_equal_in_every_field() {
    let first = record("A1", "App1", "Name", "10.50");
    let copy = first.clone();
    assert_eq!(copy.cursor, first.cursor);
    assert_eq!(copy.node.id, first.node.id);
    assert_eq!(copy.node.created_at, first.node.created_at);
    assert_eq!(copy.node.net_amount.amount, first.node.net_amount.amount);
    assert_eq!(copy.node.app.id, first.node.app.id);
    assert_eq!(copy.node.app.name, first.node.app.name);
    assert_eq!(copy.node.shop.name, first.node.shop.name);
    assert_eq!(copy.node.shop.myshopify_domain, first.node.shop.myshopify_domain);
}

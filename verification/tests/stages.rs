use manifest_orders::aggregate::aggregate;
use manifest_orders::doc::{lookup, Doc};
use manifest_orders::orders::{extract_orders, OrderRecord};
use manifest_orders::render::render_report;

fn order(item: &str, quantity: u32) -> OrderRecord {
    OrderRecord {
        item: item.to_string(),
        quantity,
    }
}

#[test]
fn aggregate_conserves_per_name_sums() {
    let orders = vec![
        order("Toy car", 2),
        order("Lego brick", 230),
        order("Toy car", 1),
        order("Doll", 0),
        order("Lego brick", 20),
    ];
    let lines = aggregate(&orders).unwrap();
    assert_eq!(lines.len(), 3);
    assert_eq!(lines[0].item, "Toy car");
    assert_eq!(lines[0].total, 3);
    assert_eq!(lines[1].item, "Lego brick");
    assert_eq!(lines[1].total, 250);
    assert_eq!(lines[2].item, "Doll");
    assert_eq!(lines[2].total, 0);
    let sum_in: u32 = orders.iter().map(|o| o.quantity).sum();
    let sum_out: u32 = lines.iter().map(|l| l.total).sum();
    assert_eq!(sum_in, sum_out);
}

#[test]
fn aggregate_keeps_first_seen_order_across_gaps() {
    let orders = vec![
        order("b", 1),
        order("a", 1),
        order("c", 1),
        order("a", 1),
        order("b", 1),
    ];
    let lines = aggregate(&orders).unwrap();
    let names: Vec<&str> = lines.iter().map(|l| l.item.as_str()).collect();
    assert_eq!(names, vec!["b", "a", "c"]);
}

#[test]
fn aggregate_refuses_a_wrapping_total() {
    let orders = vec![order("x", u32::MAX), order("x", 1)];
    assert!(aggregate(&orders).is_none());
    let orders = vec![order("x", u32::MAX), order("y", 1)];
    assert!(aggregate(&orders).is_some());
}

#[test]
fn render_joins_lines_without_trailing_newline() {
    let lines = aggregate(&vec![order("a", 1), order("b", 2)]).unwrap();
    assert_eq!(render_report(&lines), Some("a: 1\nb: 2".to_string()));
    assert_eq!(render_report(&Vec::new()), None);
}

#[test]
fn extract_orders_reads_only_well_formed_tables() {
    let entry = |item: &str, quantity: i64| {
        Doc::Table(vec![
            ("item".to_string(), Doc::Text(item.to_string())),
            ("quantity".to_string(), Doc::Int(quantity)),
        ])
    };
    let doc = Doc::Table(vec![(
        "package".to_string(),
        Doc::Table(vec![(
            "metadata".to_string(),
            Doc::Table(vec![(
                "orders".to_string(),
                Doc::Array(vec![
                    entry("Toy car", 2),
                    Doc::Int(7),
                    entry("Negative", -1),
                    entry("Too big", (u32::MAX as i64) + 1),
                    Doc::Table(vec![("item".to_string(), Doc::Text("alone".to_string()))]),
                    entry("Doll", 4),
                ]),
            )]),
        )]),
    )]);
    let orders = extract_orders(&doc);
    assert_eq!(orders.len(), 2);
    assert_eq!(orders[0].item, "Toy car");
    assert_eq!(orders[0].quantity, 2);
    assert_eq!(orders[1].item, "Doll");
    assert_eq!(orders[1].quantity, 4);
}

#[test]
fn lookup_finds_the_first_matching_key() {
    let doc = Doc::Table(vec![
        ("a".to_string(), Doc::Int(1)),
        ("b".to_string(), Doc::Int(2)),
    ]);
    let key = "b".to_string();
    match lookup(&doc, &key) {
        Some(Doc::Int(v)) => assert_eq!(*v, 2),
        _ => panic!("expected the integer under b"),
    }
    let missing = "c".to_string();
    assert!(lookup(&doc, &missing).is_none());
}

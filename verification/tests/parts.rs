use object_store::error::Error;
use object_store::parts::{sort, PartId, Parts};

#[test]
fn test_sort() {
    let mut parts = vec![
        (
            1,
            PartId {
                content_id: "1".to_string(),
                size: 100,
            },
        ),
        (
            2,
            PartId {
                content_id: "2".to_string(),
                size: 50,
            },
        ),
        (
            3,
            PartId {
                content_id: "3".to_string(),
                size: 100,
            },
        ),
        (
            4,
            PartId {
                content_id: "4".to_string(),
                size: 100,
            },
        ),
    ];
    sort(&mut parts);

    assert_eq!(parts[0].1.content_id, "1");
    assert_eq!(parts[1].1.content_id, "3");
    assert_eq!(parts[2].1.content_id, "4");
    assert_eq!(parts[3].1.content_id, "2");
}

fn id(content_id: &str, size: usize) -> PartId {
    PartId {
        content_id: content_id.to_string(),
        size,
    }
}

#[test]
fn finish_requires_exact_count() {
    let mut ledger = Parts::new();
    ledger.put(1, id("a", 10));
    ledger.put(2, id("b", 10));
    assert!(matches!(ledger.finish(3), Err(Error::MissingPart)));
    // the failed call leaves the ledger intact
    let out = ledger.finish(2).unwrap();
    assert_eq!(out.len(), 2);
}

#[test]
fn finish_counts_duplicate_indices() {
    let mut ledger = Parts::new();
    ledger.put(1, id("a", 10));
    ledger.put(1, id("a2", 10));
    ledger.put(2, id("b", 10));
    // three entries were recorded, so a two-part upload does not complete:
    // the duplicate masks the genuinely missing part
    assert!(matches!(ledger.finish(2), Err(Error::MissingPart)));
}

#[test]
fn finish_orders_by_size_then_index() {
    let mut ledger = Parts::new();
    ledger.put(1, id("1", 100));
    ledger.put(2, id("2", 50));
    ledger.put(3, id("3", 100));
    ledger.put(4, id("4", 100));
    let out = ledger.finish(4).unwrap();
    let ids: Vec<&str> = out.iter().map(|p| p.content_id.as_str()).collect();
    assert_eq!(ids, vec!["1", "3", "4", "2"]);
}

#[test]
fn finish_empty_ledger() {
    let mut ledger = Parts::default();
    let out = ledger.finish(0).unwrap();
    assert!(out.is_empty());
    assert!(matches!(ledger.finish(1), Err(Error::MissingPart)));
}

#[test]
fn finish_reconstructs_out_of_order_completion() {
    // upload tasks complete out of sequence; size acts as a position proxy
    let mut ledger = Parts::new();
    ledger.put(3, id("last", 7));
    ledger.put(1, id("first", 64));
    ledger.put(2, id("second", 64));
    let out = ledger.finish(3).unwrap();
    let ids: Vec<&str> = out.iter().map(|p| p.content_id.as_str()).collect();
    assert_eq!(ids, vec!["first", "second", "last"]);
}

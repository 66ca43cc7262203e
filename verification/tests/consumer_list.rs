use paimon::consumer_list::{ConsumerScan, FileStatus, Listing, ScanStep};
use paimon::consumer_manager::{ConsumerError, ConsumerManager, ReadOutcome};

type Step = ScanStep<&'static str, u32>;

fn manager() -> ConsumerManager<()> {
    ConsumerManager::new((), "t".to_string())
}

fn file(path: &str) -> FileStatus {
    FileStatus {
        path: path.to_string(),
        is_dir: false,
    }
}

fn reading(step: Step, path: &str) -> ConsumerScan {
    match step {
        ScanStep::Read { scan } => {
            assert_eq!(scan.path(), path);
            scan
        }
        _ => panic!("no file is to be read"),
    }
}

fn list(step: Step) -> Vec<(String, i64)> {
    match step {
        ScanStep::Done(Ok(list)) => list,
        _ => panic!("the listing did not end well"),
    }
}

#[test]
fn consumers_are_sorted_by_id() {
    let statuses = vec![
        file("t/consumer/consumer-b"),
        file("t/consumer/consumer-a"),
        file("t/consumer/consumer-\u{e9}"),
        file("t/consumer/consumer-ab"),
        file("t/consumer/consumer-"),
        file("t/consumer/consumer-z"),
    ];
    let step: Step = manager().list_all(Listing::Entries(statuses));
    let scan = reading(step, "t/consumer/consumer-b");
    let scan = reading(
        scan.step(ReadOutcome::Snapshot(2)),
        "t/consumer/consumer-a",
    );
    let scan = reading(
        scan.step(ReadOutcome::Snapshot(1)),
        "t/consumer/consumer-\u{e9}",
    );
    let scan = reading(
        scan.step(ReadOutcome::Snapshot(9)),
        "t/consumer/consumer-ab",
    );
    let scan = reading(scan.step(ReadOutcome::Snapshot(3)), "t/consumer/consumer-");
    let scan = reading(
        scan.step(ReadOutcome::Snapshot(-4)),
        "t/consumer/consumer-z",
    );
    let consumers = list(scan.step(ReadOutcome::Snapshot(5)));
    let expected: Vec<(String, i64)> = vec![
        ("".to_string(), -4),
        ("a".to_string(), 1),
        ("ab".to_string(), 3),
        ("b".to_string(), 2),
        ("z".to_string(), 5),
        ("\u{e9}".to_string(), 9),
    ];
    assert_eq!(consumers, expected);
    let mut by_std = expected.clone();
    by_std.sort_by(|a, b| a.0.cmp(&b.0));
    assert_eq!(by_std, expected);
}

#[test]
fn other_entries_are_passed_over() {
    let statuses = vec![
        FileStatus {
            path: "t/consumer/consumer-dir".to_string(),
            is_dir: true,
        },
        file("t/consumer/README"),
        file("t/consumer-x/other"),
        file("t/consumer/consumer"),
        file("consumer-top"),
    ];
    let step: Step = manager().list_all(Listing::Entries(statuses));
    let scan = reading(step, "t/consumer/consumer-top");
    assert_eq!(
        list(scan.step(ReadOutcome::Snapshot(1))),
        vec![("top".to_string(), 1)]
    );
}

#[test]
fn a_consumer_that_is_gone_is_left_out() {
    let statuses = vec![file("t/consumer/consumer-a"), file("t/consumer/consumer-b")];
    let step: Step = manager().list_all(Listing::Entries(statuses));
    let scan = reading(step, "t/consumer/consumer-a");
    let scan = reading(scan.step(ReadOutcome::NotFound), "t/consumer/consumer-b");
    assert_eq!(
        list(scan.step(ReadOutcome::Snapshot(6))),
        vec![("b".to_string(), 6)]
    );
}

#[test]
fn a_listing_reads_again_and_fails_on_the_first_failure() {
    let statuses = vec![file("t/consumer/consumer-a"), file("t/consumer/consumer-b")];
    let step: Step = manager().list_all(Listing::Entries(statuses));
    let scan = reading(step, "t/consumer/consumer-a");
    let malformed: ReadOutcome<&'static str, u32> = ReadOutcome::Malformed {
        error: 1,
        text: "half".to_string(),
    };
    let scan = match scan.step(malformed) {
        ScanStep::Retry { scan, delay_millis } => {
            assert_eq!(delay_millis, 200);
            assert_eq!(scan.path(), "t/consumer/consumer-a");
            scan
        }
        _ => panic!("the file is not read again"),
    };
    let failed: ReadOutcome<&'static str, u32> = ReadOutcome::Failed("disk");
    assert!(matches!(
        scan.step(failed),
        ScanStep::Done(Err(ConsumerError::Io("disk")))
    ));
}

#[test]
fn invalid_data_ends_a_listing() {
    let statuses = vec![file("t/consumer/consumer-a")];
    let step: Step = manager().list_all(Listing::Entries(statuses));
    let mut scan = reading(step, "t/consumer/consumer-a");
    let mut error: u32 = 0;
    loop {
        error += 1;
        let outcome: ReadOutcome<&'static str, u32> = ReadOutcome::Malformed {
            error,
            text: "half".to_string(),
        };
        match scan.step(outcome) {
            ScanStep::Retry { scan: again, .. } => scan = again,
            ScanStep::Done(Err(ConsumerError::DataInvalid { message, source })) => {
                assert_eq!(message, "consumer 'a' JSON invalid: half");
                assert_eq!(source, 10);
                return;
            }
            _ => panic!("the listing went on"),
        }
    }
}

#[test]
fn a_listing_without_entries_ends_at_once() {
    let step: Step = manager().list_all(Listing::Entries(Vec::new()));
    assert_eq!(list(step), Vec::new());
    let step: Step = manager().list_all(Listing::NotFound);
    assert_eq!(list(step), Vec::new());
    let step: Step = manager().list_all(Listing::Failed("disk"));
    assert!(matches!(
        step,
        ScanStep::Done(Err(ConsumerError::Io("disk")))
    ));
}

#[test]
fn the_file_of_a_consumer_is_listed_under_it() {
    for id in ["", "job", "consumer-", "a b", "\u{e9}"] {
        let path = manager().get(id).unwrap().path().to_string();
        let step: Step = manager().list_all(Listing::Entries(vec![file(&path)]));
        let scan = reading(step, &path);
        assert_eq!(
            list(scan.step(ReadOutcome::Snapshot(1))),
            vec![(id.to_string(), 1)]
        );
    }
}

#[test]
fn the_order_of_the_directory_does_not_matter() {
    let orders = [["a", "b", "c"], ["c", "b", "a"], ["b", "c", "a"]];
    for order in orders {
        let statuses = order
            .iter()
            .map(|id| file(&format!("t/consumer/consumer-{id}")))
            .collect();
        let mut step: Step = manager().list_all(Listing::Entries(statuses));
        for id in order {
            let scan = reading(step, &format!("t/consumer/consumer-{id}"));
            step = scan.step(ReadOutcome::Snapshot(id.len() as i64));
        }
        assert_eq!(
            list(step),
            vec![
                ("a".to_string(), 1),
                ("b".to_string(), 1),
                ("c".to_string(), 1)
            ]
        );
    }
}

#[test]
fn a_consumer_listed_twice_stays_listed_twice() {
    let statuses = vec![file("x/consumer-a"), file("y/consumer-a")];
    let step: Step = manager().list_all(Listing::Entries(statuses));
    let scan = reading(step, "t/consumer/consumer-a");
    let scan = reading(
        scan.step(ReadOutcome::Snapshot(1)),
        "t/consumer/consumer-a",
    );
    let mut consumers = list(scan.step(ReadOutcome::Snapshot(2)));
    consumers.sort();
    assert_eq!(
        consumers,
        vec![("a".to_string(), 1), ("a".to_string(), 2)]
    );
}

#[test]
fn consumers_after_a_failure_are_not_read() {
    let statuses = vec![
        file("t/consumer/consumer-c"),
        file("t/consumer/consumer-b"),
        file("t/consumer/consumer-a"),
        file("t/consumer/consumer-d"),
    ];
    let step: Step = manager().list_all(Listing::Entries(statuses));
    let scan = reading(step, "t/consumer/consumer-c");
    let scan = reading(
        scan.step(ReadOutcome::Snapshot(3)),
        "t/consumer/consumer-b",
    );
    let scan = reading(scan.step(ReadOutcome::NotFound), "t/consumer/consumer-a");
    let failed: ReadOutcome<&'static str, u32> = ReadOutcome::Failed("disk");
    assert!(matches!(
        scan.step(failed),
        ScanStep::Done(Err(ConsumerError::Io("disk")))
    ));
}

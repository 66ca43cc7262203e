use opendal::services::Memory;
use opendal::{ErrorKind, Operator};
use paimon::consumer_manager::{
    ConsumerError, ConsumerManager, ConsumerRead, ReadOutcome, ReadStep, CONSUMER_DIR,
    CONSUMER_PREFIX, READ_RETRIES, RETRY_DELAY_MILLIS,
};

type Outcome = ReadOutcome<&'static str, u32>;

fn manager() -> ConsumerManager<u32> {
    ConsumerManager::new(7, "memory:/table".to_string())
}

fn malformed(error: u32) -> Outcome {
    ReadOutcome::Malformed {
        error,
        text: format!("error {error}"),
    }
}

fn retried(step: ReadStep<&'static str, u32>) -> ConsumerRead {
    match step {
        ReadStep::Retry { read, delay_millis } => {
            assert_eq!(delay_millis, 200);
            read
        }
        ReadStep::Done(_) => panic!("the read ended"),
    }
}

fn done(step: ReadStep<&'static str, u32>) -> Result<Option<i64>, ConsumerError<&'static str, u32>> {
    match step {
        ReadStep::Done(result) => result,
        ReadStep::Retry { .. } => panic!("the read goes on"),
    }
}

/// One attempt to read and parse a consumer file.
fn attempt(operator: &Operator, path: &str) -> ReadOutcome<opendal::Error, serde_json::Error> {
    let runtime = tokio::runtime::Builder::new_current_thread()
        .build()
        .unwrap();
    let bytes = match runtime.block_on(operator.read(path)) {
        Ok(bytes) => bytes.to_vec(),
        Err(error) if error.kind() == ErrorKind::NotFound => return ReadOutcome::NotFound,
        Err(error) => return ReadOutcome::Failed(error),
    };
    match serde_json::from_slice::<serde_json::Value>(&bytes) {
        Ok(value) => ReadOutcome::Snapshot(value["nextSnapshot"].as_i64().unwrap()),
        Err(error) => {
            let text = error.to_string();
            ReadOutcome::Malformed { error, text }
        }
    }
}

fn write(operator: &Operator, path: &str, bytes: &'static [u8]) {
    let runtime = tokio::runtime::Builder::new_current_thread()
        .build()
        .unwrap();
    runtime.block_on(operator.write(path, bytes)).unwrap();
}

#[test]
fn retries_a_consumer_being_overwritten() {
    let file_io = Operator::new(Memory::default()).unwrap().finish();
    let table_path = "memory:/consumer-retry";
    let directory = format!("{table_path}/{CONSUMER_DIR}");
    let path = format!("{directory}/{CONSUMER_PREFIX}job");
    write(&file_io, &path, b"{");

    let manager = ConsumerManager::new(file_io.clone(), table_path.to_string());
    let read = manager.get("job").unwrap();
    assert_eq!(read.path(), path);
    let read = match read.step(attempt(manager.file_io(), &path)) {
        ReadStep::Retry { read, delay_millis } => {
            assert_eq!(delay_millis, RETRY_DELAY_MILLIS);
            read
        }
        ReadStep::Done(_) => panic!("invalid JSON returned before retry"),
    };
    write(&file_io, &path, br#"{"nextSnapshot":5}"#);

    match read.step(attempt(manager.file_io(), &path)) {
        ReadStep::Done(Ok(snapshot)) => assert_eq!(snapshot, Some(5)),
        _ => panic!("valid JSON was not taken"),
    }
}

#[test]
fn missing_file_in_storage_is_no_consumer() {
    let file_io = Operator::new(Memory::default()).unwrap().finish();
    let manager = ConsumerManager::new(file_io, "memory:/empty".to_string());
    let read = manager.get("job").unwrap();
    let outcome = attempt(manager.file_io(), read.path());
    match read.step(outcome) {
        ReadStep::Done(Ok(snapshot)) => assert_eq!(snapshot, None),
        _ => panic!("a missing file is an answer"),
    }
}

#[test]
fn paths_of_consumers_and_branches() {
    let manager = manager();
    assert_eq!(manager.directory(), "memory:/table/consumer");
    let read = manager.get("job").unwrap();
    assert_eq!(read.path(), "memory:/table/consumer/consumer-job");
    assert_eq!(read.consumer_id(), "job");

    let branch = manager.with_branch("dev");
    assert_eq!(*branch.file_io(), 7);
    assert_eq!(branch.directory(), "memory:/table/branch/branch-dev/consumer");
    assert_eq!(
        branch.get("job").unwrap().path(),
        "memory:/table/branch/branch-dev/consumer/consumer-job"
    );
    assert_eq!(branch.clone().directory(), branch.directory());
}

#[test]
fn an_id_with_a_slash_is_never_read() {
    let manager = manager();
    assert!(manager.get("../other/job").is_none());
    assert!(manager.get("/").is_none());
    assert!(manager.get("job/").is_none());
    assert!(manager.get("").is_some());
    assert!(manager.get("..").is_some());
}

#[test]
fn the_first_settled_attempt_answers() {
    let read = manager().get("job").unwrap();
    let read = retried(read.step(malformed(1)));
    let read = retried(read.step(malformed(2)));
    assert!(matches!(
        done(read.step(ReadOutcome::Snapshot(-3))),
        Ok(Some(-3))
    ));

    let read = manager().get("job").unwrap();
    assert!(matches!(done(read.step(Outcome::NotFound)), Ok(None)));

    let read = manager().get("job").unwrap();
    let read = retried(read.step(malformed(1)));
    assert!(matches!(
        done(read.step(ReadOutcome::Failed("disk"))),
        Err(ConsumerError::Io("disk"))
    ));
}

#[test]
fn the_last_attempt_reports_invalid_data() {
    let mut read = manager().get("job").unwrap();
    let mut error: u32 = 1;
    while (error as usize) < READ_RETRIES {
        read = retried(read.step(malformed(error)));
        error += 1;
    }
    assert_eq!(error, 10);
    match done(read.step(malformed(error))) {
        Err(ConsumerError::DataInvalid { message, source }) => {
            assert_eq!(message, "consumer 'job' JSON invalid: error 10");
            assert_eq!(source, 10);
        }
        _ => panic!("the tenth attempt was not the last"),
    }
}

#[test]
fn the_last_attempt_may_still_succeed() {
    let mut read = manager().get("job").unwrap();
    for error in 1..10 {
        read = retried(read.step(malformed(error)));
    }
    assert!(matches!(
        done(read.step(ReadOutcome::Snapshot(8))),
        Ok(Some(8))
    ));
}

#[test]
fn consumers_never_share_a_file() {
    let manager = manager();
    let dev = manager.with_branch("dev");
    let test = manager.with_branch("test");
    let mut paths: Vec<String> = Vec::new();
    for id in ["a", "b", "branch-dev"] {
        paths.push(manager.get(id).unwrap().path().to_string());
        paths.push(dev.get(id).unwrap().path().to_string());
        paths.push(test.get(id).unwrap().path().to_string());
    }
    let total = paths.len();
    paths.sort();
    paths.dedup();
    assert_eq!(paths.len(), total);
}

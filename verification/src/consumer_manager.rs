//! Consumer progress files under a table or one of its branches: where they
//! lie, and how one is read while a writer may be overwriting it.

use crate::text::{contains_char, joined};
use vstd::prelude::*;
use vstd::string::*;

verus! {

/// The directory of a table that holds its consumer files.
pub const CONSUMER_DIR: &'static str = "consumer";

/// What the name of a consumer file starts with, before the consumer id.
pub const CONSUMER_PREFIX: &'static str = "consumer-";

/// How often a consumer file is read before its content counts as invalid.
pub const READ_RETRIES: usize = 10;

/// The pause before a consumer file is read again, in milliseconds.
pub const RETRY_DELAY_MILLIS: u64 = 200;

/// The path of a branch of the table at `table_path`.
pub open spec fn branch_path(table_path: Seq<char>, branch_name: Seq<char>) -> Seq<char> {
    table_path + "/branch/branch-"@ + branch_name
}

/// The directory that holds the consumer files of the table at `table_path`.
pub open spec fn consumer_directory(table_path: Seq<char>) -> Seq<char> {
    table_path + "/"@ + CONSUMER_DIR@
}

/// The file in `directory` that holds the progress of `consumer_id`.
pub open spec fn consumer_file(directory: Seq<char>, consumer_id: Seq<char>) -> Seq<char> {
    directory + "/"@ + (CONSUMER_PREFIX@ + consumer_id)
}

/// The message for a consumer file whose content stayed invalid; `error` is
/// what the last attempt to parse it reported.
pub open spec fn invalid_message(consumer_id: Seq<char>, error: Seq<char>) -> Seq<char> {
    "consumer '"@ + consumer_id + "' JSON invalid: "@ + error
}

/// What one attempt to read and parse a consumer file came to. `E` is a
/// failure of the storage, `P` a failure to parse.
pub enum ReadOutcome<E, P> {
    /// The file holds this next snapshot id.
    Snapshot(i64),
    /// The file was read but does not parse; `text` describes `error`.
    Malformed { error: P, text: String },
    /// There is no such file.
    NotFound,
    /// The storage failed in another way.
    Failed(E),
}

/// Why the progress of a consumer cannot be told.
pub enum ConsumerError<E, P> {
    /// The storage failed.
    Io(E),
    /// The consumer file stayed invalid.
    DataInvalid { message: String, source: P },
}

/// The answer to a request for the progress of one consumer.
pub enum Answer<E, P> {
    Found(i64),
    Missing,
    Io(E),
    DataInvalid { message: Seq<char>, source: P },
}

/// The answer that `result` gives.
pub open spec fn answer_of<E, P>(result: Result<Option<i64>, ConsumerError<E, P>>) -> Answer<
    E,
    P,
> {
    match result {
        Ok(Some(next_snapshot)) => Answer::Found(next_snapshot),
        Ok(None) => Answer::Missing,
        Err(ConsumerError::Io(error)) => Answer::Io(error),
        Err(ConsumerError::DataInvalid { message, source }) => Answer::DataInvalid {
            message: message@,
            source,
        },
    }
}

/// The answer that an outcome settles, where no further attempt is made.
pub open spec fn settled<E, P>(consumer_id: Seq<char>, outcome: ReadOutcome<E, P>) -> Answer<E, P> {
    match outcome {
        ReadOutcome::Snapshot(next_snapshot) => Answer::Found(next_snapshot),
        ReadOutcome::NotFound => Answer::Missing,
        ReadOutcome::Failed(error) => Answer::Io(error),
        ReadOutcome::Malformed { error, text } => Answer::DataInvalid {
            message: invalid_message(consumer_id, text@),
            source: error,
        },
    }
}

/// A consumer file being read: whose it is, where it lies, and how many
/// attempts have failed.
pub struct ReadView {
    pub consumer_id: Seq<char>,
    pub path: Seq<char>,
    pub attempt: nat,
}

impl ReadView {
    /// Before the first attempt.
    pub open spec fn start(directory: Seq<char>, consumer_id: Seq<char>) -> ReadView {
        ReadView { consumer_id, path: consumer_file(directory, consumer_id), attempt: 0 }
    }

    /// After one more attempt that failed.
    pub open spec fn again(self) -> ReadView {
        ReadView { attempt: self.attempt + 1, ..self }
    }

    /// What an attempt that came to `outcome` leads to.
    pub open spec fn next<E, P>(self, outcome: ReadOutcome<E, P>) -> Progress<E, P> {
        if outcome is Malformed && self.attempt + 1 < READ_RETRIES {
            Progress::Retry(self.again())
        } else {
            Progress::Done(settled(self.consumer_id, outcome))
        }
    }

    /// The answer after the attempts that came to `outcomes`; `None` where
    /// they do not settle it.
    pub open spec fn answer<E, P>(self, outcomes: Seq<ReadOutcome<E, P>>) -> Option<Answer<E, P>>
        decreases outcomes.len(),
    {
        if outcomes.len() == 0 {
            None
        } else {
            match self.next(outcomes[0]) {
                Progress::Retry(again) => again.answer(outcomes.drop_first()),
                Progress::Done(answer) => Some(answer),
            }
        }
    }
}

/// Where a read stands after one attempt.
pub enum Progress<E, P> {
    Retry(ReadView),
    Done(Answer<E, P>),
}

/// A consumer file that is to be read.
pub struct ConsumerRead {
    consumer_id: String,
    path: String,
    attempt: usize,
}

impl View for ConsumerRead {
    type V = ReadView;

    closed spec fn view(&self) -> ReadView {
        ReadView {
            consumer_id: self.consumer_id@,
            path: self.path@,
            attempt: self.attempt as nat,
        }
    }
}

/// What to do after one attempt to read a consumer file.
pub enum ReadStep<E, P> {
    /// Pause for `delay_millis`, then read the same file again.
    Retry { read: ConsumerRead, delay_millis: u64 },
    /// The request is answered.
    Done(Result<Option<i64>, ConsumerError<E, P>>),
}

impl<E, P> ReadStep<E, P> {
    pub open spec fn progress(self) -> Progress<E, P> {
        match self {
            ReadStep::Retry { read, delay_millis } => Progress::Retry(read@),
            ReadStep::Done(result) => Progress::Done(answer_of(result)),
        }
    }
}

impl ConsumerRead {
    #[verifier::type_invariant]
    spec fn may_be_read(self) -> bool {
        &&& self.attempt < READ_RETRIES
        &&& !self.consumer_id@.contains('/')
    }

    /// A read of the file of `consumer_id` in `directory`, before the first
    /// attempt.
    pub(crate) fn start(directory: &str, consumer_id: &str) -> (read: ConsumerRead)
        requires
            !consumer_id@.contains('/'),
        ensures
            read@ == ReadView::start(directory@, consumer_id@),
    {
        let mut path = joined(directory, "/");
        path.append(CONSUMER_PREFIX);
        path.append(consumer_id);
        assert(path@ == consumer_file(directory@, consumer_id@));
        ConsumerRead { consumer_id: consumer_id.to_owned(), path, attempt: 0 }
    }

    /// The file to read.
    pub fn path(&self) -> (path: &str)
        ensures
            path@ == self@.path,
    {
        self.path.as_str()
    }

    /// Whose progress the file holds: a single file name.
    pub fn consumer_id(&self) -> (consumer_id: &str)
        ensures
            consumer_id@ == self@.consumer_id,
            !consumer_id@.contains('/'),
    {
        proof {
            use_type_invariant(self);
        }
        self.consumer_id.as_str()
    }

    /// Takes what an attempt came to. A file that does not parse may be in
    /// the middle of being overwritten, so it is read again until the
    /// attempts are used up.
    pub fn step<E, P>(self, outcome: ReadOutcome<E, P>) -> (step: ReadStep<E, P>)
        ensures
            step.progress() == self@.next(outcome),
            step matches ReadStep::Retry { read, delay_millis } ==> delay_millis
                == RETRY_DELAY_MILLIS,
            match outcome {
                ReadOutcome::Snapshot(next_snapshot) => step == ReadStep::<E, P>::Done(
                    Ok(Some(next_snapshot)),
                ),
                ReadOutcome::NotFound => step == ReadStep::<E, P>::Done(Ok(None)),
                ReadOutcome::Failed(error) => step == ReadStep::<E, P>::Done(
                    Err(ConsumerError::Io(error)),
                ),
                ReadOutcome::Malformed { error, text } => if self@.attempt < 9 {
                    step matches ReadStep::Retry { read, delay_millis } && {
                        &&& delay_millis == 200
                        &&& read@.consumer_id == self@.consumer_id
                        &&& read@.path == self@.path
                        &&& read@.attempt == self@.attempt + 1
                    }
                } else {
                    step matches ReadStep::Done(
                        Err(ConsumerError::DataInvalid { message, source }),
                    ) && source == error && message@ == "consumer '"@ + self@.consumer_id
                        + "' JSON invalid: "@ + text@
                },
            },
    {
        proof {
            use_type_invariant(&self);
        }
        match outcome {
            ReadOutcome::Snapshot(next_snapshot) => ReadStep::Done(Ok(Some(next_snapshot))),
            ReadOutcome::NotFound => ReadStep::Done(Ok(None)),
            ReadOutcome::Failed(error) => ReadStep::Done(Err(ConsumerError::Io(error))),
            ReadOutcome::Malformed { error, text } => {
                if self.attempt + 1 < READ_RETRIES {
                    let read = ConsumerRead {
                        consumer_id: self.consumer_id,
                        path: self.path,
                        attempt: self.attempt + 1,
                    };
                    ReadStep::Retry { read, delay_millis: RETRY_DELAY_MILLIS }
                } else {
                    let mut message = joined("consumer '", self.consumer_id.as_str());
                    message.append("' JSON invalid: ");
                    message.append(text.as_str());
                    ReadStep::Done(Err(ConsumerError::DataInvalid { message, source: error }))
                }
            },
        }
    }
}

/// Reads consumer progress files stored under a table or branch. `F` is the
/// handle through which the files are reached.
#[derive(Debug)]
pub struct ConsumerManager<F> {
    file_io: F,
    table_path: String,
}

impl<F> ConsumerManager<F> {
    /// The handle through which the files are reached.
    pub closed spec fn handle(&self) -> F {
        self.file_io
    }

    /// Where the table lies.
    pub closed spec fn table_path(&self) -> Seq<char> {
        self.table_path@
    }

    pub fn new(file_io: F, table_path: String) -> (manager: Self)
        ensures
            manager.handle() == file_io,
            manager.table_path() == table_path@,
    {
        Self { file_io, table_path }
    }

    /// The handle through which the files are reached.
    pub fn file_io(&self) -> (file_io: &F)
        ensures
            *file_io == self.handle(),
    {
        &self.file_io
    }

    /// The directory that holds the consumer files.
    pub fn directory(&self) -> (directory: String)
        ensures
            directory@ == consumer_directory(self.table_path()),
            directory@ == self.table_path() + "/consumer"@,
    {
        proof {
            crate::consumer_laws::law_where_consumer_files_lie(
                self.table_path(),
                Seq::empty(),
                Seq::empty(),
            );
        }
        let mut directory = joined(self.table_path.as_str(), "/");
        directory.append(CONSUMER_DIR);
        directory
    }

    /// Starts to read one consumer's next snapshot id. `None` is the answer
    /// that there is no such consumer.
    ///
    /// A consumer id is a single file name: one that holds a `/` leads to no
    /// read at all, so that no id reaches a file elsewhere.
    pub fn get(&self, consumer_id: &str) -> (read: Option<ConsumerRead>)
        ensures
            match read {
                Some(read) => !consumer_id@.contains('/') && read@ == ReadView::start(
                    consumer_directory(self.table_path()),
                    consumer_id@,
                ),
                None => consumer_id@.contains('/'),
            },
            read is Some <==> !consumer_id@.contains('/'),
            read matches Some(read) ==> {
                &&& read@.consumer_id == consumer_id@
                &&& read@.path == self.table_path() + "/consumer/consumer-"@ + consumer_id@
                &&& read@.attempt == 0
            },
    {
        proof {
            crate::consumer_laws::law_where_consumer_files_lie(
                self.table_path(),
                Seq::empty(),
                consumer_id@,
            );
        }
        if contains_char(consumer_id, '/') {
            None
        } else {
            Some(ConsumerRead::start(self.directory().as_str(), consumer_id))
        }
    }
}

impl<F: Clone> Clone for ConsumerManager<F> {
    fn clone(&self) -> (manager: Self)
        ensures
            cloned(self.handle(), manager.handle()),
            manager.table_path() == self.table_path(),
    {
        Self { file_io: self.file_io.clone(), table_path: self.table_path.clone() }
    }
}

impl<F: Clone> ConsumerManager<F> {
    /// Creates a manager for a branch of this table.
    pub fn with_branch(&self, branch_name: &str) -> (manager: Self)
        ensures
            cloned(self.handle(), manager.handle()),
            manager.table_path() == branch_path(self.table_path(), branch_name@),
            manager.table_path() == self.table_path() + "/branch/branch-"@ + branch_name@,
    {
        let mut path = joined(self.table_path.as_str(), "/branch/branch-");
        path.append(branch_name);
        Self::new(self.file_io.clone(), path)
    }
}

/// The first attempt that settles a request answers it: one whose outcome is
/// not a malformed file, or the last that is allowed.
pub proof fn law_first_settling_attempt_answers<E, P>(
    directory: Seq<char>,
    consumer_id: Seq<char>,
    outcomes: Seq<ReadOutcome<E, P>>,
    k: int,
)
    requires
        0 <= k < outcomes.len(),
        k < READ_RETRIES,
        forall|i: int| 0 <= i < k ==> outcomes[i] is Malformed,
        outcomes[k] !is Malformed || k + 1 == READ_RETRIES,
    ensures
        ReadView::start(directory, consumer_id).answer(outcomes) == Some(
            settled(consumer_id, outcomes[k]),
        ),
{
    lemma_answer_from(ReadView::start(directory, consumer_id), outcomes, k);
}

proof fn lemma_answer_from<E, P>(read: ReadView, outcomes: Seq<ReadOutcome<E, P>>, k: int)
    requires
        0 <= k < outcomes.len(),
        read.attempt + k < READ_RETRIES,
        forall|i: int| 0 <= i < k ==> outcomes[i] is Malformed,
        outcomes[k] !is Malformed || read.attempt + k + 1 == READ_RETRIES,
    ensures
        read.answer(outcomes) == Some(settled(read.consumer_id, outcomes[k])),
    decreases k,
{
    if k > 0 {
        lemma_answer_from(read.again(), outcomes.drop_first(), k - 1);
    }
}

/// A request stays open only while every attempt met a malformed file and
/// fewer than `READ_RETRIES` were made: no file is read more often than that.
pub proof fn law_attempts_are_bounded<E, P>(
    directory: Seq<char>,
    consumer_id: Seq<char>,
    outcomes: Seq<ReadOutcome<E, P>>,
)
    ensures
        ReadView::start(directory, consumer_id).answer(outcomes) is None <==> {
            &&& outcomes.len() < READ_RETRIES
            &&& forall|i: int| 0 <= i < outcomes.len() ==> outcomes[i] is Malformed
        },
{
    lemma_open_from(ReadView::start(directory, consumer_id), outcomes);
}

proof fn lemma_open_from<E, P>(read: ReadView, outcomes: Seq<ReadOutcome<E, P>>)
    requires
        read.attempt < READ_RETRIES,
    ensures
        read.answer(outcomes) is None <==> {
            &&& read.attempt + outcomes.len() < READ_RETRIES
            &&& forall|i: int| 0 <= i < outcomes.len() ==> outcomes[i] is Malformed
        },
    decreases outcomes.len(),
{
    if outcomes.len() > 0 {
        let rest = outcomes.drop_first();
        if outcomes[0] is Malformed && read.attempt + 1 < READ_RETRIES {
            lemma_open_from(read.again(), rest);
            if forall|i: int| 0 <= i < rest.len() ==> rest[i] is Malformed {
                assert forall|i: int| 0 <= i < outcomes.len() implies outcomes[i] is Malformed by {
                    if i > 0 {
                        assert(rest[i - 1] is Malformed);
                    }
                }
            }
        }
    }
}

/// The file of a consumer lies directly in the consumer directory: its last
/// component is the prefix and the id.
pub proof fn law_consumer_file_lies_in_its_directory(directory: Seq<char>, consumer_id: Seq<char>)
    requires
        !consumer_id.contains('/'),
    ensures
        crate::text::last_component(consumer_file(directory, consumer_id)) == CONSUMER_PREFIX@
            + consumer_id,
        directory.is_prefix_of(consumer_file(directory, consumer_id)),
{
    reveal_strlit("/");
    reveal_strlit("consumer-");
    let name = CONSUMER_PREFIX@ + consumer_id;
    assert(!name.contains('/')) by {
        if name.contains('/') {
            let i = choose|i: int| 0 <= i < name.len() && name[i] == '/';
            if i >= CONSUMER_PREFIX@.len() {
                assert(consumer_id[i - CONSUMER_PREFIX@.len()] == '/');
            }
        }
    }
    assert("/"@ == seq!['/']);
    crate::text::lemma_last_component(directory, name);
}

/// Different consumers of one directory never share a file.
pub proof fn law_consumers_do_not_share_files(
    directory: Seq<char>,
    consumer1: Seq<char>,
    consumer2: Seq<char>,
)
    requires
        consumer_file(directory, consumer1) == consumer_file(directory, consumer2),
    ensures
        consumer1 == consumer2,
{
    let before = directory + "/"@ + CONSUMER_PREFIX@;
    assert(consumer1 == consumer_file(directory, consumer1).skip(before.len() as int));
    assert(consumer2 == consumer_file(directory, consumer2).skip(before.len() as int));
}

/// Consumers of different branches never share a file.
pub proof fn law_branches_do_not_share_consumer_files(
    table_path: Seq<char>,
    branch1: Seq<char>,
    consumer1: Seq<char>,
    branch2: Seq<char>,
    consumer2: Seq<char>,
)
    requires
        !consumer1.contains('/'),
        !consumer2.contains('/'),
        consumer_file(consumer_directory(branch_path(table_path, branch1)), consumer1)
            == consumer_file(consumer_directory(branch_path(table_path, branch2)), consumer2),
    ensures
        branch1 == branch2,
        consumer1 == consumer2,
{
    let directory1 = consumer_directory(branch_path(table_path, branch1));
    let directory2 = consumer_directory(branch_path(table_path, branch2));
    law_consumer_file_lies_in_its_directory(directory1, consumer1);
    law_consumer_file_lies_in_its_directory(directory2, consumer2);
    let name1 = CONSUMER_PREFIX@ + consumer1;
    let name2 = CONSUMER_PREFIX@ + consumer2;
    assert(name1 == name2);
    assert(consumer1 == name1.skip(CONSUMER_PREFIX@.len() as int));
    assert(consumer2 == name2.skip(CONSUMER_PREFIX@.len() as int));
    let path1 = consumer_file(directory1, consumer1);
    let path2 = consumer_file(directory2, consumer2);
    let shared = table_path + "/branch/branch-"@;
    let tail = "/"@ + CONSUMER_DIR@ + "/"@ + name1;
    assert(path1 == shared + branch1 + tail);
    assert(path2 == shared + branch2 + tail);
    assert(branch1 == path1.subrange(shared.len() as int, path1.len() - tail.len()));
    assert(branch2 == path2.subrange(shared.len() as int, path2.len() - tail.len()));
}

/// The consumer files of a table are never those of one of its branches.
pub proof fn law_table_and_branch_do_not_share_consumer_files(
    table_path: Seq<char>,
    consumer: Seq<char>,
    branch: Seq<char>,
    branch_consumer: Seq<char>,
)
    ensures
        consumer_file(consumer_directory(table_path), consumer) != consumer_file(
            consumer_directory(branch_path(table_path, branch)),
            branch_consumer,
        ),
{
    reveal_strlit("/");
    reveal_strlit("consumer");
    reveal_strlit("/branch/branch-");
    let path1 = consumer_file(consumer_directory(table_path), consumer);
    let path2 = consumer_file(
        consumer_directory(branch_path(table_path, branch)),
        branch_consumer,
    );
    assert(path1[table_path.len() as int + 1] == 'c');
    assert(path2[table_path.len() as int + 1] == 'b');
}

} // verus!

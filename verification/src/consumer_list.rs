//! Listing the consumers of a table or branch with their progress.

use crate::consumer_manager::{
    Answer, ConsumerError, ConsumerManager, ConsumerRead, Progress, ReadOutcome, ReadStep, ReadView,
    CONSUMER_PREFIX,
};
use crate::text::{comes_before, file_name, strip_prefix};
use vstd::prelude::*;
use vstd::string::*;

verus! {

/// An entry of a directory.
#[derive(Debug)]
pub struct FileStatus {
    pub path: String,
    pub is_dir: bool,
}

/// What a listing of the consumer directory came to. `E` is a failure of the
/// storage.
pub enum Listing<E> {
    /// The entries of the directory.
    Entries(Vec<FileStatus>),
    /// There is no such directory.
    NotFound,
    /// The storage failed in another way.
    Failed(E),
}

/// The consumer that an entry belongs to: the entry is a file whose name is
/// the consumer prefix and the id.
pub open spec fn listed_id(status: FileStatus) -> Option<Seq<char>> {
    if status.is_dir {
        None
    } else {
        crate::text::stripped(crate::text::last_component(status.path@), CONSUMER_PREFIX@)
    }
}

/// The consumers that the entries belong to, in the order of the entries.
pub open spec fn listed_ids(statuses: Seq<FileStatus>) -> Seq<Seq<char>>
    decreases statuses.len(),
{
    if statuses.len() == 0 {
        Seq::empty()
    } else {
        let before = listed_ids(statuses.drop_last());
        match listed_id(statuses.last()) {
            Some(id) => before.push(id),
            None => before,
        }
    }
}

/// Consumer ids with their next snapshot ids.
pub type Entries = Seq<(Seq<char>, i64)>;

/// The contents of `consumers`.
pub open spec fn entries(consumers: Seq<(String, i64)>) -> Entries {
    Seq::new(consumers.len(), |i: int| (consumers[i].0@, consumers[i].1))
}

/// Whether no entry's id comes before that of an earlier entry.
pub open spec fn sorted_by_id(list: Entries) -> bool {
    forall|i: int, j: int|
        0 <= i < j < list.len() ==> !crate::text::precedes(#[trigger] list[j].0, #[trigger] list[i].0)
}

/// Whether `list` holds what was found, sorted by consumer id. The order of
/// entries with one id is left open.
pub open spec fn sorted_listing(list: Entries, found: Entries) -> bool {
    &&& sorted_by_id(list)
    &&& list.to_multiset() == found.to_multiset()
}

/// A listing under way: the file being read, the consumers not read yet, and
/// what was found so far.
pub struct ScanView {
    pub directory: Seq<char>,
    pub read: ReadView,
    pub pending: Seq<Seq<char>>,
    pub found: Entries,
}

/// Where a listing stands. A listing that ends gives what was found, in the
/// order of the directory, or the answer that made it fail.
pub enum ScanProgress<E, P> {
    Read(ScanView),
    Retry(ScanView),
    Done(Result<Entries, Answer<E, P>>),
}

/// Goes on to the first of the `pending` consumers.
pub open spec fn advance<E, P>(
    directory: Seq<char>,
    pending: Seq<Seq<char>>,
    found: Entries,
) -> ScanProgress<E, P> {
    if pending.len() == 0 {
        ScanProgress::Done(Ok(found))
    } else {
        ScanProgress::Read(
            ScanView {
                directory,
                read: ReadView::start(directory, pending[0]),
                pending: pending.drop_first(),
                found,
            },
        )
    }
}

impl ScanView {
    /// What an attempt to read the current file leads to: a consumer that is
    /// gone is left out, and a failure ends the listing.
    pub open spec fn next<E, P>(self, outcome: ReadOutcome<E, P>) -> ScanProgress<E, P> {
        match self.read.next(outcome) {
            Progress::Retry(read) => ScanProgress::Retry(ScanView { read, ..self }),
            Progress::Done(answer) => self.answered(answer),
        }
    }

    /// What the answer for the current consumer leads to.
    pub open spec fn answered<E, P>(self, answer: Answer<E, P>) -> ScanProgress<E, P> {
        match answer {
            Answer::Found(next_snapshot) => advance(
                self.directory,
                self.pending,
                self.found.push((self.read.consumer_id, next_snapshot)),
            ),
            Answer::Missing => advance(self.directory, self.pending, self.found),
            failure => ScanProgress::Done(Err(failure)),
        }
    }
}

impl<E, P> ScanProgress<E, P> {
    /// Where the listing stands after the attempts that came to `outcomes`.
    pub open spec fn run(self, outcomes: Seq<ReadOutcome<E, P>>) -> ScanProgress<E, P>
        decreases outcomes.len(),
    {
        if outcomes.len() == 0 {
            self
        } else {
            match self {
                ScanProgress::Read(scan) => scan.next(outcomes[0]).run(outcomes.drop_first()),
                ScanProgress::Retry(scan) => scan.next(outcomes[0]).run(outcomes.drop_first()),
                ScanProgress::Done(_) => self,
            }
        }
    }
}

/// A listing under way.
pub struct ConsumerScan {
    directory: String,
    read: ConsumerRead,
    pending: Vec<String>,
    next: usize,
    found: Vec<(String, i64)>,
}

/// The texts of `ids` from `from` on.
spec fn texts_from(ids: Seq<String>, from: int) -> Seq<Seq<char>> {
    Seq::new((ids.len() - from) as nat, |i: int| ids[from + i]@)
}

/// Whether each of `ids` is a single file name.
spec fn file_names(ids: Seq<Seq<char>>) -> bool {
    forall|i: int| 0 <= i < ids.len() ==> !(#[trigger] ids[i]).contains('/')
}

impl View for ConsumerScan {
    type V = ScanView;

    closed spec fn view(&self) -> ScanView {
        ScanView {
            directory: self.directory@,
            read: self.read@,
            pending: texts_from(self.pending@, self.next as int),
            found: entries(self.found@),
        }
    }
}

/// What to do next for a listing.
pub enum ScanStep<E, P> {
    /// Read the file at the path of `scan`.
    Read { scan: ConsumerScan },
    /// Pause for `delay_millis`, then read the same file again.
    Retry { scan: ConsumerScan, delay_millis: u64 },
    /// The listing is answered.
    Done(Result<Vec<(String, i64)>, ConsumerError<E, P>>),
}

impl<E, P> ScanStep<E, P> {
    /// Whether this step is what `progress` calls for. A list that ends the
    /// listing is sorted by consumer id.
    pub open spec fn follows(self, progress: ScanProgress<E, P>) -> bool {
        match (self, progress) {
            (ScanStep::Read { scan }, ScanProgress::Read(next)) => scan@ == next,
            (ScanStep::Retry { scan, delay_millis }, ScanProgress::Retry(next)) => scan@ == next
                && delay_millis == crate::consumer_manager::RETRY_DELAY_MILLIS,
            (ScanStep::Done(Ok(list)), ScanProgress::Done(Ok(found))) => sorted_listing(
                entries(list@),
                found,
            ),
            (ScanStep::Done(Err(error)), ScanProgress::Done(Err(failure))) => {
                crate::consumer_manager::answer_of::<E, P>(Err(error)) == failure
            },
            _ => false,
        }
    }
}

impl ConsumerScan {
    #[verifier::type_invariant]
    spec fn may_go_on(self) -> bool {
        &&& self.next <= self.pending@.len()
        &&& file_names(texts_from(self.pending@, 0))
    }

    /// The file to read.
    pub fn path(&self) -> (path: &str)
        ensures
            path@ == self@.read.path,
    {
        self.read.path()
    }

    /// Goes on to the consumer at `next`, or ends the listing.
    fn advance<E, P>(
        directory: String,
        pending: Vec<String>,
        next: usize,
        found: Vec<(String, i64)>,
    ) -> (step: ScanStep<E, P>)
        requires
            next <= pending@.len(),
            file_names(texts_from(pending@, 0)),
        ensures
            step.follows(
                advance(directory@, texts_from(pending@, next as int), entries(found@)),
            ),
    {
        if next < pending.len() {
            assert(texts_from(pending@, 0)[next as int] == pending@[next as int]@);
            let read = ConsumerRead::start(directory.as_str(), pending[next].as_str());
            let scan = ConsumerScan { directory, read, pending, next: next + 1, found };
            assert(texts_from(pending@, next + 1) == texts_from(pending@, next as int).drop_first());
            ScanStep::Read { scan }
        } else {
            ScanStep::Done(Ok(sort_by_id(found)))
        }
    }

    /// Takes what an attempt to read the current file came to.
    pub fn step<E, P>(self, outcome: ReadOutcome<E, P>) -> (step: ScanStep<E, P>)
        ensures
            step.follows(self@.next(outcome)),
            outcome matches ReadOutcome::Snapshot(next_snapshot) ==> self@.pending.len() > 0 ==> (
            step matches ScanStep::Read { scan } && {
                &&& scan@.directory == self@.directory
                &&& scan@.read.consumer_id == self@.pending[0]
                &&& scan@.pending == self@.pending.skip(1)
                &&& scan@.found == self@.found.push((self@.read.consumer_id, next_snapshot))
            }),
            outcome is NotFound && self@.pending.len() > 0 ==> (step matches ScanStep::Read { scan }
                && {
                &&& scan@.directory == self@.directory
                &&& scan@.read.consumer_id == self@.pending[0]
                &&& scan@.pending == self@.pending.skip(1)
                &&& scan@.found == self@.found
            }),
            outcome matches ReadOutcome::Snapshot(next_snapshot) ==> self@.pending.len() == 0 ==> (
            step matches ScanStep::Done(Ok(list)) && list@.len() == self@.found.len() + 1),
            outcome is NotFound && self@.pending.len() == 0 ==> (step matches ScanStep::Done(Ok(list))
                && list@.len() == self@.found.len()),
            outcome matches ReadOutcome::Failed(error) ==> step == ScanStep::<E, P>::Done(
                Err(ConsumerError::Io(error)),
            ),
    {
        proof {
            use_type_invariant(&self);
        }
        let ghost scan = self@;
        proof {
            assert(scan.pending.len() > 0 ==> scan.pending.drop_first() == scan.pending.skip(1));
            lemma_listing_length(scan.found);
            if let ReadOutcome::Snapshot(next_snapshot) = outcome {
                lemma_listing_length(scan.found.push((scan.read.consumer_id, next_snapshot)));
            }
        }
        let id: String = self.read.consumer_id().to_owned();
        let mut found = self.found;
        match self.read.step(outcome) {
            ReadStep::Retry { read, delay_millis } => {
                let scan = ConsumerScan {
                    directory: self.directory,
                    read,
                    pending: self.pending,
                    next: self.next,
                    found,
                };
                ScanStep::Retry { scan, delay_millis }
            },
            ReadStep::Done(Ok(Some(next_snapshot))) => {
                found.push((id, next_snapshot));
                assert(entries(found@) == scan.found.push((id@, next_snapshot)));
                Self::advance(self.directory, self.pending, self.next, found)
            },
            ReadStep::Done(Ok(None)) => Self::advance(
                self.directory,
                self.pending,
                self.next,
                found,
            ),
            ReadStep::Done(Err(error)) => ScanStep::Done(Err(error)),
        }
    }
}

/// The consumers that the entries belong to, in the order of the entries.
fn consumer_ids(statuses: &Vec<FileStatus>) -> (ids: Vec<String>)
    ensures
        file_names(texts_from(ids@, 0)),
        texts_from(ids@, 0) == listed_ids(statuses@),
{
    let mut ids: Vec<String> = Vec::new();
    let mut i: usize = 0;
    while i < statuses.len()
        invariant
            i <= statuses@.len(),
            texts_from(ids@, 0) == listed_ids(statuses@.take(i as int)),
        decreases statuses@.len() - i,
    {
        assert(statuses@.take(i + 1).drop_last() == statuses@.take(i as int));
        if !statuses[i].is_dir {
            let name = file_name(statuses[i].path.as_str());
            if let Some(id) = strip_prefix(name.as_str(), CONSUMER_PREFIX) {
                ids.push(id);
            }
        }
        i = i + 1;
    }
    assert(statuses@.take(i as int) == statuses@);
    proof {
        assert forall|k: int| 0 <= k < ids@.len() implies !(#[trigger] texts_from(
            ids@,
            0,
        )[k]).contains('/') by {
            law_listed_ids_are_file_names(statuses@, k);
        }
    }
    ids
}

/// `consumers`, sorted by consumer id.
fn sort_by_id(consumers: Vec<(String, i64)>) -> (sorted: Vec<(String, i64)>)
    ensures
        sorted_listing(entries(sorted@), entries(consumers@)),
{
    let mut sorted: Vec<(String, i64)> = Vec::new();
    let mut i: usize = 0;
    assert(entries(sorted@) == entries(consumers@.take(0)));
    while i < consumers.len()
        invariant
            i <= consumers@.len(),
            sorted_listing(entries(sorted@), entries(consumers@.take(i as int))),
        decreases consumers@.len() - i,
    {
        let entry: (String, i64) = (consumers[i].0.clone(), consumers[i].1);
        let ghost before = sorted@;
        let mut at: usize = sorted.len();
        while at > 0 && comes_before(entry.0.as_str(), sorted[at - 1].0.as_str())
            invariant
                at <= sorted@.len(),
                forall|j: int|
                    at <= j < sorted@.len() ==> crate::text::precedes(
                        entry.0@,
                        #[trigger] entries(sorted@)[j].0,
                    ),
            decreases at,
        {
            at = at - 1;
        }
        sorted.insert(at, entry);
        proof {
            let old_list = entries(before);
            let new_list = entries(sorted@);
            let item = (entry.0@, entry.1);
            assert(new_list == old_list.insert(at as int, item));
            vstd::seq_lib::to_multiset_insert(old_list, at as int, item);
            let taken = entries(consumers@.take(i as int));
            assert(entries(consumers@.take(i + 1)) == taken.push(item));
            vstd::seq_lib::to_multiset_build(taken, item);
            lemma_insert_sorted(old_list, at as int, item);
        }
        i = i + 1;
    }
    assert(consumers@.take(i as int) == consumers@);
    sorted
}

/// A sorted listing is as long as what was found.
proof fn lemma_listing_length(found: Entries)
    ensures
        forall|list: Entries| #[trigger] sorted_listing(list, found) ==> list.len() == found.len(),
{
    broadcast use vstd::seq_lib::group_to_multiset_ensures;

    assert forall|list: Entries| #[trigger] sorted_listing(list, found) implies list.len()
        == found.len() by {
        assert(list.len() == list.to_multiset().len());
        assert(found.len() == found.to_multiset().len());
    }
}

/// An entry put after one that it does not come before, and before those that
/// it comes before, keeps the list sorted.
proof fn lemma_insert_sorted(list: Entries, at: int, item: (Seq<char>, i64))
    requires
        sorted_by_id(list),
        0 <= at <= list.len(),
        at > 0 ==> !crate::text::precedes(item.0, list[at - 1].0),
        forall|j: int| at <= j < list.len() ==> crate::text::precedes(item.0, #[trigger] list[j].0),
    ensures
        sorted_by_id(list.insert(at, item)),
{
    let longer = list.insert(at, item);
    assert forall|i: int, j: int| 0 <= i < j < longer.len() implies !crate::text::precedes(
        #[trigger] longer[j].0,
        #[trigger] longer[i].0,
    ) by {
        if i == at {
            let later = list[j - 1].0;
            assert(crate::text::precedes(item.0, later));
            if crate::text::precedes(later, item.0) {
                crate::text::lemma_precedes_transitive(item.0, later, item.0);
                crate::text::lemma_precedes_irreflexive(item.0);
            }
        } else if j == at {
            let earlier = list[i].0;
            if crate::text::precedes(item.0, earlier) && i != at - 1 {
                let last = list[at - 1].0;
                assert(!crate::text::precedes(last, earlier));
                crate::text::lemma_precedes_total(earlier, last);
                if earlier != last {
                    crate::text::lemma_precedes_transitive(item.0, earlier, last);
                }
            }
        } else {
            let earlier = list[if i < at { i } else { i - 1 }].0;
            let later = list[if j < at { j } else { j - 1 }].0;
            assert(!crate::text::precedes(later, earlier));
        }
    }
}

impl<F> ConsumerManager<F> {
    /// Starts to list consumer ids and their next snapshot ids from what a
    /// listing of the consumer directory came to. A table without that
    /// directory has no consumers.
    pub fn list_all<E, P>(&self, listing: Listing<E>) -> (step: ScanStep<E, P>)
        ensures
            step.follows(
                match listing {
                    Listing::Entries(statuses) => advance(
                        crate::consumer_manager::consumer_directory(self.table_path()),
                        listed_ids(statuses@),
                        Seq::empty(),
                    ),
                    Listing::NotFound => ScanProgress::Done(Ok(Seq::empty())),
                    Listing::Failed(error) => ScanProgress::Done(Err(Answer::Io(error))),
                },
            ),
            listing matches Listing::Entries(statuses) ==> (step matches ScanStep::Read { scan } ==> {
                &&& scan@.directory == self.table_path() + "/consumer"@
                &&& seq![scan@.read.consumer_id] + scan@.pending == listed_ids(statuses@)
                &&& scan@.found.len() == 0
            }),
            listing matches Listing::Entries(statuses) ==> (step is Read <==> listed_ids(
                statuses@,
            ).len() > 0),
            listing is NotFound ==> (step matches ScanStep::Done(Ok(list)) && list@.len() == 0),
            listing matches Listing::Failed(error) ==> step == ScanStep::<E, P>::Done(
                Err(ConsumerError::Io(error)),
            ),
    {
        proof {
            crate::consumer_laws::law_where_consumer_files_lie(
                self.table_path(),
                Seq::empty(),
                Seq::empty(),
            );
        }
        match listing {
            Listing::Entries(statuses) => {
                let ids = consumer_ids(&statuses);
                let ghost listed = listed_ids(statuses@);
                assert(listed.len() > 0 ==> seq![listed[0]] + listed.drop_first() == listed);
                let found: Vec<(String, i64)> = Vec::new();
                assert(entries(found@) == Seq::<(Seq<char>, i64)>::empty());
                ConsumerScan::advance(self.directory(), ids, 0, found)
            },
            Listing::NotFound => {
                let found: Vec<(String, i64)> = Vec::new();
                assert(entries(found@) == Seq::<(Seq<char>, i64)>::empty());
                ScanStep::Done(Ok(found))
            },
            Listing::Failed(error) => ScanStep::Done(Err(ConsumerError::Io(error))),
        }
    }
}

/// The file of a consumer is listed under that consumer.
pub proof fn law_consumer_file_is_listed(
    directory: Seq<char>,
    consumer_id: Seq<char>,
    status: FileStatus,
)
    requires
        !consumer_id.contains('/'),
        !status.is_dir,
        status.path@ == crate::consumer_manager::consumer_file(directory, consumer_id),
    ensures
        listed_id(status) == Some(consumer_id),
{
    crate::consumer_manager::law_consumer_file_lies_in_its_directory(directory, consumer_id);
    let name = CONSUMER_PREFIX@ + consumer_id;
    assert(CONSUMER_PREFIX@.is_prefix_of(name));
    assert(name.skip(CONSUMER_PREFIX@.len() as int) == consumer_id);
}

/// Every listed consumer id is a single file name, so that none is refused
/// when its progress is asked for.
pub proof fn law_listed_ids_are_file_names(statuses: Seq<FileStatus>, i: int)
    requires
        0 <= i < listed_ids(statuses).len(),
    ensures
        !listed_ids(statuses)[i].contains('/'),
    decreases statuses.len(),
{
    if statuses.len() > 0 {
        let before = listed_ids(statuses.drop_last());
        if i < before.len() {
            law_listed_ids_are_file_names(statuses.drop_last(), i);
        } else {
            let name = crate::text::last_component(statuses.last().path@);
            let id = listed_ids(statuses)[i];
            crate::text::lemma_last_component_is_one_name(statuses.last().path@);
            if id.contains('/') {
                let j = choose|j: int| 0 <= j < id.len() && id[j] == '/';
                assert(name[CONSUMER_PREFIX@.len() + j] == '/');
            }
        }
    }
}

/// Whether the attempts that came to `run` settle `answer` for a consumer,
/// and the last of them was needed.
pub open spec fn settles<E, P>(
    read: ReadView,
    run: Seq<ReadOutcome<E, P>>,
    answer: Answer<E, P>,
) -> bool {
    &&& run.len() > 0
    &&& read.answer(run.drop_last()) is None
    &&& read.answer(run) == Some(answer)
}

/// What a listing gives for the consumers `ids` with these answers: the
/// progress that was found, or the first failure.
pub open spec fn collected<E, P>(
    ids: Seq<Seq<char>>,
    answers: Seq<Answer<E, P>>,
    found: Entries,
) -> Result<Entries, Answer<E, P>>
    decreases ids.len(),
{
    if ids.len() == 0 {
        Ok(found)
    } else {
        match answers[0] {
            Answer::Found(next_snapshot) => collected(
                ids.drop_first(),
                answers.drop_first(),
                found.push((ids[0], next_snapshot)),
            ),
            Answer::Missing => collected(ids.drop_first(), answers.drop_first(), found),
            failure => Err(failure),
        }
    }
}

/// Reading the listed files one after the other, each until it is settled,
/// ends the listing with what the single answers give.
pub proof fn law_listing_collects_the_answers<E, P>(
    directory: Seq<char>,
    ids: Seq<Seq<char>>,
    runs: Seq<Seq<ReadOutcome<E, P>>>,
    answers: Seq<Answer<E, P>>,
)
    requires
        runs.len() == ids.len(),
        answers.len() == ids.len(),
        forall|i: int|
            0 <= i < ids.len() ==> settles(
                ReadView::start(directory, ids[i]),
                #[trigger] runs[i],
                answers[i],
            ),
    ensures
        advance::<E, P>(directory, ids, Seq::empty()).run(runs.flatten()) == ScanProgress::Done(
            collected(ids, answers, Seq::empty()),
        ),
{
    lemma_collect_from(directory, ids, runs, answers, Seq::empty());
}

proof fn lemma_collect_from<E, P>(
    directory: Seq<char>,
    ids: Seq<Seq<char>>,
    runs: Seq<Seq<ReadOutcome<E, P>>>,
    answers: Seq<Answer<E, P>>,
    found: Entries,
)
    requires
        runs.len() == ids.len(),
        answers.len() == ids.len(),
        forall|i: int|
            0 <= i < ids.len() ==> settles(
                ReadView::start(directory, ids[i]),
                #[trigger] runs[i],
                answers[i],
            ),
    ensures
        advance::<E, P>(directory, ids, found).run(runs.flatten()) == ScanProgress::Done(
            collected(ids, answers, found),
        ),
    decreases ids.len(),
{
    if ids.len() > 0 {
        let read = ReadView::start(directory, ids[0]);
        let scan = ScanView { directory, read, pending: ids.drop_first(), found };
        let later = runs.drop_first();
        assert(settles(read, runs[0], answers[0]));
        assert(runs.flatten() == runs[0] + later.flatten());
        lemma_run_one(scan, runs[0], later.flatten(), answers[0]);
        assert forall|i: int| 0 <= i < later.len() implies settles(
            ReadView::start(directory, ids.drop_first()[i]),
            #[trigger] later[i],
            answers.drop_first()[i],
        ) by {
            assert(later[i] == runs[i + 1]);
        }
        match answers[0] {
            Answer::Found(next_snapshot) => {
                lemma_collect_from(
                    directory,
                    ids.drop_first(),
                    later,
                    answers.drop_first(),
                    found.push((ids[0], next_snapshot)),
                );
            },
            Answer::Missing => {
                lemma_collect_from(directory, ids.drop_first(), later, answers.drop_first(), found);
            },
            failure => {},
        }
    }
}

/// Whether an answer ends a listing.
pub open spec fn is_failure<E, P>(answer: Answer<E, P>) -> bool {
    answer is Io || answer is DataInvalid
}

/// The first consumer whose progress cannot be told ends the listing with its
/// failure: the consumers after it are not read.
pub proof fn law_listing_stops_at_the_first_failure<E, P>(
    directory: Seq<char>,
    ids: Seq<Seq<char>>,
    runs: Seq<Seq<ReadOutcome<E, P>>>,
    answers: Seq<Answer<E, P>>,
)
    requires
        0 < runs.len() <= ids.len(),
        answers.len() == runs.len(),
        forall|i: int|
            0 <= i < runs.len() ==> settles(
                ReadView::start(directory, ids[i]),
                #[trigger] runs[i],
                answers[i],
            ),
        forall|i: int| 0 <= i < answers.len() - 1 ==> !is_failure(#[trigger] answers[i]),
        is_failure(answers.last()),
    ensures
        advance::<E, P>(directory, ids, Seq::empty()).run(runs.flatten()) == ScanProgress::<
            E,
            P,
        >::Done(Err(answers.last())),
{
    lemma_stop_from(directory, ids, runs, answers, Seq::empty());
}

proof fn lemma_stop_from<E, P>(
    directory: Seq<char>,
    ids: Seq<Seq<char>>,
    runs: Seq<Seq<ReadOutcome<E, P>>>,
    answers: Seq<Answer<E, P>>,
    found: Entries,
)
    requires
        0 < runs.len() <= ids.len(),
        answers.len() == runs.len(),
        forall|i: int|
            0 <= i < runs.len() ==> settles(
                ReadView::start(directory, ids[i]),
                #[trigger] runs[i],
                answers[i],
            ),
        forall|i: int| 0 <= i < answers.len() - 1 ==> !is_failure(#[trigger] answers[i]),
        is_failure(answers.last()),
    ensures
        advance::<E, P>(directory, ids, found).run(runs.flatten()) == ScanProgress::<E, P>::Done(
            Err(answers.last()),
        ),
    decreases runs.len(),
{
    let read = ReadView::start(directory, ids[0]);
    let scan = ScanView { directory, read, pending: ids.drop_first(), found };
    let later = runs.drop_first();
    assert(settles(read, runs[0], answers[0]));
    assert(runs.flatten() == runs[0] + later.flatten());
    lemma_run_one(scan, runs[0], later.flatten(), answers[0]);
    if runs.len() > 1 {
        let rest = answers.drop_first();
        assert(!is_failure(answers[0]));
        assert(rest.last() == answers.last());
        assert forall|i: int| 0 <= i < later.len() implies settles(
            ReadView::start(directory, ids.drop_first()[i]),
            #[trigger] later[i],
            rest[i],
        ) by {
            assert(later[i] == runs[i + 1]);
        }
        assert forall|i: int| 0 <= i < rest.len() - 1 implies !is_failure(#[trigger] rest[i]) by {
            assert(rest[i] == answers[i + 1]);
        }
        let grown = match answers[0] {
            Answer::Found(next_snapshot) => found.push((ids[0], next_snapshot)),
            _ => found,
        };
        lemma_stop_from(directory, ids.drop_first(), later, rest, grown);
    }
}

/// The attempts that settle the current consumer lead to its answer, with the
/// later attempts still to be taken.
proof fn lemma_run_one<E, P>(
    scan: ScanView,
    run: Seq<ReadOutcome<E, P>>,
    later: Seq<ReadOutcome<E, P>>,
    answer: Answer<E, P>,
)
    requires
        settles(scan.read, run, answer),
    ensures
        ScanProgress::Read(scan).run(run + later) == scan.answered(answer).run(later),
        ScanProgress::Retry(scan).run(run + later) == scan.answered(answer).run(later),
    decreases run.len(),
{
    assert((run + later)[0] == run[0]);
    assert((run + later).drop_first() == run.drop_first() + later);
    match scan.read.next(run[0]) {
        Progress::Retry(again) => {
            let next = ScanView { read: again, ..scan };
            let rest = run.drop_first();
            if rest.len() == 0 {
                assert(again.answer(rest) is None);
            } else {
                assert(run.drop_last()[0] == run[0]);
                assert(run.drop_last().drop_first() == rest.drop_last());
                lemma_run_one(next, rest, later, answer);
            }
        },
        Progress::Done(done) => {
            if run.len() > 1 {
                assert(run.drop_last()[0] == run[0]);
            }
            assert(run.drop_first() + later == later);
        },
    }
}

/// A listing without failures holds exactly the consumers whose progress was
/// found.
pub proof fn law_listing_holds_the_found_consumers<E, P>(
    ids: Seq<Seq<char>>,
    answers: Seq<Answer<E, P>>,
    list: Entries,
    entry: (Seq<char>, i64),
)
    requires
        answers.len() == ids.len(),
        collected(ids, answers, Seq::empty()) == Ok::<Entries, Answer<E, P>>(list),
    ensures
        list.contains(entry) <==> exists|i: int|
            0 <= i < ids.len() && #[trigger] ids[i] == entry.0 && answers[i] == Answer::<
                E,
                P,
            >::Found(entry.1),
{
    lemma_collected_holds(ids, answers, Seq::empty(), list, entry);
    assert(!Seq::<(Seq<char>, i64)>::empty().contains(entry));
}

proof fn lemma_collected_holds<E, P>(
    ids: Seq<Seq<char>>,
    answers: Seq<Answer<E, P>>,
    found: Entries,
    list: Entries,
    entry: (Seq<char>, i64),
)
    requires
        answers.len() == ids.len(),
        collected(ids, answers, found) == Ok::<Entries, Answer<E, P>>(list),
    ensures
        list.contains(entry) <==> found.contains(entry) || exists|i: int|
            0 <= i < ids.len() && #[trigger] ids[i] == entry.0 && answers[i] == Answer::<
                E,
                P,
            >::Found(entry.1),
    decreases ids.len(),
{
    if ids.len() > 0 {
        let rest = ids.drop_first();
        let rest_answers = answers.drop_first();
        let grown = match answers[0] {
            Answer::Found(next_snapshot) => found.push((ids[0], next_snapshot)),
            _ => found,
        };
        lemma_collected_holds(rest, rest_answers, grown, list, entry);
        let here = answers[0] == Answer::<E, P>::Found(entry.1) && ids[0] == entry.0;
        assert(grown.contains(entry) <==> found.contains(entry) || here) by {
            if grown.contains(entry) {
                let j = choose|j: int| 0 <= j < grown.len() && grown[j] == entry;
                assert(j < found.len() ==> found[j] == entry);
            }
            if found.contains(entry) {
                let j = choose|j: int| 0 <= j < found.len() && found[j] == entry;
                assert(grown[j] == entry);
            }
            if here {
                assert(grown[found.len() as int] == entry);
            }
        }
        let in_all = exists|i: int|
            0 <= i < ids.len() && #[trigger] ids[i] == entry.0 && answers[i] == Answer::<
                E,
                P,
            >::Found(entry.1);
        let in_rest = exists|i: int|
            0 <= i < rest.len() && #[trigger] rest[i] == entry.0 && rest_answers[i] == Answer::<
                E,
                P,
            >::Found(entry.1);
        if in_rest {
            let i = choose|i: int|
                0 <= i < rest.len() && #[trigger] rest[i] == entry.0 && rest_answers[i] == Answer::<
                    E,
                    P,
                >::Found(entry.1);
            assert(ids[i + 1] == entry.0);
        }
        if in_all && !here {
            let i = choose|i: int|
                0 <= i < ids.len() && #[trigger] ids[i] == entry.0 && answers[i] == Answer::<
                    E,
                    P,
                >::Found(entry.1);
            assert(rest[i - 1] == entry.0);
        }
    }
}

/// Whether entries of one consumer are equal.
pub open spec fn one_answer_per_id(list: Entries) -> bool {
    forall|i: int, j: int|
        0 <= i < list.len() && 0 <= j < list.len() && #[trigger] list[i].0 == #[trigger] list[j].0
            ==> list[i] == list[j]
}

/// Where no consumer was found with two different snapshot ids, the sorted
/// list is the only one.
pub proof fn law_sorted_listing_is_unique(list1: Entries, list2: Entries, found: Entries)
    requires
        sorted_listing(list1, found),
        sorted_listing(list2, found),
        one_answer_per_id(found),
    ensures
        list1 == list2,
{
    broadcast use vstd::seq_lib::group_to_multiset_ensures;

    assert forall|i: int, j: int|
        0 <= i < list1.len() && 0 <= j < list1.len() && #[trigger] list1[i].0
            == #[trigger] list1[j].0 implies list1[i] == list1[j] by {
        assert(list1.to_multiset().count(list1[i]) > 0);
        assert(list1.to_multiset().count(list1[j]) > 0);
        let p = choose|p: int| 0 <= p < found.len() && found[p] == list1[i];
        let q = choose|q: int| 0 <= q < found.len() && found[q] == list1[j];
        assert(found[p].0 == found[q].0);
    }
    lemma_sorted_equal(list1, list2);
}

proof fn lemma_sorted_equal(list1: Entries, list2: Entries)
    requires
        sorted_by_id(list1),
        sorted_by_id(list2),
        list1.to_multiset() == list2.to_multiset(),
        one_answer_per_id(list1),
    ensures
        list1 == list2,
    decreases list1.len(),
{
    broadcast use vstd::seq_lib::group_to_multiset_ensures;

    assert(list1.len() == list1.to_multiset().len());
    assert(list2.len() == list2.to_multiset().len());
    if list1.len() > 0 {
        let last = list1.len() - 1;
        let a = list1[last];
        let b = list2[last];
        assert(list1.to_multiset().count(b) > 0);
        assert(list2.to_multiset().count(a) > 0);
        let i = choose|i: int| 0 <= i < list1.len() && list1[i] == b;
        let j = choose|j: int| 0 <= j < list2.len() && list2[j] == a;
        crate::text::lemma_precedes_irreflexive(a.0);
        assert(!crate::text::precedes(a.0, b.0)) by {
            assert(i < last ==> !crate::text::precedes(list1[last].0, list1[i].0));
        }
        assert(!crate::text::precedes(b.0, a.0)) by {
            assert(j < last ==> !crate::text::precedes(list2[last].0, list2[j].0));
        }
        crate::text::lemma_precedes_total(a.0, b.0);
        assert(list1[i].0 == list1[last].0);
        let rest1 = list1.drop_last();
        let rest2 = list2.drop_last();
        assert(rest1 == list1.remove(last));
        assert(rest2 == list2.remove(last));
        lemma_sorted_equal(rest1, rest2);
        assert(list1 == rest1.push(a));
        assert(list2 == rest2.push(a));
    }
}

} // verus!

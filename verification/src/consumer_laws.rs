//! What reading and listing consumers gives back, told from what the
//! directory and the files hold.

use crate::consumer_list::{FileStatus, ScanProgress, ScanStep, ScanView};
use crate::consumer_manager::{Answer, ConsumerError, ReadOutcome, ReadStep, ReadView};
use vstd::prelude::*;
use vstd::string::*;

verus! {

/// A table keeps each consumer in one file of its `consumer` directory, and
/// each branch keeps its own below `branch/branch-` and the name.
pub proof fn law_where_consumer_files_lie(
    table_path: Seq<char>,
    branch_name: Seq<char>,
    consumer_id: Seq<char>,
)
    ensures
        crate::consumer_manager::consumer_directory(table_path) == table_path + "/consumer"@,
        crate::consumer_manager::branch_path(table_path, branch_name) == table_path
            + "/branch/branch-"@ + branch_name,
        crate::consumer_manager::consumer_file(
            crate::consumer_manager::consumer_directory(table_path),
            consumer_id,
        ) == table_path + "/consumer/consumer-"@ + consumer_id,
{
    reveal_strlit("/");
    reveal_strlit("consumer");
    reveal_strlit("consumer-");
    reveal_strlit("/consumer");
    reveal_strlit("/consumer/consumer-");
}

/// The file of a consumer in any directory.
pub proof fn law_consumer_file_name(directory: Seq<char>, consumer_id: Seq<char>)
    ensures
        crate::consumer_manager::consumer_file(directory, consumer_id) == directory
            + "/consumer-"@ + consumer_id,
{
    reveal_strlit("/");
    reveal_strlit("consumer-");
    reveal_strlit("/consumer-");
}

/// An attempt that reads a snapshot id answers with that id, whatever it is
/// and whichever attempt it was.
pub proof fn law_snapshot_read_is_the_answer<E, P>(
    read: ReadView,
    next_snapshot: i64,
    step: ReadStep<E, P>,
)
    requires
        step.progress() == read.next(ReadOutcome::<E, P>::Snapshot(next_snapshot)),
    ensures
        step == ReadStep::<E, P>::Done(Ok(Some(next_snapshot))),
{
}

/// A consumer is reported as missing just when its file was not found.
pub proof fn law_missing_means_not_found<E, P>(
    read: ReadView,
    outcome: ReadOutcome<E, P>,
    step: ReadStep<E, P>,
)
    requires
        step.progress() == read.next(outcome),
    ensures
        step == ReadStep::<E, P>::Done(Ok(None)) <==> outcome is NotFound,
{
}

/// A snapshot id that is reported was read.
pub proof fn law_reported_snapshot_was_read<E, P>(
    read: ReadView,
    outcome: ReadOutcome<E, P>,
    step: ReadStep<E, P>,
    next_snapshot: i64,
)
    requires
        step.progress() == read.next(outcome),
        step == ReadStep::<E, P>::Done(Ok(Some(next_snapshot))),
    ensures
        outcome == ReadOutcome::<E, P>::Snapshot(next_snapshot),
{
}

/// A failure of the storage is handed on at once, and no other failure is
/// taken for one.
pub proof fn law_storage_failure_is_handed_on<E, P>(
    read: ReadView,
    outcome: ReadOutcome<E, P>,
    step: ReadStep<E, P>,
    error: E,
)
    requires
        step.progress() == read.next(outcome),
    ensures
        step == ReadStep::<E, P>::Done(Err(ConsumerError::Io(error))) <==> outcome
            == ReadOutcome::<E, P>::Failed(error),
{
}

/// A file that does not parse is read again, the same file for the same
/// consumer, before the tenth attempt, and reported with its consumer and
/// error on the tenth. Nothing else is read again or so reported.
pub proof fn law_malformed_file_is_read_ten_times<E, P>(
    read: ReadView,
    outcome: ReadOutcome<E, P>,
    step: ReadStep<E, P>,
)
    requires
        step.progress() == read.next(outcome),
    ensures
        step is Retry <==> outcome is Malformed && read.attempt < 9,
        step matches ReadStep::Retry { read: again, delay_millis } ==> {
            &&& again@.consumer_id == read.consumer_id
            &&& again@.path == read.path
            &&& again@.attempt == read.attempt + 1
        },
        (step matches ReadStep::Done(Err(ConsumerError::DataInvalid { message, source })))
            <==> outcome is Malformed && read.attempt >= 9,
        outcome matches ReadOutcome::Malformed { error, text } ==> (step matches ReadStep::Done(
            Err(ConsumerError::DataInvalid { message, source }),
        ) ==> source == error && message@ == "consumer '"@ + read.consumer_id
            + "' JSON invalid: "@ + text@),
{
}

/// The outcomes of the attempts that answer one request: all but the last met
/// a malformed file, and the last met another outcome or was the tenth.
pub open spec fn answers_request<E, P>(outcomes: Seq<ReadOutcome<E, P>>) -> bool {
    &&& 1 <= outcomes.len() <= 10
    &&& forall|i: int| 0 <= i < outcomes.len() - 1 ==> (#[trigger] outcomes[i]) is Malformed
    &&& outcomes.last() is Malformed ==> outcomes.len() == 10
}

/// A request ends with what its last attempt read: earlier attempts that met
/// a file being overwritten leave no trace.
pub proof fn law_request_ends_with_the_last_attempt<E, P>(
    directory: Seq<char>,
    consumer_id: Seq<char>,
    outcomes: Seq<ReadOutcome<E, P>>,
)
    requires
        answers_request(outcomes),
    ensures
        ReadView::start(directory, consumer_id).answer(outcomes.drop_last()) is None,
        ReadView::start(directory, consumer_id).answer(outcomes) == Some(
            match outcomes.last() {
                ReadOutcome::Snapshot(next_snapshot) => Answer::<E, P>::Found(next_snapshot),
                ReadOutcome::NotFound => Answer::Missing,
                ReadOutcome::Failed(error) => Answer::Io(error),
                ReadOutcome::Malformed { error, text } => Answer::DataInvalid {
                    message: "consumer '"@ + consumer_id + "' JSON invalid: "@ + text@,
                    source: error,
                },
            },
        ),
{
    let k = outcomes.len() - 1;
    crate::consumer_manager::law_first_settling_attempt_answers(
        directory,
        consumer_id,
        outcomes,
        k,
    );
    crate::consumer_manager::law_attempts_are_bounded(directory, consumer_id, outcomes.drop_last());
}

/// An entry of the directory belongs to a consumer just when it is a file
/// whose name, after the last `/`, is `consumer-` and the id.
pub proof fn law_entry_belongs_to_its_consumer(status: FileStatus, consumer_id: Seq<char>)
    ensures
        crate::consumer_list::listed_id(status) == Some(consumer_id) <==> {
            &&& !status.is_dir
            &&& !consumer_id.contains('/')
            &&& status.path@ == "consumer-"@ + consumer_id || ("/consumer-"@
                + consumer_id).is_suffix_of(status.path@)
        },
{
    reveal_strlit("consumer-");
    reveal_strlit("/consumer-");
    let path = status.path@;
    let name = "consumer-"@ + consumer_id;
    let last = crate::text::last_component(path);
    crate::text::law_stripped_puts_together(last, "consumer-"@, consumer_id);
    crate::text::lemma_last_component_is_one_name(path);
    path.index_of_last_ensures('/');
    let with_slash = "/consumer-"@ + consumer_id;
    assert(with_slash == seq!['/'] + name) by {
        assert("/consumer-"@ =~= seq!['/'] + "consumer-"@);
    }
    if crate::consumer_list::listed_id(status) == Some(consumer_id) {
        assert(last == name);
        if consumer_id.contains('/') {
            let i = choose|i: int| 0 <= i < consumer_id.len() && consumer_id[i] == '/';
            assert(name["consumer-"@.len() + i] == '/');
        }
        if path.contains('/') {
            let slash = path.index_of_last('/').unwrap();
            assert(path.skip(slash) == seq!['/'] + path.skip(slash + 1));
            assert(path.skip(slash) == path.subrange(slash, path.len() as int));
            assert(with_slash.is_suffix_of(path));
        }
    }
    if !consumer_id.contains('/') {
        assert(!name.contains('/')) by {
            if name.contains('/') {
                let i = choose|i: int| 0 <= i < name.len() && name[i] == '/';
                assert(consumer_id[i - "consumer-"@.len()] == '/');
            }
        }
        if with_slash.is_suffix_of(path) {
            let before = path.take(path.len() - with_slash.len());
            assert(path == before + with_slash);
            assert(before + with_slash == before + seq!['/'] + name);
            crate::text::lemma_last_component(before, name);
        } else if path == name {
            crate::text::law_last_component_of_one_name(path);
        }
    }
}

/// Every entry that belongs to a consumer is read, in the order of the
/// directory and however long it is, and nothing else is.
pub proof fn law_every_consumer_file_is_listed(statuses: Seq<FileStatus>)
    ensures
        crate::consumer_list::listed_ids(statuses) == statuses.filter(
            |status: FileStatus| crate::consumer_list::listed_id(status) is Some,
        ).map_values(|status: FileStatus| crate::consumer_list::listed_id(status).unwrap()),
    decreases statuses.len(),
{
    reveal(Seq::filter);
    if statuses.len() > 0 {
        law_every_consumer_file_is_listed(statuses.drop_last());
    }
    assert(crate::consumer_list::listed_ids(statuses) =~= statuses.filter(
        |status: FileStatus| crate::consumer_list::listed_id(status) is Some,
    ).map_values(|status: FileStatus| crate::consumer_list::listed_id(status).unwrap()));
}

/// A consumer is among those read just when some entry belongs to it.
pub proof fn law_listed_just_when_it_has_a_file(
    statuses: Seq<FileStatus>,
    consumer_id: Seq<char>,
)
    ensures
        crate::consumer_list::listed_ids(statuses).contains(consumer_id) <==> exists|k: int|
            0 <= k < statuses.len() && crate::consumer_list::listed_id(#[trigger] statuses[k])
                == Some(consumer_id),
    decreases statuses.len(),
{
    if statuses.len() > 0 {
        let rest = statuses.drop_last();
        let before = crate::consumer_list::listed_ids(rest);
        let all = crate::consumer_list::listed_ids(statuses);
        law_listed_just_when_it_has_a_file(rest, consumer_id);
        if all.contains(consumer_id) {
            let i = choose|i: int| 0 <= i < all.len() && all[i] == consumer_id;
            if i < before.len() {
                assert(before[i] == consumer_id);
                let k = choose|k: int|
                    0 <= k < rest.len() && crate::consumer_list::listed_id(#[trigger] rest[k])
                        == Some(consumer_id);
                assert(statuses[k] == rest[k]);
            } else {
                assert(statuses[statuses.len() - 1] == statuses.last());
            }
        }
        if exists|k: int|
            0 <= k < statuses.len() && crate::consumer_list::listed_id(#[trigger] statuses[k])
                == Some(consumer_id) {
            let k = choose|k: int|
                0 <= k < statuses.len() && crate::consumer_list::listed_id(#[trigger] statuses[k])
                    == Some(consumer_id);
            if k < rest.len() {
                assert(rest[k] == statuses[k]);
                let i = choose|i: int| 0 <= i < before.len() && before[i] == consumer_id;
                assert(all[i] == consumer_id);
            } else {
                assert(all[all.len() - 1] == consumer_id);
            }
        }
    }
}

/// The consumers of two listings put together are those of the first and
/// those of the second.
pub proof fn law_listings_put_together(first: Seq<FileStatus>, second: Seq<FileStatus>)
    ensures
        crate::consumer_list::listed_ids(first + second) == crate::consumer_list::listed_ids(first)
            + crate::consumer_list::listed_ids(second),
    decreases second.len(),
{
    if second.len() == 0 {
        assert(first + second == first);
        assert(crate::consumer_list::listed_ids(first + second)
            == crate::consumer_list::listed_ids(first) + crate::consumer_list::listed_ids(second));
    } else {
        assert((first + second).drop_last() == first + second.drop_last());
        law_listings_put_together(first, second.drop_last());
        assert(crate::consumer_list::listed_ids(first + second)
            == crate::consumer_list::listed_ids(first) + crate::consumer_list::listed_ids(second));
    }
}

/// A list that ends a listing holds each consumer as often as it was found,
/// with the snapshot id it was found with, and none before one that is to
/// come first.
pub proof fn law_list_holds_what_was_found<E, P>(
    step: ScanStep<E, P>,
    found: Seq<(Seq<char>, i64)>,
)
    requires
        step.follows(ScanProgress::Done(Ok(found))),
    ensures
        step matches ScanStep::Done(Ok(list)) && {
            &&& list@.len() == found.len()
            &&& Seq::new(list@.len(), |i: int| (list@[i].0@, list@[i].1)).to_multiset()
                == found.to_multiset()
            &&& forall|i: int, j: int|
                0 <= i < j < list@.len() ==> !crate::text::precedes(
                    (#[trigger] list@[j]).0@,
                    (#[trigger] list@[i]).0@,
                )
        },
{
    broadcast use vstd::seq_lib::group_to_multiset_ensures;

    match step {
        ScanStep::Done(Ok(list)) => {
            let texts = Seq::new(list@.len(), |i: int| (list@[i].0@, list@[i].1));
            assert(crate::consumer_list::entries(list@) == texts);
            assert(texts.len() == texts.to_multiset().len());
            assert(found.len() == found.to_multiset().len());
            assert forall|i: int, j: int| 0 <= i < j < list@.len() implies !crate::text::precedes(
                (#[trigger] list@[j]).0@,
                (#[trigger] list@[i]).0@,
            ) by {
                assert(texts[j].0 == list@[j].0@);
                assert(texts[i].0 == list@[i].0@);
            }
        },
        _ => {},
    }
}

/// A listing that fails hands on the failure.
pub proof fn law_failed_listing_hands_on_the_failure<E, P>(
    step: ScanStep<E, P>,
    failure: Answer<E, P>,
)
    requires
        step.follows(ScanProgress::Done(Err(failure))),
    ensures
        match failure {
            Answer::Io(error) => step == ScanStep::<E, P>::Done(Err(ConsumerError::Io(error))),
            Answer::DataInvalid { message, source } => {
                step matches ScanStep::Done(Err(ConsumerError::DataInvalid { message: m, source: s }))
                    && m@ == message && s == source
            },
            _ => false,
        },
{
}

/// A listing goes on with the file of the first consumer that is left, keeps
/// the others and what was found, and ends when none is left.
pub proof fn law_listing_goes_on_with_the_next_consumer<E, P>(
    directory: Seq<char>,
    pending: Seq<Seq<char>>,
    found: Seq<(Seq<char>, i64)>,
    step: ScanStep<E, P>,
)
    requires
        step.follows(crate::consumer_list::advance(directory, pending, found)),
    ensures
        pending.len() > 0 ==> (step matches ScanStep::Read { scan } && {
            &&& scan@.read.path == directory + "/consumer-"@ + pending[0]
            &&& scan@.read.consumer_id == pending[0]
            &&& scan@.read.attempt == 0
            &&& scan@.directory == directory
            &&& scan@.pending == pending.skip(1)
            &&& scan@.found == found
        }),
        pending.len() == 0 ==> step.follows(ScanProgress::Done(Ok(found))),
{
    if pending.len() > 0 {
        law_consumer_file_name(directory, pending[0]);
        assert(pending.drop_first() == pending.skip(1));
    }
}

/// A consumer whose snapshot id was read joins what was found, one whose file
/// is gone does not, and the listing goes on after either.
pub proof fn law_read_consumer_joins_the_list<E, P>(
    scan: ScanView,
    outcome: ReadOutcome<E, P>,
    step: ScanStep<E, P>,
)
    requires
        step.follows(scan.next(outcome)),
    ensures
        outcome matches ReadOutcome::Snapshot(next_snapshot) ==> step.follows(
            crate::consumer_list::advance(
                scan.directory,
                scan.pending,
                scan.found.push((scan.read.consumer_id, next_snapshot)),
            ),
        ),
        outcome is NotFound ==> step.follows(
            crate::consumer_list::advance(scan.directory, scan.pending, scan.found),
        ),
        outcome matches ReadOutcome::Failed(error) ==> step == ScanStep::<E, P>::Done(
            Err(ConsumerError::Io(error)),
        ),
{
}

/// A listing reads a malformed file again, with nothing else changed, before
/// the tenth attempt, and ends with its error on the tenth.
pub proof fn law_listing_reads_a_malformed_file_again<E, P>(
    scan: ScanView,
    error: P,
    text: String,
    step: ScanStep<E, P>,
)
    requires
        step.follows(scan.next(ReadOutcome::<E, P>::Malformed { error, text })),
    ensures
        scan.read.attempt < 9 ==> (step matches ScanStep::Retry { scan: again, delay_millis } && {
            &&& delay_millis == 200
            &&& again@.read.path == scan.read.path
            &&& again@.read.consumer_id == scan.read.consumer_id
            &&& again@.read.attempt == scan.read.attempt + 1
            &&& again@.directory == scan.directory
            &&& again@.pending == scan.pending
            &&& again@.found == scan.found
        }),
        scan.read.attempt >= 9 ==> (step matches ScanStep::Done(
            Err(ConsumerError::DataInvalid { message, source }),
        ) && source == error && message@ == "consumer '"@ + scan.read.consumer_id
            + "' JSON invalid: "@ + text@),
{
}

/// The consumers whose last attempt read a snapshot id, with that id, in
/// order.
pub open spec fn snapshots_read<E, P>(
    ids: Seq<Seq<char>>,
    runs: Seq<Seq<ReadOutcome<E, P>>>,
) -> Seq<(Seq<char>, i64)> {
    Seq::new(ids.len(), |i: int| (ids[i], runs[i].last())).filter(
        |read: (Seq<char>, ReadOutcome<E, P>)| read.1 is Snapshot,
    ).map_values(|read: (Seq<char>, ReadOutcome<E, P>)| (read.0, read.1->Snapshot_0))
}

/// A listing whose consumers all have a snapshot id or are gone finds every
/// snapshot id that was read, each for its consumer and in order, however
/// many there are.
pub proof fn law_listing_finds_every_snapshot<E, P>(
    directory: Seq<char>,
    ids: Seq<Seq<char>>,
    runs: Seq<Seq<ReadOutcome<E, P>>>,
)
    requires
        runs.len() == ids.len(),
        forall|i: int|
            0 <= i < runs.len() ==> answers_request(#[trigger] runs[i]) && (runs[i].last()
                is Snapshot || runs[i].last() is NotFound),
    ensures
        crate::consumer_list::advance::<E, P>(directory, ids, Seq::empty()).run(runs.flatten())
            == ScanProgress::<E, P>::Done(Ok(snapshots_read(ids, runs))),
{
    let answers = Seq::new(
        ids.len(),
        |i: int|
            match runs[i].last() {
                ReadOutcome::Snapshot(next_snapshot) => Answer::<E, P>::Found(next_snapshot),
                _ => Answer::Missing,
            },
    );
    assert forall|i: int| 0 <= i < ids.len() implies crate::consumer_list::settles(
        ReadView::start(directory, ids[i]),
        #[trigger] runs[i],
        answers[i],
    ) by {
        law_request_ends_with_the_last_attempt(directory, ids[i], runs[i]);
    }
    crate::consumer_list::law_listing_collects_the_answers(directory, ids, runs, answers);
    lemma_collects_the_snapshots(ids, runs, answers, Seq::empty());
    assert(Seq::<(Seq<char>, i64)>::empty() + snapshots_read(ids, runs) == snapshots_read(
        ids,
        runs,
    ));
}

proof fn lemma_collects_the_snapshots<E, P>(
    ids: Seq<Seq<char>>,
    runs: Seq<Seq<ReadOutcome<E, P>>>,
    answers: Seq<Answer<E, P>>,
    found: Seq<(Seq<char>, i64)>,
)
    requires
        runs.len() == ids.len(),
        answers.len() == ids.len(),
        forall|i: int|
            0 <= i < ids.len() ==> #[trigger] answers[i] == match runs[i].last() {
                ReadOutcome::Snapshot(next_snapshot) => Answer::<E, P>::Found(next_snapshot),
                _ => Answer::Missing,
            },
    ensures
        crate::consumer_list::collected(ids, answers, found) == Ok::<
            Seq<(Seq<char>, i64)>,
            Answer<E, P>,
        >(found + snapshots_read(ids, runs)),
    decreases ids.len(),
{
    let is_read = |read: (Seq<char>, ReadOutcome<E, P>)| read.1 is Snapshot;
    let entry = |read: (Seq<char>, ReadOutcome<E, P>)| (read.0, read.1->Snapshot_0);
    let all = Seq::new(ids.len(), |i: int| (ids[i], runs[i].last()));
    assert(snapshots_read(ids, runs) == all.filter(is_read).map_values(entry));
    reveal(Seq::filter);
    if ids.len() == 0 {
        assert(all.filter(is_read) == Seq::<(Seq<char>, ReadOutcome<E, P>)>::empty());
        assert(found + snapshots_read(ids, runs) == found);
    } else {
        let head = seq![all[0]];
        let tail = all.drop_first();
        let ids2 = ids.drop_first();
        let runs2 = runs.drop_first();
        assert(all == head + tail);
        assert(tail == Seq::new(ids2.len(), |i: int| (ids2[i], runs2[i].last())));
        Seq::filter_distributes_over_add(head, tail, is_read);
        assert(head.drop_last() == Seq::<(Seq<char>, ReadOutcome<E, P>)>::empty());
        assert(head.filter(is_read) == if is_read(all[0]) {
            head
        } else {
            Seq::empty()
        }) by {
            assert(head.drop_last().filter(is_read) == Seq::<
                (Seq<char>, ReadOutcome<E, P>),
            >::empty());
        }
        let grown = match answers[0] {
            Answer::Found(next_snapshot) => found.push((ids[0], next_snapshot)),
            _ => found,
        };
        lemma_collects_the_snapshots(ids2, runs2, answers.drop_first(), grown);
        assert(snapshots_read(ids2, runs2) == tail.filter(is_read).map_values(entry));
        assert(found + snapshots_read(ids, runs) == grown + snapshots_read(ids2, runs2));
    }
}

/// A listing ends with the failure of the first consumer whose progress could
/// not be told: that of the storage, or the file that stayed malformed.
pub proof fn law_listing_ends_with_the_first_failure<E, P>(
    directory: Seq<char>,
    ids: Seq<Seq<char>>,
    runs: Seq<Seq<ReadOutcome<E, P>>>,
)
    requires
        0 < runs.len() <= ids.len(),
        forall|i: int| 0 <= i < runs.len() ==> answers_request(#[trigger] runs[i]),
        forall|i: int|
            0 <= i < runs.len() - 1 ==> (#[trigger] runs[i]).last() is Snapshot || runs[i].last()
                is NotFound,
        runs.last().last() is Failed || runs.last().last() is Malformed,
    ensures
        crate::consumer_list::advance::<E, P>(directory, ids, Seq::empty()).run(runs.flatten())
            == ScanProgress::<E, P>::Done(
            Err(
                match runs.last().last() {
                    ReadOutcome::Failed(error) => Answer::Io(error),
                    ReadOutcome::Malformed { error, text } => Answer::DataInvalid {
                        message: "consumer '"@ + ids[runs.len() - 1] + "' JSON invalid: "@ + text@,
                        source: error,
                    },
                    _ => Answer::Missing,
                },
            ),
        ),
{
    let answers = Seq::new(
        runs.len(),
        |i: int|
            match runs[i].last() {
                ReadOutcome::Snapshot(next_snapshot) => Answer::<E, P>::Found(next_snapshot),
                ReadOutcome::NotFound => Answer::Missing,
                ReadOutcome::Failed(error) => Answer::Io(error),
                ReadOutcome::Malformed { error, text } => Answer::DataInvalid {
                    message: "consumer '"@ + ids[i] + "' JSON invalid: "@ + text@,
                    source: error,
                },
            },
    );
    assert forall|i: int| 0 <= i < runs.len() implies crate::consumer_list::settles(
        ReadView::start(directory, ids[i]),
        #[trigger] runs[i],
        answers[i],
    ) by {
        law_request_ends_with_the_last_attempt(directory, ids[i], runs[i]);
    }
    assert forall|i: int| 0 <= i < answers.len() - 1 implies !crate::consumer_list::is_failure(
        #[trigger] answers[i],
    ) by {
        assert(runs[i].last() is Snapshot || runs[i].last() is NotFound);
    }
    crate::consumer_list::law_listing_stops_at_the_first_failure(directory, ids, runs, answers);
}

} // verus!

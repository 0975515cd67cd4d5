//! Exporting icons by name: which file each requested name goes to, and
//! the report that holds one result for every requested name, whatever
//! became of the others.

use crate::catalog::{
    answered, first_answering, lemma_answered, lemma_answers_for_itself,
    lemma_first_answering_unique, position_of,
};
use crate::error::{error_text, ErrorKind, ErrorModel, IconError};
use crate::catalog::Backend;
use crate::names::{answers_to, icon_extension};
use crate::record::{ascending, names_of, IconRecord, RecordModel};
use crate::text::{chars_end_with, ends_with, to_chars};
use vstd::prelude::*;
use vstd::string::*;

verus! {

/// What became of one requested name.
#[derive(Clone, Debug, PartialEq, Eq)]
pub enum ExportResult {
    /// The icon was written: so many bytes, to this path.
    Success { bytes_written: u64, path: String },
    /// The icon was not written: the kind of failure and its message.
    Failure { kind: ErrorKind, message: String },
}

/// The model of an [`ExportResult`].
pub enum ResultModel {
    Success { bytes_written: u64, path: Seq<char> },
    Failure { kind: ErrorKind, message: Seq<char> },
}

impl View for ExportResult {
    type V = ResultModel;

    open spec fn view(&self) -> ResultModel {
        match self {
            ExportResult::Success { bytes_written, path } => ResultModel::Success {
                bytes_written: *bytes_written,
                path: path@,
            },
            ExportResult::Failure { kind, message } => ResultModel::Failure {
                kind: *kind,
                message: message@,
            },
        }
    }
}

/// A requested name with what became of it.
#[derive(Clone, Debug, PartialEq, Eq)]
pub struct NamedResult {
    pub name: String,
    pub result: ExportResult,
}

/// The model of a [`NamedResult`].
pub struct NamedModel {
    pub name: Seq<char>,
    pub result: ResultModel,
}

impl View for NamedResult {
    type V = NamedModel;

    open spec fn view(&self) -> NamedModel {
        NamedModel { name: self.name@, result: self.result@ }
    }
}

impl DeepView for NamedResult {
    type V = NamedModel;

    open spec fn deep_view(&self) -> NamedModel {
        self@
    }
}

/// One icon to write: the name that was requested, the record that answers
/// to it, and the path of the file to write.
#[derive(Clone, Debug, PartialEq, Eq)]
pub struct ExportTask {
    pub name: String,
    pub record: IconRecord,
    pub destination: String,
}

/// The model of an [`ExportTask`].
pub struct TaskModel {
    pub name: Seq<char>,
    pub record: RecordModel,
    pub destination: Seq<char>,
}

impl View for ExportTask {
    type V = TaskModel;

    open spec fn view(&self) -> TaskModel {
        TaskModel { name: self.name@, record: self.record@, destination: self.destination@ }
    }
}

impl DeepView for ExportTask {
    type V = TaskModel;

    open spec fn deep_view(&self) -> TaskModel {
        self@
    }
}

/// The path of `file` in the directory `dir`: the two joined by one `/`,
/// which is left out where `dir` is empty or ends in one.
pub open spec fn joined(dir: Seq<char>, file: Seq<char>) -> Seq<char> {
    if dir.len() == 0 || ends_with(dir, seq!['/']) {
        dir + file
    } else {
        dir + seq!['/'] + file
    }
}

/// The name of the file that an icon is written to: with the local
/// backends the record's name followed by the extension, always; with the
/// remote backend, whose names keep the extension, the name as it is.
pub open spec fn stored_as(backend: Backend, name: Seq<char>) -> Seq<char> {
    if backend == Backend::RemoteApi {
        name
    } else {
        name + icon_extension()
    }
}

/// The task for a requested name: the record that answers the request goes
/// to the file of its name in `dir`. No task where no record answers.
pub open spec fn task_for(
    records: Seq<RecordModel>,
    name: Seq<char>,
    dir: Seq<char>,
    backend: Backend,
) -> Option<TaskModel> {
    if answered(records, name) {
        let at = choose|at: int| first_answering(records, name, at);
        Some(
            TaskModel {
                name,
                record: records[at],
                destination: joined(dir, stored_as(backend, records[at].name)),
            },
        )
    } else {
        None
    }
}

/// The tasks for the requested names, one place for each name.
pub open spec fn planned(
    records: Seq<RecordModel>,
    names: Seq<Seq<char>>,
    dir: Seq<char>,
    backend: Backend,
) -> Seq<Option<TaskModel>> {
    Seq::new(names.len(), |i: int| task_for(records, names[i], dir, backend))
}

/// The result of a name to which no record answers.
pub open spec fn not_found(name: Seq<char>) -> NamedModel {
    NamedModel {
        name,
        result: ResultModel::Failure { kind: ErrorKind::IconNotFound, message: name },
    }
}

/// The result of a task whose attempt ended in `outcome`: a success with
/// the bytes written and the task's destination, or the failure's kind and
/// detail.
pub open spec fn attempted(task: TaskModel, outcome: Result<u64, ErrorModel>) -> NamedModel {
    NamedModel {
        name: task.name,
        result: match outcome {
            Ok(bytes_written) => ResultModel::Success { bytes_written, path: task.destination },
            Err(error) => ResultModel::Failure { kind: error.kind, message: error.detail },
        },
    }
}

/// The model of an outcome handed to [`ExportBatch::settle`].
pub open spec fn outcome_model(outcome: Result<u64, IconError>) -> Result<u64, ErrorModel> {
    match outcome {
        Ok(bytes_written) => Ok(bytes_written),
        Err(error) => Err(error@),
    }
}

/// The results of the names from `from` on that have no task, up to the
/// first that has one.
pub open spec fn unanswered_run(
    names: Seq<Seq<char>>,
    tasks: Seq<Option<TaskModel>>,
    from: int,
) -> Seq<NamedModel>
    decreases tasks.len() - from,
{
    if 0 <= from < tasks.len() && from < names.len() && tasks[from] is None {
        seq![not_found(names[from])] + unanswered_run(names, tasks, from + 1)
    } else {
        Seq::empty()
    }
}

/// The model of an [`ExportBatch`]: the requested names, the task of each
/// that has one, and the results settled so far.
pub struct BatchModel {
    pub names: Seq<Seq<char>>,
    pub tasks: Seq<Option<TaskModel>>,
    pub results: Seq<NamedModel>,
}

/// Result `i` fits its place: it bears the name requested there, and is
/// the failure to find it where the name has no task, else the result of
/// some attempt at its task.
pub open spec fn fits(batch: BatchModel, i: int) -> bool {
    &&& batch.results[i].name == batch.names[i]
    &&& match batch.tasks[i] {
        Some(task) => exists|outcome: Result<u64, ErrorModel>|
            batch.results[i] == attempted(task, outcome),
        None => batch.results[i] == not_found(batch.names[i]),
    }
}

/// A batch in order: every name has its place among the tasks, a task
/// bears the name of its place, and the results are those of the first
/// names, each fitting its place.
pub open spec fn in_order(batch: BatchModel) -> bool {
    &&& batch.tasks.len() == batch.names.len()
    &&& batch.results.len() <= batch.names.len()
    &&& forall|i: int|
        0 <= i < batch.names.len() ==> (#[trigger] batch.tasks[i] matches Some(task)
            ==> task.name == batch.names[i])
    &&& forall|i: int| 0 <= i < batch.results.len() ==> #[trigger] fits(batch, i)
}

/// The batch is not finished, and `task` is that of the first name without
/// a result.
pub open spec fn awaits(batch: BatchModel, task: TaskModel) -> bool {
    !finished(batch) && batch.tasks[batch.results.len() as int] == Some(task)
}

/// Every requested name has its result.
pub open spec fn finished(batch: BatchModel) -> bool {
    batch.results.len() == batch.names.len()
}

/// A finished batch holds one result for each requested name, in the order
/// of the request. A name to which no record answers has the failure
/// `IconNotFound`; every other name has the result of its own attempt,
/// whatever became of the names around it.
pub proof fn lemma_one_result_each(
    records: Seq<RecordModel>,
    dir: Seq<char>,
    backend: Backend,
    batch: BatchModel,
    i: int,
)
    requires
        in_order(batch),
        finished(batch),
        batch.tasks == planned(records, batch.names, dir, backend),
        0 <= i < batch.names.len(),
    ensures
        batch.results.len() == batch.names.len(),
        batch.results[i].name == batch.names[i],
        !answered(records, batch.names[i]) ==> batch.results[i].result == (ResultModel::Failure {
            kind: ErrorKind::IconNotFound,
            message: batch.names[i],
        }),
        answered(records, batch.names[i]) ==> exists|outcome: Result<u64, ErrorModel>|
            batch.results[i] == attempted(
                task_for(records, batch.names[i], dir, backend).unwrap(),
                outcome,
            ),
{
    assert(fits(batch, i));
    if answered(records, batch.names[i]) {
        let task = batch.tasks[i]->Some_0;
        let outcome = choose|outcome: Result<u64, ErrorModel>|
            batch.results[i] == attempted(task, outcome);
        assert(batch.results[i] == attempted(task, outcome));
    }
}

/// The export of all names of an ascending listing plans, for every
/// record, the task that takes that very record to the file of its name:
/// no record is left out, and none is taken twice.
pub proof fn lemma_every_record_planned(
    records: Seq<RecordModel>,
    dir: Seq<char>,
    backend: Backend,
    i: int,
)
    requires
        ascending(records),
        0 <= i < records.len(),
    ensures
        planned(records, names_of(records), dir, backend)[i] == Some(
            TaskModel {
                name: records[i].name,
                record: records[i],
                destination: joined(dir, stored_as(backend, records[i].name)),
            },
        ),
{
    let name = records[i].name;
    lemma_answers_for_itself(records, i);
    lemma_answered(records, name);
    let at = choose|at: int| first_answering(records, name, at);
    lemma_first_answering_unique(records, name, at, i);
}

/// A batch stays in order when the next name gets its result: the failure
/// to find it where it has no task, else the result of an attempt at its
/// task.
pub proof fn lemma_settled_in_order(before: BatchModel, entry: NamedModel, after: BatchModel)
    requires
        in_order(before),
        !finished(before),
        after.names == before.names,
        after.tasks == before.tasks,
        after.results == before.results.push(entry),
        match before.tasks[before.results.len() as int] {
            Some(task) => exists|outcome: Result<u64, ErrorModel>|
                entry == attempted(task, outcome),
            None => entry == not_found(before.names[before.results.len() as int]),
        },
    ensures
        in_order(after),
{
    let at = before.results.len() as int;
    assert forall|i: int| 0 <= i < after.results.len() implies #[trigger] fits(after, i) by {
        if i < at {
            assert(fits(before, i));
            assert(after.results[i] == before.results[i]);
            if before.tasks[i] is Some {
                let task = before.tasks[i]->Some_0;
                let outcome = choose|outcome: Result<u64, ErrorModel>|
                    before.results[i] == attempted(task, outcome);
                assert(after.results[i] == attempted(task, outcome));
            }
        } else {
            assert(after.results[i] == entry);
            if before.tasks[at] is Some {
                let task = before.tasks[at]->Some_0;
                assert(task.name == before.names[at]);
                let outcome = choose|outcome: Result<u64, ErrorModel>|
                    entry == attempted(task, outcome);
                assert(after.results[i] == attempted(task, outcome));
            }
        }
    }
}

/// The path of `file` in the directory `dir`.
pub fn join_path(dir: &str, file: &str) -> (r: String)
    ensures
        r@ == joined(dir@, file@),
{
    let chars = to_chars(dir);
    let mut slash: Vec<char> = Vec::new();
    slash.push('/');
    assert(slash@ == seq!['/']);
    let mut r = String::from_str(dir);
    if chars.len() > 0 && !chars_end_with(chars.as_slice(), slash.as_slice()) {
        proof {
            reveal_strlit("/");
            assert("/"@ == seq!['/']);
        }
        r.append("/");
    }
    r.append(file);
    r
}

/// The name of the file that an icon of this name is written to.
pub fn stored_file_name(backend: Backend, name: &str) -> (r: String)
    ensures
        r@ == stored_as(backend, name@),
{
    match backend {
        Backend::RemoteApi => String::from_str(name),
        _ => {
            proof {
                reveal_strlit(".svg");
                assert(".svg"@ == icon_extension());
            }
            String::from_str(name).concat(".svg")
        },
    }
}

/// The task for the requested name: the record that answers the request,
/// and the file of its name in `dir`; `None` where no record answers.
pub fn plan_task(records: &Vec<IconRecord>, name: &str, dir: &str, backend: Backend) -> (r: Option<
    ExportTask,
>)
    ensures
        r.deep_view() == task_for(records.deep_view(), name@, dir@, backend),
{
    match position_of(records, name) {
        None => None,
        Some(at) => {
            proof {
                let all = records.deep_view();
                assert(answers_to(all[at as int].name, name@));
                let first = choose|first: int| first_answering(all, name@, first);
                lemma_first_answering_unique(all, name@, first, at as int);
            }
            let record = records[at].duplicate();
            let file = stored_file_name(backend, record.name.as_str());
            let destination = join_path(dir, file.as_str());
            Some(ExportTask { name: String::from_str(name), record, destination })
        },
    }
}

/// The exporting of a list of requested names, one after the other. It
/// hands out the task of each name that has one, takes the outcome of the
/// attempt, and goes on to the next name whatever the outcome was.
pub struct ExportBatch {
    names: Vec<String>,
    tasks: Vec<Option<ExportTask>>,
    results: Vec<NamedResult>,
}

impl View for ExportBatch {
    type V = BatchModel;

    closed spec fn view(&self) -> BatchModel {
        BatchModel {
            names: self.names.deep_view(),
            tasks: self.tasks.deep_view(),
            results: self.results.deep_view(),
        }
    }
}

impl ExportBatch {
    /// The batch that exports the requested names from these records of a
    /// backend into the directory `dir`. Nothing is settled yet.
    pub fn new(
        records: &Vec<IconRecord>,
        names: &Vec<String>,
        dir: &str,
        backend: Backend,
    ) -> (batch: ExportBatch)
        ensures
            in_order(batch@),
            batch@.names == names.deep_view(),
            batch@.tasks == planned(records.deep_view(), names.deep_view(), dir@, backend),
            batch@.results == Seq::<NamedModel>::empty(),
    {
        let mut kept: Vec<String> = Vec::new();
        let mut tasks: Vec<Option<ExportTask>> = Vec::new();
        let ghost plan = planned(records.deep_view(), names.deep_view(), dir@, backend);
        let mut i: usize = 0;
        while i < names.len()
            invariant
                i <= names.len(),
                plan == planned(records.deep_view(), names.deep_view(), dir@, backend),
                kept.deep_view() == names.deep_view().take(i as int),
                tasks.deep_view() == plan.take(i as int),
            decreases names.len() - i,
        {
            let ghost kept_before = kept.deep_view();
            let ghost tasks_before = tasks.deep_view();
            let task = plan_task(records, names[i].as_str(), dir, backend);
            assert(names.deep_view()[i as int] == names@[i as int]@);
            assert(task.deep_view() == plan[i as int]);
            kept.push(names[i].clone());
            tasks.push(task);
            proof {
                assert(kept.deep_view() =~= kept_before.push(names.deep_view()[i as int]));
                assert(names.deep_view().take(i + 1) =~= names.deep_view().take(i as int).push(
                    names.deep_view()[i as int],
                ));
                assert(tasks.deep_view() =~= tasks_before.push(plan[i as int]));
                assert(plan.take(i + 1) =~= plan.take(i as int).push(plan[i as int]));
            }
            i = i + 1;
        }
        let results: Vec<NamedResult> = Vec::new();
        proof {
            assert(names.deep_view().take(names.len() as int) =~= names.deep_view());
            assert(plan.take(names.len() as int) =~= plan);
            assert(results.deep_view() =~= Seq::<NamedModel>::empty());
        }
        ExportBatch { names: kept, tasks, results }
    }

    /// Whether every requested name has its result.
    pub fn is_finished(&self) -> (r: bool)
        ensures
            r == finished(self@),
    {
        self.results.len() == self.names.len()
    }

    /// The task to attempt now: that of the first name without a result
    /// that has a task. Names without a task that come before it are
    /// settled with the failure to find them. `None` where no task is left:
    /// the batch is then finished.
    pub fn next_task(&mut self) -> (r: Option<ExportTask>)
        requires
            in_order(old(self)@),
        ensures
            in_order(final(self)@),
            final(self)@.names == old(self)@.names,
            final(self)@.tasks == old(self)@.tasks,
            final(self)@.results == old(self)@.results + unanswered_run(
                old(self)@.names,
                old(self)@.tasks,
                old(self)@.results.len() as int,
            ),
            match r {
                Some(task) => awaits(final(self)@, task@),
                None => finished(final(self)@),
            },
    {
        let ghost start = self@;
        let ghost settled: Seq<NamedModel> = Seq::empty();
        assert(self@.results =~= start.results + settled);
        loop
            invariant
                start == old(self)@,
                in_order(self@),
                self@.names == start.names,
                self@.tasks == start.tasks,
                self@.results == start.results + settled,
                self.names.deep_view() == self@.names,
                self.tasks.deep_view() == self@.tasks,
                self.results.deep_view() == self@.results,
                settled + unanswered_run(start.names, start.tasks, self@.results.len() as int)
                    == unanswered_run(start.names, start.tasks, start.results.len() as int),
            decreases self.names.len() - self.results.len(),
        {
            let at = self.results.len();
            if at >= self.names.len() {
                proof {
                    assert(unanswered_run(start.names, start.tasks, at as int)
                        =~= Seq::<NamedModel>::empty());
                    assert(settled + Seq::<NamedModel>::empty() =~= settled);
                }
                return None;
            }
            assert(self.tasks.deep_view()[at as int] == self.tasks@[at as int].deep_view());
            match &self.tasks[at] {
                Some(task) => {
                    proof {
                        assert(unanswered_run(start.names, start.tasks, at as int)
                            =~= Seq::<NamedModel>::empty());
                        assert(settled + Seq::<NamedModel>::empty() =~= settled);
                    }
                    return Some(
                        ExportTask {
                            name: task.name.clone(),
                            record: task.record.duplicate(),
                            destination: task.destination.clone(),
                        },
                    );
                },
                None => {
                    let name = self.names[at].clone();
                    let message = self.names[at].clone();
                    let ghost before = self@;
                    assert(self.names.deep_view()[at as int] == self.names@[at as int]@);
                    let entry = NamedResult {
                        name,
                        result: ExportResult::Failure { kind: ErrorKind::IconNotFound, message },
                    };
                    assert(entry@ == not_found(start.names[at as int]));
                    self.results.push(entry);
                    proof {
                        assert(self@.results =~= before.results.push(
                            not_found(start.names[at as int]),
                        ));
                        lemma_settled_in_order(before, not_found(start.names[at as int]), self@);
                        let run = unanswered_run(start.names, start.tasks, at as int);
                        let rest = unanswered_run(start.names, start.tasks, at + 1);
                        assert(run == seq![not_found(start.names[at as int])] + rest);
                        let longer = settled.push(not_found(start.names[at as int]));
                        assert(longer + rest =~= settled + run);
                        assert(self@.results =~= start.results + longer);
                        settled = longer;
                    }
                },
            }
        }
    }

    /// Takes the outcome of attempting the task that [`Self::next_task`]
    /// handed out: the bytes written, or the failure. The name's result is
    /// a success to the task's destination, or a failure of the outcome's
    /// kind with its detail. Says `false`, and changes nothing, where the
    /// first name without a result has no task or no name is left.
    pub fn settle(&mut self, outcome: Result<u64, IconError>) -> (taken: bool)
        requires
            in_order(old(self)@),
        ensures
            in_order(final(self)@),
            final(self)@.names == old(self)@.names,
            final(self)@.tasks == old(self)@.tasks,
            taken == (!finished(old(self)@) && old(self)@.tasks[old(self)@.results.len() as int]
                is Some),
            taken ==> final(self)@.results == old(self)@.results.push(
                attempted(
                    old(self)@.tasks[old(self)@.results.len() as int]->Some_0,
                    outcome_model(outcome),
                ),
            ),
            !taken ==> final(self)@.results == old(self)@.results,
    {
        let at = self.results.len();
        if at >= self.names.len() {
            return false;
        }
        assert(self.tasks.deep_view()[at as int] == self.tasks@[at as int].deep_view());
        match &self.tasks[at] {
            None => false,
            Some(task) => {
                let ghost before = self@;
                let name = task.name.clone();
                let result = match outcome {
                    Ok(bytes_written) => ExportResult::Success {
                        bytes_written,
                        path: task.destination.clone(),
                    },
                    Err(error) => ExportResult::Failure {
                        kind: error.kind,
                        message: error.detail,
                    },
                };
                let entry = NamedResult { name, result };
                assert(entry@ == attempted(before.tasks[at as int]->Some_0, outcome_model(outcome)));
                let ghost settled = entry@;
                self.results.push(entry);
                proof {
                    assert(self@.results =~= before.results.push(settled));
                    lemma_settled_in_order(before, settled, self@);
                }
                true
            },
        }
    }

    /// The results settled so far, in the order of the request.
    pub fn results(&self) -> (r: &Vec<NamedResult>)
        ensures
            r.deep_view() == self@.results,
    {
        &self.results
    }

    /// The results settled so far, given away.
    pub fn into_results(self) -> (r: Vec<NamedResult>)
        ensures
            r.deep_view() == self@.results,
    {
        self.results
    }
}

/// Whether the result is a success.
pub open spec fn succeeded(entry: NamedModel) -> bool {
    entry.result is Success
}

/// [`succeeded`] as a function value.
pub open spec fn successes() -> spec_fn(NamedModel) -> bool {
    |entry: NamedModel| succeeded(entry)
}

/// The text that describes a failed name: the name, a colon and a space,
/// and the failure's text. A success has none.
pub open spec fn failure_text(entry: NamedModel) -> Option<Seq<char>> {
    match entry.result {
        ResultModel::Failure { kind, message } => Some(
            entry.name + ": "@ + error_text(ErrorModel { kind, detail: message }),
        ),
        ResultModel::Success { .. } => None,
    }
}

/// [`failure_text`] as a function value.
pub open spec fn failure_texts_of() -> spec_fn(NamedModel) -> Option<Seq<char>> {
    |entry: NamedModel| failure_text(entry)
}

/// How many of the results are successes.
pub open spec fn success_count(results: Seq<NamedModel>) -> nat {
    results.filter(successes()).len()
}

/// The descriptions of the failures among the results, in their order.
pub open spec fn failure_texts(results: Seq<NamedModel>) -> Seq<Seq<char>> {
    results.filter_map(failure_texts_of())
}

/// The text that describes the result where it is a failure.
pub fn describe_failure(entry: &NamedResult) -> (r: Option<String>)
    ensures
        r.deep_view() == failure_text(entry@),
{
    match &entry.result {
        ExportResult::Success { .. } => None,
        ExportResult::Failure { kind, message } => {
            let error = IconError { kind: *kind, detail: message.clone() };
            let mut text = entry.name.clone();
            text.append(": ");
            text.append(error.message().as_str());
            Some(text)
        },
    }
}

/// The number of successes among the results, and the descriptions of the
/// failures in their order.
pub fn summarize(results: &Vec<NamedResult>) -> (r: (usize, Vec<String>))
    ensures
        r.0 == success_count(results.deep_view()),
        r.1.deep_view() == failure_texts(results.deep_view()),
{
    let ghost all = results.deep_view();
    let mut count: usize = 0;
    let mut failures: Vec<String> = Vec::new();
    let mut i: usize = 0;
    proof {
        reveal(Seq::filter);
        assert(all.take(0) =~= Seq::<NamedModel>::empty());
        assert(failures.deep_view() =~= all.take(0).filter_map(failure_texts_of()));
    }
    while i < results.len()
        invariant
            i <= results.len(),
            all == results.deep_view(),
            count <= i,
            count == all.take(i as int).filter(successes()).len(),
            failures.deep_view() == all.take(i as int).filter_map(failure_texts_of()),
        decreases results.len() - i,
    {
        let ghost before = failures.deep_view();
        proof {
            assert(all.take(i + 1) =~= all.take(i as int).push(all[i as int]));
            all.take(i as int).lemma_filter_push(all[i as int], successes());
            all.lemma_filter_map_take_succ(failure_texts_of(), i as int);
            assert(all[i as int] == results@[i as int]@);
        }
        match describe_failure(&results[i]) {
            Some(text) => {
                failures.push(text);
                assert(failures.deep_view() =~= before.push(failure_text(all[i as int])->Some_0));
            },
            None => {
                count = count + 1;
            },
        }
        i = i + 1;
    }
    assert(all.take(all.len() as int) =~= all);
    (count, failures)
}

} // verus!
